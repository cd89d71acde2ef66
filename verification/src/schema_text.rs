//! The text of an interface description, before it is parsed: whether every
//! name in it is one that the reader of type names can take.
use vstd::prelude::*;
use vstd::string::*;
use vstd::utf8::is_ascii_chars;

verus! {

/// The greatest length of a name that ends in a bracket.
pub const MAX_NAME: usize = 256;

/// The position of the last `[` in `name`, or -1 where it has none.
pub open spec fn last_open(name: Seq<char>) -> int
    decreases name.len(),
{
    if name.len() == 0 {
        -1
    } else if name.last() == '[' {
        name.len() - 1
    } else {
        last_open(name.drop_last())
    }
}

/// Whether a name is one that the reader of type names can take: it does
/// not end in `)`, and where it ends in `]` it is no longer than
/// [`MAX_NAME`], a `[` stands before that `]`, and what stands before that
/// `[` is such a name again.
pub open spec fn safe_name(name: Seq<char>) -> bool
    decreases name.len(),
{
    if name.len() == 0 {
        true
    } else if name.last() == ')' {
        false
    } else if name.last() == ']' {
        name.len() <= MAX_NAME && 0 <= last_open(name.drop_last()) < name.len() && safe_name(
            name.take(last_open(name.drop_last())),
        )
    } else {
        true
    }
}

/// Where the piece of `text` that ends before position `end` begins: behind
/// the last `"` before `end`, or at the start of the text.
pub open spec fn piece_start(text: Seq<char>, end: int) -> int
    decreases end,
{
    if end <= 0 {
        0
    } else if text[end - 1] == '"' {
        end
    } else {
        piece_start(text, end - 1)
    }
}

/// Whether every name in the text of an interface description is one that
/// the reader of type names can take. The test is on the side of caution:
/// the text is ASCII without a backslash, so that what stands between two
/// `"` is a name as it is read, and every piece of the text that ends at a
/// `"` is a safe name.
pub open spec fn names_are_safe(text: Seq<char>) -> bool {
    &&& is_ascii_chars(text)
    &&& forall|i: int| 0 <= i < text.len() ==> #[trigger] text[i] != '\\'
    &&& forall|q: int|
        0 <= q < text.len() && #[trigger] text[q] == '"' ==> safe_name(
            text.subrange(piece_start(text, q), q),
        )
}

/// The last `[` of a name stands where `last_open` says, and no `[` stands
/// behind it.
pub proof fn lemma_last_open(name: Seq<char>)
    ensures
        -1 <= last_open(name) < name.len(),
        last_open(name) >= 0 ==> name[last_open(name)] == '[',
        forall|k: int| last_open(name) < k < name.len() ==> #[trigger] name[k] != '[',
    decreases name.len(),
{
    if name.len() > 0 && name.last() != '[' {
        lemma_last_open(name.drop_last());
        assert forall|k: int| last_open(name) < k < name.len() implies #[trigger] name[k]
            != '[' by {
            if k < name.len() - 1 {
                assert(name.drop_last()[k] == name[k]);
            }
        }
    }
}

/// A position with a `[` and none behind it is the one that `last_open`
/// gives; a name without `[` has none.
pub proof fn lemma_last_open_is(name: Seq<char>, j: int)
    requires
        -1 <= j < name.len(),
        j >= 0 ==> name[j] == '[',
        forall|k: int| j < k < name.len() ==> #[trigger] name[k] != '[',
    ensures
        last_open(name) == j,
{
    lemma_last_open(name);
    let found = last_open(name);
    if found > j {
        assert(name[found] != '[');
    }
    if found < j {
        assert(name[j] == '[');
    }
}

/// Whether the bytes of `text` from `start` to `end` are a safe name.
#[verifier::loop_isolation(false)]
fn piece_is_safe(bytes: &[u8], start: usize, end: usize, Ghost(text): Ghost<Seq<char>>) -> (r: bool)
    requires
        start <= end <= bytes@.len(),
        bytes@.len() == text.len(),
        is_ascii_chars(text),
        forall|i: int| 0 <= i < text.len() ==> #[trigger] bytes@[i] == text[i] as u8,
    ensures
        r == safe_name(text.subrange(start as int, end as int)),
{
    let ghost whole = text.subrange(start as int, end as int);
    let mut stop: usize = end;
    loop
        invariant
            start <= stop <= end,
            safe_name(whole) == safe_name(text.subrange(start as int, stop as int)),
        decreases stop,
    {
        let ghost name = text.subrange(start as int, stop as int);
        if stop == start {
            return true;
        }
        let last: u8 = bytes[stop - 1];
        assert(name.last() == text[stop - 1]);
        if last == 41 {
            assert(name.last() == ')');
            return false;
        }
        if last != 93 {
            assert(name.last() != ']' && name.last() != ')');
            return true;
        }
        assert(name.last() == ']');
        if stop - start > MAX_NAME {
            return false;
        }
        let ghost inner = name.drop_last();
        let mut open: usize = stop - 1;
        let mut found: bool = false;
        while open > start && !found
            invariant
                start <= open <= stop - 1,
                forall|k: int| open - start <= k < inner.len() && !(found && k == open - start)
                    ==> #[trigger] inner[k] != '[',
                found ==> open < stop - 1 && inner[open - start] == '[',
            decreases open - start + if found { 0int } else { 1int },
        {
            open -= 1;
            if bytes[open] == 91 {
                assert(inner[open - start] == text[open as int]);
                found = true;
            } else {
                assert(inner[open - start] == text[open as int]);
            }
        }
        proof {
            if found {
                lemma_last_open_is(inner, open - start);
                assert(name.take(open - start) =~= text.subrange(start as int, open as int));
            } else {
                lemma_last_open_is(inner, -1);
            }
        }
        if !found {
            return false;
        }
        stop = open;
    }
}

/// Whether every name in the text of an interface description is one that
/// the reader of type names can take.
#[verifier::loop_isolation(false)]
pub fn names_safe(text: &str) -> (r: bool)
    ensures
        r == names_are_safe(text@),
{
    if !text.is_ascii() {
        return false;
    }
    let bytes = text.as_bytes();
    proof {
        is_ascii_spec_bytes(text);
    }
    let len: usize = bytes.len();
    let mut start: usize = 0;
    let mut i: usize = 0;
    while i < len
        invariant
            i <= len == text@.len(),
            len == bytes@.len(),
            is_ascii_chars(text@),
            forall|k: int| 0 <= k < len ==> #[trigger] bytes@[k] == text@[k] as u8,
            start <= i,
            start == piece_start(text@, i as int),
            forall|k: int| 0 <= k < i ==> #[trigger] text@[k] != '\\',
            forall|q: int|
                0 <= q < i && #[trigger] text@[q] == '"' ==> safe_name(
                    text@.subrange(piece_start(text@, q), q),
                ),
        decreases len - i,
    {
        let b: u8 = bytes[i];
        if b == 92 {
            assert(text@[i as int] == '\\');
            return false;
        }
        if b == 34 {
            assert(text@[i as int] == '"');
            if !piece_is_safe(bytes, start, i, Ghost(text@)) {
                return false;
            }
            start = i + 1;
        } else {
            assert(text@[i as int] != '"');
        }
        i += 1;
    }
    true
}

} // verus!
