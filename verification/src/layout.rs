//! The shape of a head/tail layout: what a buffer must hold, word by word,
//! for a sequence of parameter types, and the fault of the first word that
//! does not fit.
use crate::types::{type_views, CoderError, ParameterType, ParameterTypeView};
use crate::words::{
    be_value, lemma_be_value_split, lemma_be_value_zero, lemma_unsigned_range, pow256,
};
use vstd::prelude::*;
use vstd::slice::slice_subrange;

verus! {

/// The least number that an offset or a length in a layout cannot be: two to
/// the power 32.
pub open spec fn small_limit() -> nat {
    0x1_0000_0000
}

/// Whether a type is dynamic: text, a byte string or an array of any
/// length, or a fixed array or tuple that holds a dynamic type.
pub open spec fn is_dynamic(ty: ParameterTypeView) -> bool
    decreases ty,
{
    match ty {
        ParameterTypeView::String => true,
        ParameterTypeView::Bytes => true,
        ParameterTypeView::Array(_) => true,
        ParameterTypeView::FixedArray(elem, _) => is_dynamic(*elem),
        ParameterTypeView::Tuple(members) => exists|i: int|
            0 <= i < members.len() && is_dynamic(#[trigger] members[i]),
        _ => false,
    }
}

/// Whether `data` holds a whole word at `at`.
pub open spec fn has_word(data: Seq<u8>, at: int) -> bool {
    0 <= at && at + 32 <= data.len()
}

/// The number in the word of `data` at `at`.
pub open spec fn word_value(data: Seq<u8>, at: int) -> nat {
    be_value(data.subrange(at, at + 32))
}

/// Where the length word of a byte string, text or array stands, read from
/// the offset word at `offset`.
pub open spec fn length_start(data: Seq<u8>, offset: int) -> Result<int, CoderError> {
    if !has_word(data, offset) {
        Err(CoderError::BufferTooShort)
    } else if word_value(data, offset) >= small_limit() || word_value(data, offset) + 32
        > data.len() {
        Err(CoderError::MalformedOffset)
    } else {
        Ok(word_value(data, offset) as int)
    }
}

/// Where the members of a dynamic tuple or fixed array stand, read from the
/// offset word at `offset`.
pub open spec fn region_start(data: Seq<u8>, offset: int) -> Result<int, CoderError> {
    if !has_word(data, offset) {
        Err(CoderError::BufferTooShort)
    } else if word_value(data, offset) >= small_limit() || word_value(data, offset) > data.len() {
        Err(CoderError::MalformedOffset)
    } else {
        Ok(word_value(data, offset) as int)
    }
}

/// Checks the part of `data` that holds a value of type `ty` whose head
/// stands at `offset`: gives the offset of the next head, or the fault.
pub open spec fn scan(ty: ParameterTypeView, data: Seq<u8>, offset: int) -> Result<
    int,
    CoderError,
>
    decreases ty, 0nat,
{
    match ty {
        ParameterTypeView::Address | ParameterTypeView::Uint(_) | ParameterTypeView::Int(_) => {
            if has_word(data, offset) {
                Ok(offset + 32)
            } else {
                Err(CoderError::BufferTooShort)
            }
        },
        ParameterTypeView::Bool => {
            if !has_word(data, offset) {
                Err(CoderError::BufferTooShort)
            } else if word_value(data, offset) >= 256 {
                Err(CoderError::MalformedInput)
            } else {
                Ok(offset + 32)
            }
        },
        ParameterTypeView::FixedBytes(width) => {
            if 0 <= offset && offset + width <= data.len() {
                Ok(offset + 32)
            } else {
                Err(CoderError::BufferTooShort)
            }
        },
        ParameterTypeView::Bytes | ParameterTypeView::String => match length_start(data, offset) {
            Err(e) => Err(e),
            Ok(start) => {
                if word_value(data, start) >= small_limit() || word_value(data, start)
                    > data.len() - start - 32 {
                    Err(CoderError::LengthOverflow)
                } else {
                    Ok(offset + 32)
                }
            },
        },
        ParameterTypeView::Array(elem) => match length_start(data, offset) {
            Err(e) => Err(e),
            Ok(start) => {
                let count = word_value(data, start);
                let tail = data.skip(start + 32);
                if count >= small_limit() || (count > 0 && (count - 1) * 32 >= tail.len()) {
                    Err(CoderError::LengthOverflow)
                } else {
                    match scan_each(*elem, tail, 0, count) {
                        Err(e) => Err(e),
                        Ok(_) => Ok(offset + 32),
                    }
                }
            },
        },
        ParameterTypeView::FixedArray(elem, len) => {
            if is_dynamic(*elem) {
                match region_start(data, offset) {
                    Err(e) => Err(e),
                    Ok(start) => match scan_each(*elem, data.skip(start), 0, len) {
                        Err(e) => Err(e),
                        Ok(_) => Ok(offset + 32),
                    },
                }
            } else {
                scan_each(*elem, data, offset, len)
            }
        },
        ParameterTypeView::Tuple(members) => {
            if is_dynamic(ty) {
                match region_start(data, offset) {
                    Err(e) => Err(e),
                    Ok(start) => match scan_members(members, data.skip(start), 0, members.len()) {
                        Err(e) => Err(e),
                        Ok(_) => Ok(offset + 32),
                    },
                }
            } else {
                scan_members(members, data, offset, members.len())
            }
        },
    }
}

/// Checks `n` values of type `elem` whose heads follow one another from
/// `offset`.
pub open spec fn scan_each(elem: ParameterTypeView, data: Seq<u8>, offset: int, n: nat) -> Result<
    int,
    CoderError,
>
    decreases elem, n,
{
    if n == 0 {
        Ok(offset)
    } else {
        match scan_each(elem, data, offset, (n - 1) as nat) {
            Err(e) => Err(e),
            Ok(next) => scan(elem, data, next),
        }
    }
}

/// Checks the values of the first `n` of `types` whose heads follow one
/// another from `offset`.
pub open spec fn scan_members(types: Seq<ParameterTypeView>, data: Seq<u8>, offset: int, n: nat)
    -> Result<int, CoderError>
    decreases types, n,
{
    if n == 0 || n > types.len() {
        Ok(offset)
    } else {
        match scan_members(types, data, offset, (n - 1) as nat) {
            Err(e) => Err(e),
            Ok(next) => scan(types[n - 1], data, next),
        }
    }
}

/// The fault in `data` as a layout for `types`, if it has one: of the first
/// head, in order, whose words do not fit.
pub open spec fn layout_fault(types: Seq<ParameterTypeView>, data: Seq<u8>) -> Option<CoderError> {
    match scan_members(types, data, 0, types.len()) {
        Err(e) => Some(e),
        Ok(_) => None,
    }
}

/// A tuple with a dynamic member is dynamic.
pub proof fn lemma_dynamic_member(members: Seq<ParameterTypeView>, i: int)
    requires
        0 <= i < members.len(),
        is_dynamic(members[i]),
    ensures
        is_dynamic(ParameterTypeView::Tuple(members)),
{
    let tuple = ParameterTypeView::Tuple(members);
    assert(tuple->Tuple_0 == members);
    assert(is_dynamic(tuple) == (exists|j: int|
        0 <= j < members.len() && is_dynamic(#[trigger] members[j])));
}

/// Whether a parameter type is dynamic.
#[verifier::loop_isolation(false)]
pub fn dynamic(ty: &ParameterType) -> (r: bool)
    ensures
        r == is_dynamic(ty@),
    decreases ty,
{
    match ty {
        ParameterType::String => true,
        ParameterType::Bytes => true,
        ParameterType::Array(_) => true,
        ParameterType::FixedArray(elem, _) => dynamic(elem),
        ParameterType::Tuple(members) => {
            let ghost views = type_views(members@);
            let mut i: usize = 0;
            while i < members.len()
                invariant
                    i <= members@.len(),
                    forall|j: int| 0 <= j < i ==> !is_dynamic(#[trigger] views[j]),
                decreases members@.len() - i,
            {
                if dynamic(&members[i]) {
                    proof {
                        lemma_dynamic_member(views, i as int);
                    }
                    return true;
                }
                i += 1;
            }
            false
        },
        _ => false,
    }
}

/// Whether the first `k` bytes of the word at `at` are zero.
#[verifier::loop_isolation(false)]
fn leading_zeros(data: &[u8], at: usize, k: usize) -> (r: bool)
    requires
        at + 32 <= data@.len(),
        k <= 32,
    ensures
        r == (word_value(data@, at as int) < pow256((32 - k) as nat)),
{
    let ghost word = data@.subrange(at as int, at + 32);
    proof {
        lemma_unsigned_range(word, k as int);
    }
    let len: usize = data.len();
    assert(at + 32 <= len);
    let mut i: usize = 0;
    while i < k
        invariant
            i <= k,
            forall|j: int| 0 <= j < i ==> #[trigger] word[j] == 0,
        decreases k - i,
    {
        if data[at + i] != 0 {
            assert(word[i as int] != 0);
            return false;
        }
        i += 1;
    }
    true
}

/// A word whose first 28 bytes are zero holds the number of its last four.
pub proof fn lemma_low_bytes(word: Seq<u8>)
    requires
        word.len() == 32,
        forall|i: int| 0 <= i < 28 ==> #[trigger] word[i] == 0,
    ensures
        be_value(word) == word[28] as nat * 16777216 + word[29] as nat * 65536 + word[30] as nat
            * 256 + word[31] as nat,
{
    let head = word.take(28);
    let low = word.skip(28);
    lemma_be_value_split(word, 28);
    lemma_be_value_zero(head);
    assert forall|i: int| 0 <= i < head.len() implies #[trigger] head[i] == 0 by {
        assert(word[i] == 0);
    }
    assert(be_value(head) == 0);
    assert(be_value(head) * pow256(4) == 0) by (nonlinear_arith)
        requires
            be_value(head) == 0,
    ;
    assert(be_value(word) == be_value(low));
    reveal_with_fuel(pow256, 5);
    let l1 = low.skip(1);
    let l2 = l1.skip(1);
    let l3 = l2.skip(1);
    let l4 = l3.skip(1);
    assert(pow256(0) == 1 && pow256(1) == 256 && pow256(2) == 65536 && pow256(3) == 16777216);
    assert(l4.len() == 0 && be_value(l4) == 0);
    assert(l3[0] == word[31] && be_value(l3) == l3[0] as nat * pow256(0) + be_value(l4));
    assert(l2[0] == word[30] && be_value(l2) == l2[0] as nat * pow256(1) + be_value(l3));
    assert(l1[0] == word[29] && be_value(l1) == l1[0] as nat * pow256(2) + be_value(l2));
    assert(low[0] == word[28] && be_value(low) == low[0] as nat * pow256(3) + be_value(l1));
}

/// The number in the word at `at`, if it is below two to the power 32.
fn read_small(data: &[u8], at: usize) -> (r: Option<usize>)
    requires
        at + 32 <= data@.len(),
    ensures
        match r {
            Some(n) => n == word_value(data@, at as int) && n < small_limit(),
            None => word_value(data@, at as int) >= small_limit(),
        },
{
    proof {
        reveal_with_fuel(pow256, 5);
    }
    if !leading_zeros(data, at, 28) {
        return None;
    }
    let len: usize = data.len();
    assert(at + 32 <= len);
    let b0: usize = data[at + 28] as usize;
    let b1: usize = data[at + 29] as usize;
    let b2: usize = data[at + 30] as usize;
    let b3: usize = data[at + 31] as usize;
    proof {
        let word = data@.subrange(at as int, at + 32);
        lemma_unsigned_range(word, 28);
        lemma_low_bytes(word);
    }
    let n: usize = ((b0 * 256 + b1) * 256 + b2) * 256 + b3;
    assert(n == b0 * 16777216 + b1 * 65536 + b2 * 256 + b3);
    Some(n)
}

/// An error among the first `n` values is the error of every longer run.
pub proof fn lemma_scan_each_error(
    elem: ParameterTypeView,
    data: Seq<u8>,
    offset: int,
    n: nat,
    m: nat,
)
    requires
        n <= m,
        scan_each(elem, data, offset, n) is Err,
    ensures
        scan_each(elem, data, offset, m) == scan_each(elem, data, offset, n),
    decreases m,
{
    if n < m {
        lemma_scan_each_error(elem, data, offset, n, (m - 1) as nat);
    }
}

/// An error among the first `n` members is the error of every longer run.
pub proof fn lemma_scan_members_error(
    types: Seq<ParameterTypeView>,
    data: Seq<u8>,
    offset: int,
    n: nat,
    m: nat,
)
    requires
        n <= m <= types.len(),
        scan_members(types, data, offset, n) is Err,
    ensures
        scan_members(types, data, offset, m) == scan_members(types, data, offset, n),
    decreases m,
{
    if n < m {
        lemma_scan_members_error(types, data, offset, n, (m - 1) as nat);
    }
}

/// Reads the offset word at `offset` and checks that a length word stands
/// where it points.
fn check_length_start(data: &[u8], offset: usize) -> (r: Result<usize, CoderError>)
    ensures
        match r {
            Ok(start) => length_start(data@, offset as int) == Ok::<int, CoderError>(start as int),
            Err(e) => length_start(data@, offset as int) == Err::<int, CoderError>(e),
        },
{
    let len: usize = data.len();
    if offset > len || len - offset < 32 {
        return Err(CoderError::BufferTooShort);
    }
    match read_small(data, offset) {
        None => Err(CoderError::MalformedOffset),
        Some(start) => {
            if start > len || len - start < 32 {
                Err(CoderError::MalformedOffset)
            } else {
                Ok(start)
            }
        },
    }
}

/// Reads the offset word at `offset` and checks that it points into the
/// buffer.
fn check_region_start(data: &[u8], offset: usize) -> (r: Result<usize, CoderError>)
    ensures
        match r {
            Ok(start) => region_start(data@, offset as int) == Ok::<int, CoderError>(start as int),
            Err(e) => region_start(data@, offset as int) == Err::<int, CoderError>(e),
        },
{
    let len: usize = data.len();
    if offset > len || len - offset < 32 {
        return Err(CoderError::BufferTooShort);
    }
    match read_small(data, offset) {
        None => Err(CoderError::MalformedOffset),
        Some(start) => {
            if start > len {
                Err(CoderError::MalformedOffset)
            } else {
                Ok(start)
            }
        },
    }
}

/// Checks the part of `data` that holds a value of type `ty` whose head
/// stands at `offset`.
pub fn check_value(ty: &ParameterType, data: &[u8], offset: usize) -> (r: Result<
    usize,
    CoderError,
>)
    requires
        data@.len() + 32 <= usize::MAX,
        offset <= data@.len() + 32,
    ensures
        match r {
            Ok(next) => scan(ty@, data@, offset as int) == Ok::<int, CoderError>(next as int)
                && next <= data@.len() + 32,
            Err(e) => scan(ty@, data@, offset as int) == Err::<int, CoderError>(e),
        },
    decreases ty, 0nat,
{
    let len: usize = data.len();
    match ty {
        ParameterType::Address | ParameterType::Uint(_) | ParameterType::Int(_) => {
            if offset > len || len - offset < 32 {
                Err(CoderError::BufferTooShort)
            } else {
                Ok(offset + 32)
            }
        },
        ParameterType::Bool => {
            if offset > len || len - offset < 32 {
                return Err(CoderError::BufferTooShort);
            }
            proof {
                reveal_with_fuel(pow256, 2);
            }
            if leading_zeros(data, offset, 31) {
                Ok(offset + 32)
            } else {
                Err(CoderError::MalformedInput)
            }
        },
        ParameterType::FixedBytes(width) => {
            if offset > len || len - offset < *width {
                Err(CoderError::BufferTooShort)
            } else {
                Ok(offset + 32)
            }
        },
        ParameterType::Bytes | ParameterType::String => {
            let start = match check_length_start(data, offset) {
                Ok(start) => start,
                Err(e) => { return Err(e); },
            };
            match read_small(data, start) {
                None => Err(CoderError::LengthOverflow),
                Some(length) => {
                    if length > len - start - 32 {
                        Err(CoderError::LengthOverflow)
                    } else {
                        Ok(offset + 32)
                    }
                },
            }
        },
        ParameterType::Array(elem) => {
            let start = match check_length_start(data, offset) {
                Ok(start) => start,
                Err(e) => { return Err(e); },
            };
            let count = match read_small(data, start) {
                Some(count) => count,
                None => { return Err(CoderError::LengthOverflow); },
            };
            let tail = slice_subrange(data, start + 32, len);
            assert(tail@ =~= data@.skip(start + 32));
            if count > 0 && count - 1 >= (tail.len() + 31) / 32 {
                return Err(CoderError::LengthOverflow);
            }
            match check_each(elem, tail, 0, count) {
                Ok(_) => Ok(offset + 32),
                Err(e) => Err(e),
            }
        },
        ParameterType::FixedArray(elem, n) => {
            if dynamic(elem) {
                let start = match check_region_start(data, offset) {
                    Ok(start) => start,
                    Err(e) => { return Err(e); },
                };
                let tail = slice_subrange(data, start, len);
                assert(tail@ =~= data@.skip(start as int));
                match check_each(elem, tail, 0, *n) {
                    Ok(_) => Ok(offset + 32),
                    Err(e) => Err(e),
                }
            } else {
                check_each(elem, data, offset, *n)
            }
        },
        ParameterType::Tuple(members) => {
            if dynamic(ty) {
                let start = match check_region_start(data, offset) {
                    Ok(start) => start,
                    Err(e) => { return Err(e); },
                };
                let tail = slice_subrange(data, start, len);
                assert(tail@ =~= data@.skip(start as int));
                match check_members(members, tail, 0) {
                    Ok(_) => Ok(offset + 32),
                    Err(e) => Err(e),
                }
            } else {
                check_members(members, data, offset)
            }
        },
    }
}

/// Checks `n` values of type `elem` whose heads follow one another from
/// `offset`.
#[verifier::loop_isolation(false)]
pub fn check_each(elem: &ParameterType, data: &[u8], offset: usize, n: usize) -> (r: Result<
    usize,
    CoderError,
>)
    requires
        data@.len() + 32 <= usize::MAX,
        offset <= data@.len() + 32,
    ensures
        match r {
            Ok(next) => scan_each(elem@, data@, offset as int, n as nat) == Ok::<int, CoderError>(
                next as int,
            ) && next <= data@.len() + 32,
            Err(e) => scan_each(elem@, data@, offset as int, n as nat) == Err::<int, CoderError>(e),
        },
    decreases elem, 1nat,
{
    let mut next: usize = offset;
    let mut i: usize = 0;
    while i < n
        invariant
            i <= n,
            next <= data@.len() + 32,
            scan_each(elem@, data@, offset as int, i as nat) == Ok::<int, CoderError>(next as int),
        decreases n - i,
    {
        match check_value(elem, data, next) {
            Ok(after) => { next = after; },
            Err(e) => {
                proof {
                    lemma_scan_each_error(elem@, data@, offset as int, (i + 1) as nat, n as nat);
                }
                return Err(e);
            },
        }
        i += 1;
    }
    Ok(next)
}

/// Checks the values of `types` whose heads follow one another from
/// `offset`.
#[verifier::loop_isolation(false)]
pub fn check_members(types: &Vec<ParameterType>, data: &[u8], offset: usize) -> (r: Result<
    usize,
    CoderError,
>)
    requires
        data@.len() + 32 <= usize::MAX,
        offset <= data@.len() + 32,
    ensures
        match r {
            Ok(next) => scan_members(type_views(types@), data@, offset as int, types@.len())
                == Ok::<int, CoderError>(next as int) && next <= data@.len() + 32,
            Err(e) => scan_members(type_views(types@), data@, offset as int, types@.len())
                == Err::<int, CoderError>(e),
        },
    decreases types, 1nat,
{
    let ghost shapes = type_views(types@);
    let mut next: usize = offset;
    let mut i: usize = 0;
    while i < types.len()
        invariant
            i <= types@.len(),
            next <= data@.len() + 32,
            scan_members(shapes, data@, offset as int, i as nat) == Ok::<int, CoderError>(
                next as int,
            ),
        decreases types@.len() - i,
    {
        match check_value(&types[i], data, next) {
            Ok(after) => { next = after; },
            Err(e) => {
                proof {
                    lemma_scan_members_error(
                        shapes,
                        data@,
                        offset as int,
                        (i + 1) as nat,
                        shapes.len(),
                    );
                }
                return Err(e);
            },
        }
        i += 1;
    }
    Ok(next)
}

/// Checks that `data` holds a layout for `types`, and names the first fault
/// if it does not.
pub fn check_layout(types: &Vec<ParameterType>, data: &[u8]) -> (r: Result<(), CoderError>)
    requires
        data@.len() + 32 <= usize::MAX,
    ensures
        match r {
            Ok(_) => layout_fault(type_views(types@), data@).is_none(),
            Err(e) => layout_fault(type_views(types@), data@) == Some(e),
        },
{
    match check_members(types, data, 0) {
        Ok(_) => Ok(()),
        Err(e) => Err(e),
    }
}

} // verus!
