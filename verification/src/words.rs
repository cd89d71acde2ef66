//! Big-endian words: the numbers that byte strings denote, the ranges that
//! bit widths allow, and decimal text.
use vstd::arithmetic::power2::{lemma2_to64, lemma_pow2_adds, pow2};
use vstd::prelude::*;

verus! {

/// 256 to the power `n`.
pub open spec fn pow256(n: nat) -> nat
    decreases n,
{
    if n == 0 {
        1
    } else {
        256 * pow256((n - 1) as nat)
    }
}

/// The number that a big-endian byte string denotes.
pub open spec fn be_value(bytes: Seq<u8>) -> nat
    decreases bytes.len(),
{
    if bytes.len() == 0 {
        0
    } else {
        bytes[0] as nat * pow256((bytes.len() - 1) as nat) + be_value(bytes.skip(1))
    }
}

/// The number that a big-endian twos-complement byte string denotes.
pub open spec fn signed_value(bytes: Seq<u8>) -> int {
    if bytes.len() > 0 && bytes[0] >= 128 {
        be_value(bytes) - pow256(bytes.len())
    } else {
        be_value(bytes) as int
    }
}

/// Whether `bits` is a width that an integer type may declare.
pub open spec fn valid_bits(bits: nat) -> bool {
    8 <= bits <= 256 && bits % 8 == 0
}

/// The least number that an unsigned integer of `bits` bits cannot hold:
/// two to the power `bits`.
pub open spec fn unsigned_limit(bits: nat) -> nat {
    pow2(bits)
}

/// The least number that a signed integer of `bits` bits cannot hold: two to
/// the power `bits - 1`.
pub open spec fn signed_limit(bits: nat) -> nat {
    pow2((bits - 1) as nat)
}

/// Two to the power of eight times `k` is 256 to the power `k`.
pub proof fn lemma_pow2_of_bytes(k: nat)
    ensures
        pow2(8 * k) == pow256(k),
    decreases k,
{
    lemma2_to64();
    if k > 0 {
        lemma_pow2_of_bytes((k - 1) as nat);
        lemma_pow2_adds(8, (8 * (k - 1)) as nat);
        assert(8 + 8 * (k - 1) == 8 * k);
    }
}

/// The limits of a width of whole bytes, in powers of 256.
pub proof fn lemma_limits(bits: nat)
    requires
        bits >= 8,
        bits % 8 == 0,
    ensures
        unsigned_limit(bits) == pow256(bits / 8),
        signed_limit(bits) == 128 * pow256((bits / 8 - 1) as nat),
{
    let k = bits / 8;
    lemma2_to64();
    lemma_pow2_of_bytes(k);
    lemma_pow2_of_bytes((k - 1) as nat);
    lemma_pow2_adds(7, (8 * (k - 1)) as nat);
    assert(7 + 8 * (k - 1) == bits - 1);
    assert(8 * k == bits);
}

pub proof fn lemma_pow256_positive(n: nat)
    ensures
        pow256(n) > 0,
    decreases n,
{
    if n > 0 {
        lemma_pow256_positive((n - 1) as nat);
    }
}

pub proof fn lemma_pow256_add(a: nat, b: nat)
    ensures
        pow256(a + b) == pow256(a) * pow256(b),
    decreases a,
{
    if a == 0 {
        assert(pow256(0 + b) == 1 * pow256(b));
    } else {
        lemma_pow256_add((a - 1) as nat, b);
        assert(pow256(a + b) == 256 * pow256((a - 1 + b) as nat));
        assert(256 * (pow256((a - 1) as nat) * pow256(b)) == (256 * pow256((a - 1) as nat))
            * pow256(b)) by (nonlinear_arith);
    }
}

pub proof fn lemma_pow256_monotone(a: nat, b: nat)
    requires
        a <= b,
    ensures
        pow256(a) <= pow256(b),
{
    lemma_pow256_add(a, (b - a) as nat);
    lemma_pow256_positive((b - a) as nat);
    lemma_pow256_positive(a);
    assert(pow256(a) * pow256((b - a) as nat) >= pow256(a)) by (nonlinear_arith)
        requires
            pow256((b - a) as nat) >= 1,
            pow256(a) >= 1,
    ;
}

/// A byte string denotes a number below 256 to the power of its length.
pub proof fn lemma_be_value_bound(bytes: Seq<u8>)
    ensures
        be_value(bytes) < pow256(bytes.len()),
    decreases bytes.len(),
{
    if bytes.len() > 0 {
        lemma_be_value_bound(bytes.skip(1));
        let p = pow256((bytes.len() - 1) as nat);
        assert(bytes[0] as nat * p + p <= 256 * p) by (nonlinear_arith)
            requires
                bytes[0] as nat <= 255,
        ;
    }
}

/// The value of a byte string in terms of its first `k` bytes and the rest.
pub proof fn lemma_be_value_split(bytes: Seq<u8>, k: int)
    requires
        0 <= k <= bytes.len(),
    ensures
        be_value(bytes) == be_value(bytes.take(k)) * pow256((bytes.len() - k) as nat) + be_value(
            bytes.skip(k),
        ),
    decreases k,
{
    if k == 0 {
        assert(bytes.take(0).len() == 0);
        assert(be_value(bytes.take(0)) == 0);
        assert(bytes.skip(0) =~= bytes);
        assert(0 * pow256(bytes.len()) == 0);
    } else {
        let rest = bytes.skip(1);
        let head = bytes.take(k);
        let tail_len = (bytes.len() - k) as nat;
        lemma_be_value_split(rest, k - 1);
        assert(rest.take(k - 1) =~= head.skip(1));
        assert(rest.skip(k - 1) =~= bytes.skip(k));
        lemma_pow256_add((k - 1) as nat, tail_len);
        let b0 = bytes[0] as nat;
        let pk = pow256((k - 1) as nat);
        let pt = pow256(tail_len);
        let hv = be_value(head.skip(1));
        assert(head[0] == bytes[0]);
        assert(be_value(head) == b0 * pk + hv);
        assert(be_value(rest) == hv * pt + be_value(bytes.skip(k)));
        assert(pow256((bytes.len() - 1) as nat) == pk * pt);
        assert(be_value(bytes) == b0 * (pk * pt) + be_value(rest));
        assert((b0 * pk + hv) * pt == b0 * (pk * pt) + hv * pt) by (nonlinear_arith);
        assert(be_value(bytes) == be_value(head) * pt + be_value(bytes.skip(k)));
    }
}

/// A byte string denotes zero exactly when all its bytes are zero.
pub proof fn lemma_be_value_zero(bytes: Seq<u8>)
    ensures
        be_value(bytes) == 0 <==> forall|i: int| 0 <= i < bytes.len() ==> #[trigger] bytes[i] == 0,
    decreases bytes.len(),
{
    if bytes.len() > 0 {
        let rest = bytes.skip(1);
        lemma_be_value_zero(rest);
        let p = pow256((bytes.len() - 1) as nat);
        lemma_pow256_positive((bytes.len() - 1) as nat);
        if bytes[0] != 0 {
            assert(bytes[0] as nat * p > 0) by (nonlinear_arith)
                requires
                    bytes[0] as nat > 0,
                    p > 0,
            ;
        } else {
            assert(bytes[0] as nat * p == 0) by (nonlinear_arith)
                requires
                    bytes[0] as nat == 0,
            ;
        }
        if be_value(bytes) == 0 {
            assert forall|i: int| 0 <= i < bytes.len() implies #[trigger] bytes[i] == 0 by {
                if i > 0 {
                    assert(rest[i - 1] == 0);
                }
            }
        }
        if forall|i: int| 0 <= i < bytes.len() ==> #[trigger] bytes[i] == 0 {
            assert forall|i: int| 0 <= i < rest.len() implies #[trigger] rest[i] == 0 by {
                assert(bytes[i + 1] == 0);
            }
        }
    }
}

/// A byte string denotes the greatest number of its length exactly when all
/// its bytes are 255.
pub proof fn lemma_be_value_max(bytes: Seq<u8>)
    ensures
        be_value(bytes) == pow256(bytes.len()) - 1 <==> forall|i: int|
            0 <= i < bytes.len() ==> #[trigger] bytes[i] == 255,
    decreases bytes.len(),
{
    if bytes.len() > 0 {
        let rest = bytes.skip(1);
        lemma_be_value_max(rest);
        lemma_be_value_bound(rest);
        let p = pow256((bytes.len() - 1) as nat);
        lemma_pow256_positive((bytes.len() - 1) as nat);
        if bytes[0] != 255 {
            assert(bytes[0] as nat * p + p <= 255 * p) by (nonlinear_arith)
                requires
                    bytes[0] as nat <= 254,
            ;
        } else {
            assert(bytes[0] as nat * p == 255 * p) by (nonlinear_arith)
                requires
                    bytes[0] as nat == 255,
            ;
        }
        if be_value(bytes) == pow256(bytes.len()) - 1 {
            assert forall|i: int| 0 <= i < bytes.len() implies #[trigger] bytes[i] == 255 by {
                if i > 0 {
                    assert(rest[i - 1] == 255);
                }
            }
        }
        if forall|i: int| 0 <= i < bytes.len() ==> #[trigger] bytes[i] == 255 {
            assert forall|i: int| 0 <= i < rest.len() implies #[trigger] rest[i] == 255 by {
                assert(bytes[i + 1] == 255);
            }
        }
    }
}

/// What the leading zero bytes of a word say about its value.
pub proof fn lemma_unsigned_range(word: Seq<u8>, k: int)
    requires
        0 <= k <= word.len(),
    ensures
        be_value(word) < pow256((word.len() - k) as nat) <==> forall|i: int|
            0 <= i < k ==> #[trigger] word[i] == 0,
{
    let head = word.take(k);
    let limit = pow256((word.len() - k) as nat);
    let hi = be_value(head);
    let lo = be_value(word.skip(k));
    lemma_be_value_split(word, k);
    lemma_be_value_bound(word.skip(k));
    lemma_be_value_zero(head);
    if hi == 0 {
        assert(hi * limit == 0) by (nonlinear_arith)
            requires
                hi == 0,
        ;
        assert forall|i: int| 0 <= i < k implies #[trigger] word[i] == 0 by {
            assert(head[i] == 0);
        }
    } else {
        assert(hi * limit >= limit) by (nonlinear_arith)
            requires
                hi >= 1,
        ;
        if forall|i: int| 0 <= i < k ==> #[trigger] word[i] == 0 {
            assert forall|i: int| 0 <= i < head.len() implies #[trigger] head[i] == 0 by {
                assert(word[i] == 0);
            }
        }
    }
}

/// What the leading bytes of a twos-complement word say about its value:
/// it lies within the range of `word.len() - k` bytes exactly when its first
/// `k` bytes extend the sign of the byte that follows them.
pub proof fn lemma_signed_range(word: Seq<u8>, k: int)
    requires
        0 <= k < word.len(),
    ensures
        ({
            let limit = 128 * pow256((word.len() - k - 1) as nat);
            let fill: u8 = if word[0] >= 128 {
                255
            } else {
                0
            };
            (-limit <= signed_value(word) < limit) <==> ((forall|i: int|
                0 <= i < k ==> #[trigger] word[i] == fill) && (word[k] >= 128) == (word[0] >= 128))
        }),
{
    let head = word.take(k);
    let tail = word.skip(k);
    let p = pow256((word.len() - k - 1) as nat);
    let u = pow256((word.len() - k) as nat);
    let hi = be_value(head);
    let lo = be_value(tail);
    let top = pow256(k as nat);
    let rest = be_value(tail.skip(1));
    let lead = word[k] as nat;
    lemma_be_value_split(word, k);
    lemma_be_value_bound(word);
    lemma_be_value_bound(head);
    lemma_be_value_bound(tail);
    lemma_be_value_bound(tail.skip(1));
    lemma_be_value_zero(head);
    lemma_be_value_max(head);
    lemma_pow256_add(k as nat, (word.len() - k) as nat);
    lemma_pow256_positive((word.len() - k - 1) as nat);
    assert(u == 256 * p);
    assert(tail[0] == word[k]);
    assert(lo == lead * p + rest);
    assert(pow256(word.len()) == top * u);
    assert(lead >= 128 ==> lead * p >= 128 * p) by (nonlinear_arith);
    assert(lead < 128 ==> lead * p + p <= 128 * p) by (nonlinear_arith);
    assert(lead * p + p <= 256 * p) by (nonlinear_arith)
        requires
            lead <= 255,
    ;
    if word[0] >= 128 {
        if hi == top - 1 {
            assert(hi * u == top * u - u) by (nonlinear_arith)
                requires
                    hi == top - 1,
            ;
            assert forall|i: int| 0 <= i < k implies #[trigger] word[i] == 255 by {
                assert(head[i] == 255);
            }
        } else {
            assert(hi * u + u <= top * u - u) by (nonlinear_arith)
                requires
                    hi + 2 <= top,
            ;
            if forall|i: int| 0 <= i < k ==> #[trigger] word[i] == 255 {
                assert forall|i: int| 0 <= i < head.len() implies #[trigger] head[i] == 255 by {
                    assert(word[i] == 255);
                }
            }
        }
    } else {
        if hi == 0 {
            assert(hi * u == 0) by (nonlinear_arith)
                requires
                    hi == 0,
            ;
            assert forall|i: int| 0 <= i < k implies #[trigger] word[i] == 0 by {
                assert(head[i] == 0);
            }
        } else {
            assert(hi * u >= u) by (nonlinear_arith)
                requires
                    hi >= 1,
            ;
            if forall|i: int| 0 <= i < k ==> #[trigger] word[i] == 0 {
                assert forall|i: int| 0 <= i < head.len() implies #[trigger] head[i] == 0 by {
                    assert(word[i] == 0);
                }
            }
        }
    }
}

/// Whether the number in `word` fits an unsigned integer of `bits` bits.
#[verifier::loop_isolation(false)]
pub fn fits_unsigned(word: &[u8; 32], bits: usize) -> (r: bool)
    requires
        valid_bits(bits as nat),
    ensures
        r == (be_value(word@) < unsigned_limit(bits as nat)),
{
    let k: usize = 32 - bits / 8;
    proof {
        lemma_limits(bits as nat);
        lemma_unsigned_range(word@, k as int);
    }
    let mut i: usize = 0;
    while i < k
        invariant
            i <= k <= 32,
            forall|j: int| 0 <= j < i ==> #[trigger] word@[j] == 0,
        decreases k - i,
    {
        if word[i] != 0 {
            return false;
        }
        i += 1;
    }
    true
}

/// Whether the twos-complement number in `word` fits a signed integer of
/// `bits` bits.
#[verifier::loop_isolation(false)]
pub fn fits_signed(word: &[u8; 32], bits: usize) -> (r: bool)
    requires
        valid_bits(bits as nat),
    ensures
        r == (-signed_limit(bits as nat) <= signed_value(word@) < signed_limit(bits as nat)),
{
    let k: usize = 32 - bits / 8;
    let negative = word[0] >= 128;
    let fill: u8 = if negative {
        255
    } else {
        0
    };
    proof {
        lemma_limits(bits as nat);
        lemma_signed_range(word@, k as int);
    }
    let mut i: usize = 0;
    while i < k
        invariant
            i <= k < 32,
            forall|j: int| 0 <= j < i ==> #[trigger] word@[j] == fill,
        decreases k - i,
    {
        if word[i] != fill {
            return false;
        }
        i += 1;
    }
    (word[k] >= 128) == negative
}

/// The sign of a twos-complement word shows in its value.
pub proof fn lemma_sign_bit(word: Seq<u8>)
    requires
        word.len() > 0,
    ensures
        word[0] >= 128 <==> be_value(word) >= 128 * pow256((word.len() - 1) as nat),
{
    let p = pow256((word.len() - 1) as nat);
    let lead = word[0] as nat;
    lemma_be_value_bound(word.skip(1));
    assert(lead >= 128 ==> lead * p >= 128 * p) by (nonlinear_arith);
    assert(lead < 128 ==> lead * p + p <= 128 * p) by (nonlinear_arith);
}

/// The word that holds the number `n`.
pub fn word_from_magnitude(n: u64) -> (word: [u8; 32])
    ensures
        be_value(word@) == n,
{
    let mut word: [u8; 32] = [0u8; 32];
    let mut rest: u64 = n;
    let mut i: usize = 32;
    assert(word@.skip(32).len() == 0);
    assert(be_value(word@.skip(32)) == 0);
    assert(rest * pow256(0) == n) by {
        assert(pow256(0) == 1);
    }
    while i > 24
        invariant
            24 <= i <= 32,
            forall|j: int| 0 <= j < i ==> #[trigger] word@[j] == 0,
            be_value(word@.skip(i as int)) + rest * pow256((32 - i) as nat) == n,
        decreases i,
    {
        let ghost before = word@;
        let ghost p = pow256((32 - i) as nat);
        let low: u8 = (rest % 256) as u8;
        i -= 1;
        word[i] = low;
        proof {
            assert(word@.skip(i as int).skip(1) =~= before.skip(i + 1));
            assert(pow256((32 - i) as nat) == 256 * p);
            assert(low as nat * p + (rest / 256) * (256 * p) == rest * p) by (nonlinear_arith)
                requires
                    rest == 256 * (rest / 256) + low,
            ;
        }
        rest = rest / 256;
    }
    proof {
        reveal_with_fuel(pow256, 9);
        assert(pow256(8) == 0x1_0000_0000_0000_0000);
        assert(rest == 0) by (nonlinear_arith)
            requires
                rest * 0x1_0000_0000_0000_0000 <= n,
                n < 0x1_0000_0000_0000_0000,
                rest >= 0,
        ;
        lemma_be_value_split(word@, 24);
        lemma_be_value_zero(word@.take(24));
    }
    word
}

/// The twos complement of `word`: the word that added to it gives zero
/// modulo two to the power 256.
pub fn negate_word(word: &[u8; 32]) -> (negated: [u8; 32])
    ensures
        be_value(negated@) + be_value(word@) == if be_value(word@) == 0 {
            0
        } else {
            pow256(32)
        },
{
    let mut negated: [u8; 32] = [0u8; 32];
    let mut carry: bool = true;
    let mut i: usize = 32;
    assert(word@.skip(32).len() == 0);
    assert(negated@.skip(32).len() == 0);
    while i > 0
        invariant
            i <= 32,
            be_value(negated@.skip(i as int)) + be_value(word@.skip(i as int)) == if carry {
                0
            } else {
                pow256((32 - i) as nat)
            },
            carry ==> be_value(word@.skip(i as int)) == 0,
        decreases i,
    {
        let ghost before = negated@;
        let ghost p = pow256((32 - i) as nat);
        i -= 1;
        let flipped: u8 = 255 - word[i];
        let byte: u8 = if carry {
            if flipped == 255 {
                0
            } else {
                flipped + 1
            }
        } else {
            flipped
        };
        carry = carry && flipped == 255;
        negated[i] = byte;
        proof {
            assert(negated@.skip(i as int).skip(1) =~= before.skip(i + 1));
            assert(word@.skip(i as int).skip(1) =~= word@.skip(i + 1));
            assert(pow256((32 - i) as nat) == 256 * p);
            let w = word@[i as int] as nat;
            let b = byte as nat;
            assert(b * p + w * p == (b + w) * p) by (nonlinear_arith);
            assert((b + w == 256) ==> (b + w) * p == 256 * p);
            assert((b + w == 255) ==> (b + w) * p == 256 * p - p) by (nonlinear_arith);
            assert((b + w == 0) ==> (b + w) * p == 0);
            lemma_pow256_positive((32 - i - 1) as nat);
        }
    }
    proof {
        assert(negated@.skip(0) =~= negated@);
        assert(word@.skip(0) =~= word@);
        lemma_be_value_bound(negated@);
    }
    negated
}

/// The twos-complement word of the number with the given magnitude and
/// sign, if the number lies within the range of 256 bits.
pub fn signed_word(magnitude: &[u8; 32], negative: bool) -> (r: Option<[u8; 32]>)
    ensures
        ({
            let number = if negative {
                -(be_value(magnitude@) as int)
            } else {
                be_value(magnitude@) as int
            };
            match r {
                Some(word) => signed_value(word@) == number && -signed_limit(256) <= number
                    < signed_limit(256),
                None => !(-signed_limit(256) <= number < signed_limit(256)),
            }
        }),
{
    proof {
        lemma_limits(256);
        lemma_sign_bit(magnitude@);
        lemma_be_value_bound(magnitude@);
        assert(pow256(32) == 256 * pow256(31));
    }
    if negative {
        let word = negate_word(magnitude);
        proof {
            lemma_sign_bit(word@);
            lemma_be_value_bound(word@);
        }
        if magnitude[0] >= 128 && word[0] < 128 {
            None
        } else {
            Some(word)
        }
    } else if magnitude[0] >= 128 {
        None
    } else {
        Some(*magnitude)
    }
}

/// Whether `c` is a decimal digit.
pub open spec fn is_digit(c: char) -> bool {
    '0' <= c && c <= '9'
}

/// Whether every character of `text` is a decimal digit.
pub open spec fn all_digits(text: Seq<char>) -> bool {
    forall|i: int| 0 <= i < text.len() ==> is_digit(#[trigger] text[i])
}

/// The number that a string of decimal digits denotes; the empty string
/// denotes zero.
pub open spec fn decimal_value(digits: Seq<char>) -> nat
    decreases digits.len(),
{
    if digits.len() == 0 {
        0
    } else {
        decimal_value(digits.drop_last()) * 10 + (digits.last() as u32 - '0' as u32) as nat
    }
}

/// The decimal digit for a number below ten.
pub open spec fn digit_char(n: nat) -> char {
    ('0' as u32 + n as u32) as char
}

/// The decimal text of a number, without leading zeros.
pub open spec fn decimal_text(n: nat) -> Seq<char>
    decreases n,
{
    if n < 10 {
        seq![digit_char(n)]
    } else {
        decimal_text(n / 10).push(digit_char(n % 10))
    }
}

/// The decimal text of an integer, with a minus sign in front of a negative
/// one.
pub open spec fn signed_decimal_text(n: int) -> Seq<char> {
    if n < 0 {
        seq!['-'] + decimal_text((-n) as nat)
    } else {
        decimal_text(n as nat)
    }
}

/// `ethabi::Uint::from_dec_str`, and the conversion of the number to its 32
/// big-endian bytes: succeeds exactly when every character is a decimal digit
/// and the number is below two to the power 256, and then gives its word.
#[verifier::external_body]
pub(crate) fn parse_decimal(digits: &str) -> (word: Option<[u8; 32]>)
    ensures
        match word {
            Some(w) => all_digits(digits@) && decimal_value(digits@) < pow256(32) && be_value(w@)
                == decimal_value(digits@),
            None => !(all_digits(digits@) && decimal_value(digits@) < pow256(32)),
        },
{
    ethabi::Uint::from_dec_str(digits).ok().map(Into::into)
}

/// `to_string` of an `ethabi::Uint` made from 32 big-endian bytes: the
/// decimal text of the number, without leading zeros.
#[verifier::external_body]
pub(crate) fn print_decimal(word: &[u8; 32]) -> (text: String)
    ensures
        text@ == decimal_text(be_value(word@)),
{
    ethabi::Uint::from(word).to_string()
}

} // verus!
