//! Byte-string primitives shared by the parsers and the response builder.

use vstd::prelude::*;

verus! {

/// The line feed, `\n`.
pub const LF: u8 = 10;

/// The carriage return, `\r`.
pub const CR: u8 = 13;

/// The space.
pub const SP: u8 = 32;

/// The ampersand, `&`.
pub const AMP: u8 = 38;

/// The hyphen, `-`.
pub const HYPHEN: u8 = 45;

/// The slash, `/`.
pub const SLASH: u8 = 47;

/// The digit `0`.
pub const ZERO: u8 = 48;

/// The colon, `:`.
pub const COLON: u8 = 58;

/// The equals sign, `=`.
pub const EQUALS: u8 = 61;

/// The question mark, `?`.
pub const QUESTION: u8 = 63;

/// Position of the first `b` in `s`, or `s.len()` when `s` holds none.
pub open spec fn find(s: Seq<u8>, b: u8) -> int
    decreases s.len(),
{
    if s.len() == 0 || s[0] == b {
        0
    } else {
        1 + find(s.drop_first(), b)
    }
}

/// `i` is where the first `b` of `s` stands (`s.len()` when there is none).
pub open spec fn first_at(s: Seq<u8>, b: u8, i: int) -> bool {
    &&& 0 <= i <= s.len()
    &&& i < s.len() ==> s[i] == b
    &&& forall|j: int| 0 <= j < i ==> s[j] != b
}

/// `find` returns the one position that `first_at` accepts.
pub proof fn lemma_find(s: Seq<u8>, b: u8)
    ensures
        first_at(s, b, find(s, b)),
    decreases s.len(),
{
    if s.len() == 0 || s[0] == b {
    } else {
        let t = s.drop_first();
        lemma_find(t, b);
        assert forall|j: int| 0 <= j < find(s, b) implies s[j] != b by {
            if j > 0 {
                assert(t[j - 1] == s[j]);
            }
        }
        if find(s, b) < s.len() {
            assert(t[find(t, b)] == s[find(s, b)]);
        }
    }
}

/// Any position that `first_at` accepts is the one `find` returns.
pub proof fn lemma_find_unique(s: Seq<u8>, b: u8, i: int)
    requires
        first_at(s, b, i),
    ensures
        i == find(s, b),
{
    lemma_find(s, b);
    let k = find(s, b);
    if i < k {
        assert(s[i] != b);
    } else if k < i {
        assert(s[k] != b);
    }
}

/// Calls `memchr::memchr`, which returns the index of the first occurrence
/// of `needle` in `haystack`, or `None` when the byte does not occur.
#[verifier::external_body]
pub(crate) fn memchr_first(needle: u8, haystack: &[u8]) -> (r: Option<usize>)
    ensures
        match r {
            Some(i) => i < haystack@.len() && first_at(haystack@, needle, i as int),
            None => first_at(haystack@, needle, haystack@.len() as int),
        },
{
    memchr::memchr(needle, haystack)
}

/// Finds the first `needle` in `haystack`.
pub fn find_byte(needle: u8, haystack: &[u8]) -> (r: Option<usize>)
    ensures
        match r {
            Some(i) => i == find(haystack@, needle) && i < haystack@.len(),
            None => find(haystack@, needle) == haystack@.len(),
        },
{
    let r = memchr_first(needle, haystack);
    proof {
        match r {
            Some(i) => lemma_find_unique(haystack@, needle, i as int),
            None => lemma_find_unique(haystack@, needle, haystack@.len() as int),
        }
    }
    r
}

/// Whether `b` is one of the digits `0` to `9`.
pub open spec fn is_digit(b: u8) -> bool {
    48 <= b <= 57
}

/// Whether `s` holds digits only.
pub open spec fn all_digits(s: Seq<u8>) -> bool {
    forall|i: int| 0 <= i < s.len() ==> is_digit(#[trigger] s[i])
}

/// The number that the digits of `s` write in base ten; `0` for no digit.
pub open spec fn decimal_value(s: Seq<u8>) -> nat
    decreases s.len(),
{
    if s.len() == 0 {
        0
    } else {
        (decimal_value(s.drop_last()) * 10 + (s.last() - 48)) as nat
    }
}

/// The digits that write `n` in base ten, without leading zeros; `0` is
/// written with one digit.
pub open spec fn decimal_digits(n: nat) -> Seq<u8>
    decreases n,
{
    if n < 10 {
        seq![(48 + n) as u8]
    } else {
        decimal_digits(n / 10).push((48 + n % 10) as u8)
    }
}

/// The last `width` digits of `n` in base ten, with zeros in front where `n`
/// has fewer digits.
pub open spec fn padded_digits(n: nat, width: nat) -> Seq<u8>
    decreases width,
{
    if width == 0 {
        Seq::empty()
    } else {
        padded_digits(n / 10, (width - 1) as nat).push((48 + n % 10) as u8)
    }
}

/// Ten to the power of `e`.
pub open spec fn pow10(e: nat) -> nat
    decreases e,
{
    if e == 0 {
        1
    } else {
        10 * pow10((e - 1) as nat)
    }
}

/// Reading the digits of a number gives the number back.
pub proof fn lemma_decimal_round_trip(n: nat)
    ensures
        all_digits(decimal_digits(n)),
        decimal_value(decimal_digits(n)) == n,
        decimal_digits(n).len() >= 1,
    decreases n,
{
    if n < 10 {
        let s = decimal_digits(n);
        assert(s.drop_last() =~= Seq::<u8>::empty());
        assert(decimal_value(s.drop_last()) == 0);
    } else {
        lemma_decimal_round_trip(n / 10);
        let s = decimal_digits(n);
        assert(s.drop_last() =~= decimal_digits(n / 10));
    }
}

/// Reading a zero-padded field gives the number back when the field is wide
/// enough for it, and in any case the number modulo ten to the width.
pub proof fn lemma_padded_round_trip(n: nat, width: nat)
    ensures
        padded_digits(n, width).len() == width,
        all_digits(padded_digits(n, width)),
        decimal_value(padded_digits(n, width)) == n % pow10(width),
    decreases width,
{
    if width == 0 {
    } else {
        let w = (width - 1) as nat;
        lemma_padded_round_trip(n / 10, w);
        let s = padded_digits(n, width);
        assert(s.drop_last() =~= padded_digits(n / 10, w));
        let p = pow10(w);
        lemma_pow10_positive(w);
        let q = (n / 10) as int;
        let hi = q / (p as int);
        let lo = q % (p as int);
        assert(q == (p as int) * hi + lo && 0 <= lo < p) by {
            vstd::arithmetic::div_mod::lemma_fundamental_div_mod(q, p as int);
            vstd::arithmetic::div_mod::lemma_mod_pos_bound(q, p as int);
        }
        assert(n == hi * (10 * p) + (lo * 10 + n % 10)) by (nonlinear_arith)
            requires
                q == (p as int) * hi + lo,
                n == 10 * q + n % 10,
        ;
        vstd::arithmetic::div_mod::lemma_fundamental_div_mod_converse(
            n as int,
            (10 * p) as int,
            hi,
            lo * 10 + n % 10,
        );
    }
}

/// Powers of ten are positive.
pub proof fn lemma_pow10_positive(e: nat)
    ensures
        pow10(e) > 0,
    decreases e,
{
    if e > 0 {
        lemma_pow10_positive((e - 1) as nat);
    }
}

/// The lower-case form of an ASCII letter; any other byte as it is.
pub open spec fn lower(b: u8) -> u8 {
    if 65 <= b <= 90 {
        (b + 32) as u8
    } else {
        b
    }
}

/// `s` with every ASCII letter in lower case.
pub open spec fn lower_seq(s: Seq<u8>) -> Seq<u8> {
    Seq::new(s.len(), |i: int| lower(s[i]))
}

/// The lower-case form of an ASCII letter; any other byte as it is.
pub fn lower_byte(b: u8) -> (r: u8)
    ensures
        r == lower(b),
{
    if 65 <= b && b <= 90 {
        b + 32
    } else {
        b
    }
}

/// Whether two byte strings hold the same bytes.
pub fn same_bytes(a: &[u8], b: &[u8]) -> (r: bool)
    ensures
        r == (a@ == b@),
{
    if a.len() != b.len() {
        return false;
    }
    let n: usize = a.len();
    let mut i: usize = 0;
    while i < n
        invariant
            n == a@.len(),
            n == b@.len(),
            i <= n,
            forall|j: int| 0 <= j < i ==> a@[j] == b@[j],
        decreases n - i,
    {
        if a[i] != b[i] {
            return false;
        }
        i += 1;
    }
    assert(a@ =~= b@);
    true
}

/// Whether `bytes` begins with `prefix`.
pub fn has_prefix(bytes: &[u8], prefix: &[u8]) -> (r: bool)
    ensures
        r == prefix@.is_prefix_of(bytes@),
{
    if prefix.len() > bytes.len() {
        return false;
    }
    let head = vstd::slice::slice_subrange(bytes, 0, prefix.len());
    same_bytes(head, prefix)
}

/// Whether `bytes` ends with `suffix`.
pub fn has_suffix(bytes: &[u8], suffix: &[u8]) -> (r: bool)
    ensures
        r == suffix@.is_suffix_of(bytes@),
{
    if suffix.len() > bytes.len() {
        return false;
    }
    let tail = vstd::slice::slice_subrange(bytes, bytes.len() - suffix.len(), bytes.len());
    same_bytes(tail, suffix)
}

/// Appends `bytes` to `buffer`.
pub fn append(buffer: &mut Vec<u8>, bytes: &[u8])
    ensures
        final(buffer)@ == old(buffer)@ + bytes@,
{
    buffer.extend_from_slice(bytes);
    assert(buffer@ =~= old(buffer)@ + bytes@);
}

} // verus!
