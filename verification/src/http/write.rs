//! Values that can be written into a response, and the writer that a
//! body closure is handed.

use crate::bytes::{append, decimal_digits, pow10, HYPHEN, ZERO};
use std::borrow::Cow;
use std::rc::Rc;
use std::sync::Arc;
use vstd::prelude::*;
use vstd::string::StringSliceAdditionalSpecFns;

verus! {

/// A value that can be written into the buffer of a response.
pub trait WriteBuffer {
    /// The bytes that the value is written as.
    spec fn bytes(&self) -> Seq<u8>;

    /// Appends the value to `buffer`.
    fn write_to(&self, buffer: &mut Vec<u8>)
        ensures
            final(buffer)@ == old(buffer)@ + self.bytes(),
    ;
}

/// What a signed number is written as: a `-` where it is negative, then the
/// digits of its magnitude.
pub open spec fn signed_digits(n: int) -> Seq<u8> {
    if n < 0 {
        seq![HYPHEN] + decimal_digits((-n) as nat)
    } else {
        decimal_digits(n as nat)
    }
}

/// The digit of `n` that stands `k` places from the right.
pub open spec fn digit_at(n: nat, k: nat) -> u8 {
    (48 + (n / pow10(k)) % 10) as u8
}

impl<T: WriteBuffer> WriteBuffer for &T {
    open spec fn bytes(&self) -> Seq<u8> {
        (**self).bytes()
    }

    fn write_to(&self, buffer: &mut Vec<u8>) {
        (**self).write_to(buffer);
    }
}

impl<T: WriteBuffer> WriteBuffer for &mut T {
    open spec fn bytes(&self) -> Seq<u8> {
        (**self).bytes()
    }

    fn write_to(&self, buffer: &mut Vec<u8>) {
        (**self).write_to(buffer);
    }
}

impl WriteBuffer for &str {
    open spec fn bytes(&self) -> Seq<u8> {
        self.spec_bytes()
    }

    fn write_to(&self, buffer: &mut Vec<u8>) {
        append(buffer, self.as_bytes());
    }
}

impl WriteBuffer for String {
    open spec fn bytes(&self) -> Seq<u8> {
        vstd::utf8::encode_utf8(self@)
    }

    fn write_to(&self, buffer: &mut Vec<u8>) {
        append(buffer, self.as_str().as_bytes());
    }
}

impl WriteBuffer for &[u8] {
    open spec fn bytes(&self) -> Seq<u8> {
        self@
    }

    fn write_to(&self, buffer: &mut Vec<u8>) {
        append(buffer, self);
    }
}

impl WriteBuffer for Vec<u8> {
    open spec fn bytes(&self) -> Seq<u8> {
        self@
    }

    fn write_to(&self, buffer: &mut Vec<u8>) {
        append(buffer, self.as_slice());
    }
}

impl WriteBuffer for Box<str> {
    open spec fn bytes(&self) -> Seq<u8> {
        vstd::utf8::encode_utf8((**self)@)
    }

    fn write_to(&self, buffer: &mut Vec<u8>) {
        let text: &str = &**self;
        append(buffer, text.as_bytes());
    }
}

impl WriteBuffer for Rc<str> {
    open spec fn bytes(&self) -> Seq<u8> {
        vstd::utf8::encode_utf8((**self)@)
    }

    fn write_to(&self, buffer: &mut Vec<u8>) {
        let text: &str = &**self;
        append(buffer, text.as_bytes());
    }
}

impl WriteBuffer for Arc<str> {
    open spec fn bytes(&self) -> Seq<u8> {
        vstd::utf8::encode_utf8((**self)@)
    }

    fn write_to(&self, buffer: &mut Vec<u8>) {
        let text: &str = &**self;
        append(buffer, text.as_bytes());
    }
}

impl WriteBuffer for Rc<String> {
    open spec fn bytes(&self) -> Seq<u8> {
        vstd::utf8::encode_utf8((**self)@)
    }

    fn write_to(&self, buffer: &mut Vec<u8>) {
        let text: &str = &**self;
        append(buffer, text.as_bytes());
    }
}

impl WriteBuffer for Arc<String> {
    open spec fn bytes(&self) -> Seq<u8> {
        vstd::utf8::encode_utf8((**self)@)
    }

    fn write_to(&self, buffer: &mut Vec<u8>) {
        let text: &str = &**self;
        append(buffer, text.as_bytes());
    }
}

impl WriteBuffer for Box<[u8]> {
    open spec fn bytes(&self) -> Seq<u8> {
        (**self)@
    }

    fn write_to(&self, buffer: &mut Vec<u8>) {
        let bytes: &[u8] = &**self;
        append(buffer, bytes);
    }
}

impl WriteBuffer for Rc<[u8]> {
    open spec fn bytes(&self) -> Seq<u8> {
        (**self)@
    }

    fn write_to(&self, buffer: &mut Vec<u8>) {
        let bytes: &[u8] = &**self;
        append(buffer, bytes);
    }
}

impl WriteBuffer for Arc<[u8]> {
    open spec fn bytes(&self) -> Seq<u8> {
        (**self)@
    }

    fn write_to(&self, buffer: &mut Vec<u8>) {
        let bytes: &[u8] = &**self;
        append(buffer, bytes);
    }
}

impl WriteBuffer for Rc<Vec<u8>> {
    open spec fn bytes(&self) -> Seq<u8> {
        (**self)@
    }

    fn write_to(&self, buffer: &mut Vec<u8>) {
        let bytes: &[u8] = &**self;
        append(buffer, bytes);
    }
}

impl WriteBuffer for Arc<Vec<u8>> {
    open spec fn bytes(&self) -> Seq<u8> {
        (**self)@
    }

    fn write_to(&self, buffer: &mut Vec<u8>) {
        let bytes: &[u8] = &**self;
        append(buffer, bytes);
    }
}

impl WriteBuffer for Cow<'_, str> {
    open spec fn bytes(&self) -> Seq<u8> {
        vstd::utf8::encode_utf8(self@)
    }

    fn write_to(&self, buffer: &mut Vec<u8>) {
        match self {
            Cow::Borrowed(text) => append(buffer, text.as_bytes()),
            Cow::Owned(text) => append(buffer, text.as_str().as_bytes()),
        }
    }
}

impl WriteBuffer for Cow<'_, [u8]> {
    open spec fn bytes(&self) -> Seq<u8> {
        self@
    }

    fn write_to(&self, buffer: &mut Vec<u8>) {
        match self {
            Cow::Borrowed(bytes) => append(buffer, bytes),
            Cow::Owned(bytes) => append(buffer, bytes.as_slice()),
        }
    }
}

impl<const N: usize> WriteBuffer for [u8; N] {
    open spec fn bytes(&self) -> Seq<u8> {
        self@
    }

    fn write_to(&self, buffer: &mut Vec<u8>) {
        append(buffer, self.as_slice());
    }
}

impl WriteBuffer for bool {
    open spec fn bytes(&self) -> Seq<u8> {
        if *self {
            "true".spec_bytes()
        } else {
            "false".spec_bytes()
        }
    }

    fn write_to(&self, buffer: &mut Vec<u8>) {
        if *self {
            append(buffer, "true".as_bytes());
        } else {
            append(buffer, "false".as_bytes());
        }
    }
}

impl WriteBuffer for char {
    open spec fn bytes(&self) -> Seq<u8> {
        vstd::utf8::encode_scalar(*self as u32)
    }

    fn write_to(&self, buffer: &mut Vec<u8>) {
        let (encoded, len) = encode_char(*self);
        append(buffer, vstd::slice::slice_subrange(encoded.as_slice(), 0, len));
    }
}

/// Calls `char::encode_utf8`, which writes the UTF-8 encoding of the
/// character to the front of the buffer it is given. Returns the buffer and
/// the length of the encoding.
#[verifier::external_body]
fn encode_char(c: char) -> (r: ([u8; 4], usize))
    ensures
        r.1 <= 4,
        r.0@.subrange(0, r.1 as int) == vstd::utf8::encode_scalar(c as u32),
{
    let mut scratch = [0u8; 4];
    let len = c.encode_utf8(&mut scratch).len();
    (scratch, len)
}

impl WriteBuffer for u8 {
    open spec fn bytes(&self) -> Seq<u8> {
        decimal_digits(*self as nat)
    }

    fn write_to(&self, buffer: &mut Vec<u8>) {
        impl_write_buffer_u128(*self as u128, buffer);
    }
}

impl WriteBuffer for u16 {
    open spec fn bytes(&self) -> Seq<u8> {
        decimal_digits(*self as nat)
    }

    fn write_to(&self, buffer: &mut Vec<u8>) {
        impl_write_buffer_u128(*self as u128, buffer);
    }
}

impl WriteBuffer for u32 {
    open spec fn bytes(&self) -> Seq<u8> {
        decimal_digits(*self as nat)
    }

    fn write_to(&self, buffer: &mut Vec<u8>) {
        impl_write_buffer_u128(*self as u128, buffer);
    }
}

impl WriteBuffer for u64 {
    open spec fn bytes(&self) -> Seq<u8> {
        decimal_digits(*self as nat)
    }

    fn write_to(&self, buffer: &mut Vec<u8>) {
        impl_write_buffer_u128(*self as u128, buffer);
    }
}

impl WriteBuffer for u128 {
    open spec fn bytes(&self) -> Seq<u8> {
        decimal_digits(*self as nat)
    }

    fn write_to(&self, buffer: &mut Vec<u8>) {
        impl_write_buffer_u128(*self as u128, buffer);
    }
}

impl WriteBuffer for usize {
    open spec fn bytes(&self) -> Seq<u8> {
        decimal_digits(*self as nat)
    }

    fn write_to(&self, buffer: &mut Vec<u8>) {
        impl_write_buffer_u128(*self as u128, buffer);
    }
}

impl WriteBuffer for i8 {
    open spec fn bytes(&self) -> Seq<u8> {
        signed_digits(*self as int)
    }

    fn write_to(&self, buffer: &mut Vec<u8>) {
        impl_write_buffer_i128(*self as i128, buffer);
    }
}

impl WriteBuffer for i16 {
    open spec fn bytes(&self) -> Seq<u8> {
        signed_digits(*self as int)
    }

    fn write_to(&self, buffer: &mut Vec<u8>) {
        impl_write_buffer_i128(*self as i128, buffer);
    }
}

impl WriteBuffer for i32 {
    open spec fn bytes(&self) -> Seq<u8> {
        signed_digits(*self as int)
    }

    fn write_to(&self, buffer: &mut Vec<u8>) {
        impl_write_buffer_i128(*self as i128, buffer);
    }
}

impl WriteBuffer for i64 {
    open spec fn bytes(&self) -> Seq<u8> {
        signed_digits(*self as int)
    }

    fn write_to(&self, buffer: &mut Vec<u8>) {
        impl_write_buffer_i128(*self as i128, buffer);
    }
}

impl WriteBuffer for i128 {
    open spec fn bytes(&self) -> Seq<u8> {
        signed_digits(*self as int)
    }

    fn write_to(&self, buffer: &mut Vec<u8>) {
        impl_write_buffer_i128(*self as i128, buffer);
    }
}

impl WriteBuffer for isize {
    open spec fn bytes(&self) -> Seq<u8> {
        signed_digits(*self as int)
    }

    fn write_to(&self, buffer: &mut Vec<u8>) {
        impl_write_buffer_i128(*self as i128, buffer);
    }
}

/// Appends the digits of `value`.
pub fn impl_write_buffer_u128(value: u128, buffer: &mut Vec<u8>)
    ensures
        final(buffer)@ == old(buffer)@ + decimal_digits(value as nat),
{
    let (arr, start) = number_to_bytes(value);
    let digits = vstd::slice::slice_subrange(arr.as_slice(), start, 39);
    append(buffer, digits);
}

/// Appends `value`: a `-` where it is negative, then the digits of its
/// magnitude.
pub fn impl_write_buffer_i128(value: i128, buffer: &mut Vec<u8>)
    ensures
        final(buffer)@ == old(buffer)@ + signed_digits(value as int),
{
    let magnitude: u128 = if value < 0 {
        buffer.push(HYPHEN);
        ((-(value + 1)) as u128) + 1
    } else {
        value as u128
    };
    let (arr, start) = number_to_bytes(magnitude);
    let digits = vstd::slice::slice_subrange(arr.as_slice(), start, 39);
    append(buffer, digits);
    assert(buffer@ =~= old(buffer)@ + signed_digits(value as int));
}

/// Dividing by a power of ten and then by ten divides by the next power.
proof fn lemma_pow10_step(n: nat, k: nat)
    ensures
        n / pow10(k) / 10 == n / pow10(k + 1),
        pow10(k) > 0,
{
    crate::bytes::lemma_pow10_positive(k);
    vstd::arithmetic::div_mod::lemma_div_denominator(n as int, pow10(k) as int, 10);
    assert(pow10(k + 1) == 10 * pow10(k));
    assert(pow10(k) * 10 == 10 * pow10(k)) by (nonlinear_arith);
}

/// A number below a power of ten has no digit at or above that place.
proof fn lemma_high_digits_zero(n: nat, k: nat, j: nat)
    requires
        n / pow10(k) == 0,
        k <= j,
    ensures
        n / pow10(j) == 0,
    decreases j - k,
{
    if k < j {
        lemma_high_digits_zero(n, k, (j - 1) as nat);
        lemma_pow10_step(n, (j - 1) as nat);
    }
}

/// Any `u128` has at most 39 digits.
proof fn lemma_u128_digits(n: nat)
    requires
        n <= u128::MAX,
    ensures
        n / pow10(39) == 0,
{
    reveal_with_fuel(pow10, 40);
    assert(pow10(39) == 1_000_000_000_000_000_000_000_000_000_000_000_000_000);
    vstd::arithmetic::div_mod::lemma_basic_div(n as int, pow10(39) as int);
}

/// The last `width` digits of `n`, place by place.
pub proof fn lemma_padded_digit(n: nat, width: nat, k: nat)
    requires
        k < width,
    ensures
        crate::bytes::padded_digits(n, width).len() == width,
        crate::bytes::padded_digits(n, width)[width - 1 - k] == digit_at(n, k),
    decreases width,
{
    crate::bytes::lemma_padded_round_trip(n, width);
    crate::bytes::lemma_padded_round_trip(n / 10, (width - 1) as nat);
    if k == 0 {
        assert(pow10(0) == 1);
    } else {
        lemma_padded_digit(n / 10, (width - 1) as nat, (k - 1) as nat);
        lemma_pow10_step(n / 10, (k - 1) as nat);
        crate::bytes::lemma_pow10_positive((k - 1) as nat);
        vstd::arithmetic::div_mod::lemma_div_denominator(n as int, 10, pow10((k - 1) as nat) as int);
        assert(pow10(k) == 10 * pow10((k - 1) as nat));
    }
}

/// Writes `n` in base ten, flush right in a field of 39 zeros, which is
/// wide enough for any `u128`. Returns the field and the place of the first
/// digit of `n`.
pub fn number_to_bytes(n: u128) -> (r: ([u8; 39], usize))
    ensures
        r.1 <= 38,
        r.0@.subrange(r.1 as int, 39) == decimal_digits(n as nat),
        forall|k: nat| k < 39 ==> r.0@[38 - k] == digit_at(n as nat, k),
{
    let mut buffer: [u8; 39] = [ZERO; 39];
    let mut i: usize = 39;
    let mut m: u128 = n;
    if n == 0 {
        proof {
            assert(buffer@.subrange(38, 39) =~= decimal_digits(0));
            assert forall|k: nat| k < 39 implies buffer@[38 - k] == digit_at(0, k) by {
                crate::bytes::lemma_pow10_positive(k);
                vstd::arithmetic::div_mod::lemma_basic_div(0, pow10(k) as int);
            }
        }
        return (buffer, 38);
    }
    proof {
        assert(pow10(0) == 1);
        assert((n as nat) / pow10(0) == n as nat);
        assert(decimal_digits(m as nat) + buffer@.subrange(39, 39) =~= decimal_digits(n as nat));
    }
    while m > 0
        invariant
            0 < n,
            i <= 39,
            m == (n as nat) / pow10((39 - i) as nat),
            forall|j: int| 0 <= j < i ==> buffer@[j] == ZERO,
            forall|k: nat| k < 39 - i ==> buffer@[38 - k] == digit_at(n as nat, k),
            m > 0 ==> decimal_digits(n as nat) == decimal_digits(m as nat) + buffer@.subrange(
                i as int,
                39,
            ),
            m == 0 ==> i < 39 && decimal_digits(n as nat) == buffer@.subrange(i as int, 39),
        decreases m,
    {
        proof {
            lemma_u128_digits(n as nat);
            if i == 0 {
                assert(false);
            }
            lemma_pow10_step(n as nat, (39 - i) as nat);
        }
        let ghost before = buffer@;
        i -= 1;
        buffer[i] = ZERO + (m % 10) as u8;
        proof {
            assert(buffer@.subrange(i as int, 39) =~= seq![(48 + m % 10) as u8] + before.subrange(
                i + 1,
                39,
            ));
            if m >= 10 {
                assert(decimal_digits(m as nat) + before.subrange(i + 1, 39) =~= decimal_digits(
                    (m / 10) as nat,
                ) + buffer@.subrange(i as int, 39));
            } else {
                assert(decimal_digits(m as nat) + before.subrange(i + 1, 39) =~= buffer@.subrange(
                    i as int,
                    39,
                ));
            }
        }
        m = m / 10;
    }
    proof {
        assert forall|k: nat| k < 39 implies buffer@[38 - k] == digit_at(n as nat, k) by {
            if k >= 39 - i {
                lemma_high_digits_zero(n as nat, (39 - i) as nat, k);
            }
        }
    }
    (buffer, i)
}

/// Collects the body of a response for the closure given to
/// `Response::body_with`.
#[derive(Debug)]
pub struct BodyWriter {
    /// What was written so far.
    pub written: Vec<u8>,
}

impl BodyWriter {
    /// Appends `value` to the body.
    pub fn write<T: WriteBuffer>(&mut self, value: T)
        ensures
            final(self).written@ == old(self).written@ + value.bytes(),
    {
        value.write_to(&mut self.written);
    }
}

} // verus!
