//! Byte-level primitives: fixed-width integers in both byte orders, copying
//! sub-ranges, ASCII whitespace trimming, decimal numerals and text decoding.
use byteorder::{BigEndian, ByteOrder, LittleEndian};
use vstd::prelude::*;
use vstd::utf8::{decode_utf8, valid_utf8};

verus! {

/// Value of two bytes read least significant first.
pub open spec fn le_u16_of(s: Seq<u8>) -> int {
    s[0] as int + 256 * s[1] as int
}

/// Value of four bytes read least significant first.
pub open spec fn le_u32_of(s: Seq<u8>) -> int {
    s[0] as int + 256 * s[1] as int + 65536 * s[2] as int + 16777216 * s[3] as int
}

/// Value of two bytes read most significant first.
pub open spec fn be_u16_of(s: Seq<u8>) -> int {
    256 * s[0] as int + s[1] as int
}

/// Value of four bytes read most significant first.
pub open spec fn be_u32_of(s: Seq<u8>) -> int {
    16777216 * s[0] as int + 65536 * s[1] as int + 256 * s[2] as int + s[3] as int
}

/// Two's-complement value of four bytes read most significant first.
pub open spec fn be_i32_of(s: Seq<u8>) -> int {
    if be_u32_of(s) >= 0x8000_0000 {
        be_u32_of(s) - 0x1_0000_0000
    } else {
        be_u32_of(s)
    }
}

/// Relies on byteorder's `LittleEndian::read_u16`: the first two bytes,
/// least significant first.
#[verifier::external_body]
fn read_le_u16(buf: &[u8]) -> (r: u16)
    requires
        buf@.len() >= 2,
    ensures
        r as int == le_u16_of(buf@),
{
    <LittleEndian as ByteOrder>::read_u16(buf)
}

/// Relies on byteorder's `LittleEndian::read_u32`: the first four bytes,
/// least significant first.
#[verifier::external_body]
fn read_le_u32(buf: &[u8]) -> (r: u32)
    requires
        buf@.len() >= 4,
    ensures
        r as int == le_u32_of(buf@),
{
    <LittleEndian as ByteOrder>::read_u32(buf)
}

/// Relies on byteorder's `BigEndian::read_u16`: the first two bytes, most
/// significant first.
#[verifier::external_body]
fn read_be_u16(buf: &[u8]) -> (r: u16)
    requires
        buf@.len() >= 2,
    ensures
        r as int == be_u16_of(buf@),
{
    <BigEndian as ByteOrder>::read_u16(buf)
}

/// Relies on byteorder's `BigEndian::read_u32`: the first four bytes, most
/// significant first.
#[verifier::external_body]
fn read_be_u32(buf: &[u8]) -> (r: u32)
    requires
        buf@.len() >= 4,
    ensures
        r as int == be_u32_of(buf@),
{
    <BigEndian as ByteOrder>::read_u32(buf)
}

/// Relies on byteorder's `BigEndian::read_i32`: the first four bytes, most
/// significant first, as a two's-complement integer.
#[verifier::external_body]
fn read_be_i32(buf: &[u8]) -> (r: i32)
    requires
        buf@.len() >= 4,
    ensures
        r as int == be_i32_of(buf@),
{
    <BigEndian as ByteOrder>::read_i32(buf)
}

/// Copies `data[start..end]` into a new vector.
pub fn copy_range(data: &[u8], start: usize, end: usize) -> (r: Vec<u8>)
    requires
        start <= end <= data@.len(),
    ensures
        r@ == data@.subrange(start as int, end as int),
{
    let mut r: Vec<u8> = Vec::with_capacity(end - start);
    let mut i: usize = start;
    while i < end
        invariant
            start <= i <= end <= data@.len(),
            r@ == data@.subrange(start as int, i as int),
        decreases end - i,
    {
        r.push(data[i]);
        i = i + 1;
    }
    r
}

/// Little-endian `u16` at byte offset `at`.
pub fn le_u16_at(data: &[u8], at: usize) -> (r: u16)
    requires
        at + 2 <= data@.len(),
    ensures
        r as int == le_u16_of(data@.subrange(at as int, at + 2)),
{
    let n = data.len();
    assert(at + 2 <= n);
    let b = copy_range(data, at, at + 2);
    read_le_u16(b.as_slice())
}

/// Little-endian `u32` at byte offset `at`.
pub fn le_u32_at(data: &[u8], at: usize) -> (r: u32)
    requires
        at + 4 <= data@.len(),
    ensures
        r as int == le_u32_of(data@.subrange(at as int, at + 4)),
{
    let n = data.len();
    assert(at + 4 <= n);
    let b = copy_range(data, at, at + 4);
    read_le_u32(b.as_slice())
}

/// Big-endian `u16` at byte offset `at`.
pub fn be_u16_at(data: &[u8], at: usize) -> (r: u16)
    requires
        at + 2 <= data@.len(),
    ensures
        r as int == be_u16_of(data@.subrange(at as int, at + 2)),
{
    let n = data.len();
    assert(at + 2 <= n);
    let b = copy_range(data, at, at + 2);
    read_be_u16(b.as_slice())
}

/// Big-endian `u32` at byte offset `at`.
pub fn be_u32_at(data: &[u8], at: usize) -> (r: u32)
    requires
        at + 4 <= data@.len(),
    ensures
        r as int == be_u32_of(data@.subrange(at as int, at + 4)),
{
    let n = data.len();
    assert(at + 4 <= n);
    let b = copy_range(data, at, at + 4);
    read_be_u32(b.as_slice())
}

/// Big-endian `i32` at byte offset `at`.
pub fn be_i32_at(data: &[u8], at: usize) -> (r: i32)
    requires
        at + 4 <= data@.len(),
    ensures
        r as int == be_i32_of(data@.subrange(at as int, at + 4)),
{
    let n = data.len();
    assert(at + 4 <= n);
    let b = copy_range(data, at, at + 4);
    read_be_i32(b.as_slice())
}

/// ASCII whitespace as `u8::is_ascii_whitespace` defines it.
pub open spec fn is_ascii_ws(b: u8) -> bool {
    b == 0x20 || b == 0x09 || b == 0x0A || b == 0x0C || b == 0x0D
}

/// `s` without its leading ASCII whitespace.
pub open spec fn trim_start(s: Seq<u8>) -> Seq<u8>
    decreases s.len(),
{
    if s.len() > 0 && is_ascii_ws(s[0]) {
        trim_start(s.drop_first())
    } else {
        s
    }
}

/// `s` without its trailing ASCII whitespace.
pub open spec fn trim_end(s: Seq<u8>) -> Seq<u8>
    decreases s.len(),
{
    if s.len() > 0 && is_ascii_ws(s.last()) {
        trim_end(s.drop_last())
    } else {
        s
    }
}

/// `s` without ASCII whitespace at either end.
pub open spec fn trim_ascii(s: Seq<u8>) -> Seq<u8> {
    trim_end(trim_start(s))
}

/// Bounds `(a, b)` such that `data[a..b]` is `data[lo..hi]` trimmed of ASCII
/// whitespace at both ends.
pub fn trim_bounds(data: &[u8], lo: usize, hi: usize) -> (r: (usize, usize))
    requires
        lo <= hi <= data@.len(),
    ensures
        lo <= r.0 <= r.1 <= hi,
        data@.subrange(r.0 as int, r.1 as int) == trim_ascii(data@.subrange(lo as int, hi as int)),
{
    let mut a: usize = lo;
    while a < hi && (data[a] == 0x20 || data[a] == 0x09 || data[a] == 0x0A || data[a] == 0x0C
        || data[a] == 0x0D)
        invariant
            lo <= a <= hi <= data@.len(),
            trim_start(data@.subrange(lo as int, hi as int)) == trim_start(
                data@.subrange(a as int, hi as int),
            ),
        decreases hi - a,
    {
        assert(data@.subrange(a as int, hi as int).drop_first() =~= data@.subrange(
            a + 1,
            hi as int,
        ));
        a = a + 1;
    }
    assert(trim_start(data@.subrange(a as int, hi as int)) == data@.subrange(a as int, hi as int));
    let mut b: usize = hi;
    while b > a && (data[b - 1] == 0x20 || data[b - 1] == 0x09 || data[b - 1] == 0x0A || data[b
        - 1] == 0x0C || data[b - 1] == 0x0D)
        invariant
            lo <= a <= b <= hi <= data@.len(),
            trim_ascii(data@.subrange(lo as int, hi as int)) == trim_end(
                data@.subrange(a as int, b as int),
            ),
        decreases b - a,
    {
        assert(data@.subrange(a as int, b as int).drop_last() =~= data@.subrange(
            a as int,
            b - 1,
        ));
        b = b - 1;
    }
    (a, b)
}

/// The byte is an ASCII decimal digit.
pub open spec fn is_digit(b: u8) -> bool {
    0x30 <= b <= 0x39
}

/// Every byte of `s` is an ASCII decimal digit.
pub open spec fn all_digits(s: Seq<u8>) -> bool {
    forall|i: int| 0 <= i < s.len() ==> is_digit(#[trigger] s[i])
}

/// The number that the ASCII digits of `s` spell in base ten.
pub open spec fn decimal_value(s: Seq<u8>) -> int
    decreases s.len(),
{
    if s.len() == 0 {
        0
    } else {
        10 * decimal_value(s.drop_last()) + (s.last() - 0x30)
    }
}

/// Ten to the power `n`.
pub open spec fn pow10(n: nat) -> int
    decreases n,
{
    if n == 0 {
        1
    } else {
        10 * pow10((n - 1) as nat)
    }
}

/// A run of `n` digits spells a number below ten to the `n`.
pub proof fn lemma_decimal_bound(s: Seq<u8>)
    requires
        all_digits(s),
    ensures
        0 <= decimal_value(s) < pow10(s.len()),
    decreases s.len(),
{
    if s.len() > 0 {
        assert(all_digits(s.drop_last()));
        lemma_decimal_bound(s.drop_last());
    }
}

/// `s` is a non-empty run of decimal digits whose value fits in a `u32`.
pub open spec fn is_u32_numeral(s: Seq<u8>) -> bool {
    s.len() > 0 && all_digits(s) && decimal_value(s) <= u32::MAX
}

proof fn lemma_decimal_nonneg(s: Seq<u8>)
    requires
        all_digits(s),
    ensures
        decimal_value(s) >= 0,
    decreases s.len(),
{
    if s.len() > 0 {
        assert(all_digits(s.drop_last()));
        lemma_decimal_nonneg(s.drop_last());
    }
}

proof fn lemma_decimal_prefix_bound(s: Seq<u8>, k: int)
    requires
        all_digits(s),
        0 <= k <= s.len(),
    ensures
        decimal_value(s.subrange(0, k)) <= decimal_value(s),
    decreases s.len(),
{
    if k < s.len() {
        assert(all_digits(s.drop_last()));
        lemma_decimal_prefix_bound(s.drop_last(), k);
        assert(s.drop_last().subrange(0, k) =~= s.subrange(0, k));
        lemma_decimal_nonneg(s.drop_last());
    } else {
        assert(s.subrange(0, k) =~= s);
    }
}

/// Parses `data[lo..hi]` as a base-ten `u32` of plain ASCII digits.
pub fn parse_u32_decimal(data: &[u8], lo: usize, hi: usize) -> (r: Option<u32>)
    requires
        lo <= hi <= data@.len(),
    ensures
        r.is_some() <==> is_u32_numeral(data@.subrange(lo as int, hi as int)),
        r.is_some() ==> r.unwrap() as int == decimal_value(data@.subrange(lo as int, hi as int)),
{
    if lo == hi {
        return None;
    }
    let ghost s = data@.subrange(lo as int, hi as int);
    let mut acc: u64 = 0;
    let mut i: usize = lo;
    while i < hi
        invariant
            lo <= i <= hi <= data@.len(),
            s == data@.subrange(lo as int, hi as int),
            all_digits(s.subrange(0, i - lo)),
            acc as int == decimal_value(s.subrange(0, i - lo)),
            acc <= u32::MAX,
        decreases hi - i,
    {
        let c = data[i];
        if c < 0x30 || c > 0x39 {
            assert(!is_digit(s[i - lo]));
            return None;
        }
        assert(s.subrange(0, i + 1 - lo).drop_last() =~= s.subrange(0, i - lo));
        let next: u64 = 10 * acc + (c - 0x30) as u64;
        if next > 0xFFFF_FFFF {
            proof {
                assert(all_digits(s.subrange(0, i + 1 - lo)));
                if all_digits(s) {
                    lemma_decimal_prefix_bound(s, i + 1 - lo);
                    assert(s.subrange(0, i + 1 - lo) =~= s.subrange(0, i + 1 - lo));
                }
            }
            return None;
        }
        acc = next;
        i = i + 1;
    }
    assert(s.subrange(0, hi - lo) =~= s);
    Some(acc as u32)
}

/// Relies on `String::push`: appends one character.
#[verifier::external_body]
pub(crate) fn push_char(s: &mut String, c: char)
    ensures
        final(s)@ == old(s)@.push(c),
{
    s.push(c)
}

/// What `String::from_utf8_lossy` makes of a byte sequence.
pub uninterp spec fn lossy_text(b: Seq<u8>) -> Seq<char>;

/// Relies on `String::from_utf8_lossy`: the text of the bytes with each
/// invalid sequence replaced; valid UTF-8 comes back unchanged.
#[verifier::external_body]
fn utf8_lossy(b: &[u8]) -> (r: String)
    ensures
        r@ == lossy_text(b@),
        valid_utf8(b@) ==> r@ == decode_utf8(b@),
{
    String::from_utf8_lossy(b).into_owned()
}

/// Text of a byte sequence: its UTF-8 decoding where it is valid UTF-8,
/// else what lossy decoding makes of it.
pub open spec fn utf8_text(b: Seq<u8>) -> Seq<char> {
    if valid_utf8(b) {
        decode_utf8(b)
    } else {
        lossy_text(b)
    }
}

/// Text of `data[lo..hi]`, decoded as UTF-8 with invalid sequences replaced.
pub fn text_of_range(data: &[u8], lo: usize, hi: usize) -> (r: String)
    requires
        lo <= hi <= data@.len(),
    ensures
        r@ == utf8_text(data@.subrange(lo as int, hi as int)),
{
    let b = copy_range(data, lo, hi);
    utf8_lossy(b.as_slice())
}

} // verus!
