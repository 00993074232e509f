//! The binary syntax-assistant container: a table of named entities and
//! their bodies.
//!
//! Layout (little-endian):
//! - a header of 16 bytes, then 2 bytes;
//! - two long strings (8 hex digits and a separator byte each): the size of
//!   the file-info block and the size of the whole block;
//! - 11 more bytes, then the file-info block: records of 12 bytes
//!   (header address, body address, reserved = `i32::MAX`);
//! - at a header address: 2 bytes, a long string (payload size), 40 bytes,
//!   then the entity name in UTF-16LE (`payload size - 24` bytes);
//! - at a body address: 2 bytes, a long string (payload size), 20 bytes,
//!   then the body.
use vstd::prelude::*;
use vstd::utf8::{decode_utf8, valid_utf8};

use byteorder::{ByteOrder, LittleEndian};

use crate::hbk_models::HbkError;
use crate::text::{
    concat_strs,
    chars_of, push_str_chars, str_eq, string_from_chars, trim, trim_vec, usize_to_string,
};

verus! {

// ---------------------------------------------------------------------------
// Numbers
// ---------------------------------------------------------------------------

/// The value of a hexadecimal digit.
pub open spec fn hex_digit(c: char) -> Option<int> {
    if '0' <= c && c <= '9' {
        Some(c as int - '0' as int)
    } else if 'a' <= c && c <= 'f' {
        Some(c as int - 'a' as int + 10)
    } else if 'A' <= c && c <= 'F' {
        Some(c as int - 'A' as int + 10)
    } else {
        None
    }
}

pub open spec fn all_hex(s: Seq<char>) -> bool {
    forall|i: int| 0 <= i < s.len() ==> #[trigger] hex_digit(s[i]) is Some
}

pub open spec fn hex_value(s: Seq<char>) -> int
    decreases s.len(),
{
    if s.len() == 0 {
        0
    } else {
        hex_value(s.drop_last()) * 16 + hex_digit(s.last())->0
    }
}

/// What `i64::from_str_radix(s, 16)` accepts: an optional sign, then one or
/// more hexadecimal digits, with a value in the range of `i64`.
pub open spec fn parse_hex_spec(s: Seq<char>) -> Option<i64> {
    let signed = s.len() > 0 && (s[0] == '-' || s[0] == '+');
    let neg = s.len() > 0 && s[0] == '-';
    let digits = if signed {
        s.drop_first()
    } else {
        s
    };
    if digits.len() == 0 || !all_hex(digits) {
        None
    } else {
        let v = if neg {
            -hex_value(digits)
        } else {
            hex_value(digits)
        };
        if i64::MIN <= v && v <= i64::MAX {
            Some(v as i64)
        } else {
            None
        }
    }
}

/// Why a hexadecimal number was refused.
pub enum HexError {
    Empty,
    InvalidDigit,
    PosOverflow,
    NegOverflow,
}

/// The text std gives for each failure of `from_str_radix`.
pub open spec fn hex_error_text(e: HexError) -> Seq<char> {
    match e {
        HexError::Empty => "cannot parse integer from empty string"@,
        HexError::InvalidDigit => "invalid digit found in string"@,
        HexError::PosOverflow => "number too large to fit in target type"@,
        HexError::NegOverflow => "number too small to fit in target type"@,
    }
}

impl HexError {
    /// The text std gives for the same failure.
    pub fn message(&self) -> (r: &'static str)
        ensures
            r@ == hex_error_text(*self),
    {
        match self {
            HexError::Empty => "cannot parse integer from empty string",
            HexError::InvalidDigit => "invalid digit found in string",
            HexError::PosOverflow => "number too large to fit in target type",
            HexError::NegOverflow => "number too small to fit in target type",
        }
    }
}

fn hex_digit_exec(c: char) -> (r: Option<u8>)
    ensures
        match hex_digit(c) {
            Some(d) => r == Some(d as u8),
            None => r is None,
        },
{
    if '0' <= c && c <= '9' {
        Some(((c as u32) - ('0' as u32)) as u8)
    } else if 'a' <= c && c <= 'f' {
        Some(((c as u32) - ('a' as u32) + 10) as u8)
    } else if 'A' <= c && c <= 'F' {
        Some(((c as u32) - ('A' as u32) + 10) as u8)
    } else {
        None
    }
}

proof fn lemma_hex_value_nonneg(s: Seq<char>)
    requires
        all_hex(s),
    ensures
        hex_value(s) >= 0,
    decreases s.len(),
{
    if s.len() > 0 {
        assert(all_hex(s.drop_last())) by {
            assert forall|i: int| 0 <= i < s.drop_last().len() implies #[trigger] hex_digit(
                s.drop_last()[i],
            ) is Some by {
                assert(s.drop_last()[i] == s[i]);
            }
        }
        lemma_hex_value_nonneg(s.drop_last());
        assert(hex_digit(s[s.len() - 1]) is Some);
    }
}

proof fn lemma_hex_value_grows(s: Seq<char>, k: int)
    requires
        all_hex(s),
        0 <= k <= s.len(),
    ensures
        hex_value(s.take(k)) <= hex_value(s),
    decreases s.len() - k,
{
    if k < s.len() {
        let t = s.take(k + 1);
        assert(t.drop_last() =~= s.take(k));
        assert(all_hex(s.take(k))) by {
            assert forall|i: int| 0 <= i < s.take(k).len() implies #[trigger] hex_digit(
                s.take(k)[i],
            ) is Some by {
                assert(s.take(k)[i] == s[i]);
            }
        }
        lemma_hex_value_nonneg(s.take(k));
        assert(hex_digit(s[k]) is Some);
        assert(t.last() == s[k]);
        lemma_hex_value_grows(s, k + 1);
    } else {
        assert(s.take(k) =~= s);
    }
}

/// `i64::from_str_radix(s, 16)`.
pub fn parse_hex(s: &[char]) -> (r: Result<i64, HexError>)
    ensures
        match parse_hex_spec(s@) {
            Some(v) => r matches Ok(x) && x == v,
            None => r is Err,
        },
{
    let n = s.len();
    if n == 0 {
        return Err(HexError::Empty);
    }
    let signed = s[0] == '-' || s[0] == '+';
    let neg = s[0] == '-';
    let start: usize = if signed {
        1
    } else {
        0
    };
    let ghost digits = if signed {
        s@.drop_first()
    } else {
        s@
    };
    assert(digits =~= s@.subrange(start as int, n as int));
    if start == n {
        return Err(HexError::InvalidDigit);
    }
    let limit: u128 = 0x8000_0000_0000_0000;
    let mut acc: u128 = 0;
    let mut i: usize = start;
    while i < n
        invariant
            start <= i <= n,
            n == s@.len(),
            digits == s@.subrange(start as int, n as int),
            signed == (s@.len() > 0 && (s@[0] == '-' || s@[0] == '+')),
            neg == (s@.len() > 0 && s@[0] == '-'),
            digits == (if signed {
                s@.drop_first()
            } else {
                s@
            }),
            all_hex(digits.take(i - start)),
            acc == hex_value(digits.take(i - start)),
            acc <= limit,
            limit == 0x8000_0000_0000_0000u128,
        decreases n - i,
    {
        let c = s[i];
        let d = match hex_digit_exec(c) {
            Some(d) => d,
            None => {
                assert(digits[i - start] == c);
                assert(!all_hex(digits));
                return Err(HexError::InvalidDigit);
            },
        };
        proof {
            let p = digits.take(i - start + 1);
            assert(p.drop_last() =~= digits.take(i - start));
            assert(p.last() == c);
            assert(all_hex(p)) by {
                assert forall|k: int| 0 <= k < p.len() implies #[trigger] hex_digit(p[k]) is Some by {
                    if k < p.len() - 1 {
                        assert(p[k] == digits.take(i - start)[k]);
                    }
                }
            }
        }
        acc = acc * 16 + (d as u128);
        i = i + 1;
        if acc > limit {
            proof {
                if all_hex(digits) {
                    lemma_hex_value_grows(digits, i - start);
                }
            }
            if neg {
                return Err(HexError::NegOverflow);
            } else {
                return Err(HexError::PosOverflow);
            }
        }
    }
    proof {
        assert(digits.take(n - start) =~= digits);
    }
    if neg {
        let v: i128 = -(acc as i128);
        Ok(v as i64)
    } else if acc <= 0x7fff_ffff_ffff_ffff {
        Ok(acc as i64)
    } else {
        Err(HexError::PosOverflow)
    }
}

// ---------------------------------------------------------------------------
// Reading the buffer
// ---------------------------------------------------------------------------

/// The `i32` stored little-endian at `at`.
pub open spec fn le_i32(b: Seq<u8>, at: int) -> i32 {
    ((b[at] as int + b[at + 1] as int * 0x100 + b[at + 2] as int * 0x1_0000 + b[at + 3] as int
        * 0x100_0000) as u32) as i32
}

/// Calls `byteorder::LittleEndian::read_i32`. Trusted: it reads the first four
/// bytes of `buf` as a little-endian `i32`.
#[verifier::external_body]
fn read_i32_le(buf: &[u8]) -> (r: i32)
    requires
        buf@.len() >= 4,
    ensures
        r == le_i32(buf@, 0),
{
    LittleEndian::read_i32(buf)
}

/// Calls `std::str::from_utf8`. Trusted: it succeeds exactly on valid UTF-8
/// and then gives the decoded characters; the error text is std's.
#[verifier::external_body]
fn str_from_utf8(b: &[u8]) -> (r: Result<&str, String>)
    ensures
        match r {
            Ok(s) => valid_utf8(b@) && s@ == decode_utf8(b@),
            Err(_) => !valid_utf8(b@),
        },
{
    match std::str::from_utf8(b) {
        Ok(s) => Ok(s),
        Err(e) => Err(format!("{e}")),
    }
}

fn bad_format(parts: &[&str]) -> (r: HbkError)
    ensures
        r matches HbkError::BadFormat(m) && m@ == concat_strs(parts@),
{
    let mut buf: Vec<char> = Vec::new();
    let mut i: usize = 0;
    while i < parts.len()
        invariant
            i <= parts@.len(),
            buf@ == concat_strs(parts@.take(i as int)),
        decreases parts.len() - i,
    {
        push_str_chars(&mut buf, parts[i]);
        proof {
            assert(parts@.take(i + 1).drop_last() =~= parts@.take(i as int));
        }
        i = i + 1;
    }
    assert(parts@.take(parts@.len() as int) =~= parts@);
    HbkError::BadFormat(string_from_chars(&buf))
}

/// `pos += n`.
fn skip(pos: &mut usize, n: usize)
    requires
        *old(pos) + n <= usize::MAX,
    ensures
        *final(pos) == *old(pos) + n,
{
    *pos = *pos + n;
}

/// The `len` bytes at `pos`, or `BadFormat` when they run past the end.
fn read_slice(buffer: &[u8], pos: usize, len: usize) -> (r: Result<&[u8], HbkError>)
    ensures
        pos + len <= buffer@.len() ==> (r matches Ok(s) && s@ == buffer@.subrange(
            pos as int,
            pos + len,
        )),
        pos + len > buffer@.len() ==> (r matches Err(e) && e is BadFormat),
{
    let n = buffer.len();
    let end = match pos.checked_add(len) {
        Some(e) => e,
        None => {
            return Err(bad_format(&["slice overflow"]));
        },
    };
    if end > buffer.len() {
        let l = usize_to_string(len);
        let p = usize_to_string(pos);
        return Err(bad_format(&["read ", l.as_str(), " bytes at ", p.as_str(), ": out of bounds"]));
    }
    Ok(&buffer[pos..end])
}

/// The long string at `pos`: 8 bytes of UTF-8 holding a hexadecimal number
/// (blanks around it allowed), truncated to `i32`.
pub open spec fn long_string_at(b: Seq<u8>, pos: int) -> Option<i32> {
    if pos < 0 || pos + 8 > b.len() {
        None
    } else {
        let raw = b.subrange(pos, pos + 8);
        if !valid_utf8(raw) {
            None
        } else {
            match parse_hex_spec(trim(decode_utf8(raw))) {
                Some(v) => Some(v as i32),
                None => None,
            }
        }
    }
}

fn read_long_string(buffer: &[u8], pos: &mut usize) -> (r: Result<i32, HbkError>)
    requires
        buffer@.len() <= isize::MAX,
    ensures
        match long_string_at(buffer@, *old(pos) as int) {
            Some(v) => r matches Ok(x) && x == v && *final(pos) == *old(pos) + 9,
            None => r matches Err(e) && e is BadFormat,
        },
{
    let raw = read_slice(buffer, *pos, 8)?;
    *pos = *pos + 8;
    skip(pos, 1);
    let s = match str_from_utf8(raw) {
        Ok(s) => s,
        Err(msg) => {
            return Err(bad_format(&["long-string: ", msg.as_str()]));
        },
    };
    let cs = chars_of(s);
    let t = trim_vec(cs.as_slice());
    match parse_hex(t.as_slice()) {
        Ok(v) => Ok(#[verifier::truncate] (v as i32)),
        Err(e) => Err(bad_format(&["long-string не hex '", s, "': ", e.message()])),
    }
}

// ---------------------------------------------------------------------------
// Names
// ---------------------------------------------------------------------------

/// UTF-16 code units stored little-endian.
pub open spec fn le_units(raw: Seq<u8>) -> Seq<u16> {
    Seq::new(raw.len() / 2, |i: int| (raw[2 * i] as int + raw[2 * i + 1] as int * 0x100) as u16)
}

/// UTF-16 decoding: a unit outside the surrogate range is a character; a
/// high surrogate followed by a low one is the character they encode; any
/// other surrogate makes the text invalid.
pub open spec fn utf16_decode(u: Seq<u16>) -> Option<Seq<char>>
    decreases u.len(),
{
    if u.len() == 0 {
        Some(Seq::empty())
    } else if u[0] < 0xD800 || u[0] > 0xDFFF {
        match utf16_decode(u.drop_first()) {
            Some(rest) => Some(seq![u[0] as char] + rest),
            None => None,
        }
    } else if u[0] <= 0xDBFF && u.len() >= 2 && 0xDC00 <= u[1] && u[1] <= 0xDFFF {
        let c = 0x10000 + (u[0] - 0xD800) * 0x400 + (u[1] - 0xDC00);
        match utf16_decode(u.subrange(2, u.len() as int)) {
            Some(rest) => Some(seq![c as char] + rest),
            None => None,
        }
    } else {
        None
    }
}

/// Calls `String::from_utf16`. Trusted: it succeeds exactly when the units
/// are valid UTF-16 and then gives the decoded characters; the error text is
/// std's.
#[verifier::external_body]
fn string_from_utf16(units: &[u16]) -> (r: Result<String, String>)
    ensures
        match r {
            Ok(s) => utf16_decode(units@) == Some(s@),
            Err(_) => utf16_decode(units@) is None,
        },
{
    match String::from_utf16(units) {
        Ok(s) => Ok(s),
        Err(e) => Err(format!("{e}")),
    }
}

/// Decodes a UTF-16LE name; an odd number of bytes is refused.
pub fn decode_utf16le(raw: &[u8]) -> (r: Result<String, HbkError>)
    ensures
        raw@.len() % 2 == 0 && utf16_decode(le_units(raw@)) is Some ==> (r matches Ok(s)
            && utf16_decode(le_units(raw@)) == Some(s@)),
        !(raw@.len() % 2 == 0 && utf16_decode(le_units(raw@)) is Some) ==> (r matches Err(e)
            && e is BadFormat),
{
    let n = raw.len();
    if n % 2 != 0 {
        let l = usize_to_string(n);
        return Err(bad_format(&["UTF-16LE буфер нечётной длины: ", l.as_str()]));
    }
    let mut units: Vec<u16> = Vec::new();
    let mut i: usize = 0;
    while i < n / 2
        invariant
            n == raw@.len(),
            n % 2 == 0,
            i <= n / 2,
            units@ == le_units(raw@).take(i as int),
        decreases n / 2 - i,
    {
        let lo = raw[2 * i];
        let hi = raw[2 * i + 1];
        let u: u16 = (lo as u16) + (hi as u16) * 256;
        units.push(u);
        i = i + 1;
        assert(units@ =~= le_units(raw@).take(i as int));
    }
    assert(units@ =~= le_units(raw@));
    match string_from_utf16(units.as_slice()) {
        Ok(s) => Ok(s),
        Err(msg) => Err(bad_format(&["UTF-16LE: ", msg.as_str()])),
    }
}

/// The entity name whose header is at `addr`.
pub open spec fn name_at(b: Seq<u8>, addr: int) -> Option<Seq<char>> {
    let pos = addr + 2;
    match long_string_at(b, pos) {
        None => None,
        Some(ps) => {
            let size = (ps as usize) as int;
            let at = pos + 9 + 40;
            if size < 24 || at + (size - 24) > b.len() {
                None
            } else {
                let raw = b.subrange(at, at + (size - 24));
                if raw.len() % 2 != 0 {
                    None
                } else {
                    utf16_decode(le_units(raw))
                }
            }
        },
    }
}

fn read_file_name(buffer: &[u8], header_address: usize) -> (r: Result<String, HbkError>)
    requires
        buffer@.len() <= isize::MAX,
        header_address + 2 <= usize::MAX,
    ensures
        match name_at(buffer@, header_address as int) {
            Some(n) => r matches Ok(s) && s@ == n,
            None => r matches Err(e) && e is BadFormat,
        },
{
    let mut pos = header_address;
    skip(&mut pos, 2);
    let payload_size = read_long_string(buffer, &mut pos)?;
    let size = #[verifier::truncate] (payload_size as usize);
    skip(&mut pos, 40);
    let str_len = match size.checked_sub(24) {
        Some(l) => l,
        None => {
            return Err(bad_format(&["name payloadSize < 24"]));
        },
    };
    let raw = read_slice(buffer, pos, str_len)?;
    decode_utf16le(raw)
}

// ---------------------------------------------------------------------------
// The entity table
// ---------------------------------------------------------------------------

/// Where the file-info records start and how many there are.
pub open spec fn table_at(b: Seq<u8>) -> Option<(int, int)> {
    match long_string_at(b, 18) {
        None => None,
        Some(ps) => match long_string_at(b, 27) {
            None => None,
            Some(bs) => {
                let size = (ps as usize) as int;
                if 47 + size > b.len() || 47 + (bs as usize) > usize::MAX {
                    None
                } else {
                    Some((47int, size / 12))
                }
            },
        },
    }
}

/// The header address of record `i` of a table starting at `start`.
pub open spec fn header_of(b: Seq<u8>, start: int, i: int) -> i32 {
    le_i32(b, start + 12 * i)
}

/// The entities of the first `i` records: name and body address, in order.
pub open spec fn records(b: Seq<u8>, start: int, i: int) -> Option<Seq<(Seq<char>, u32)>>
    decreases i,
{
    if i <= 0 {
        Some(Seq::empty())
    } else {
        match records(b, start, i - 1) {
            None => None,
            Some(rs) => {
                let base = start + 12 * (i - 1);
                if le_i32(b, base + 8) != i32::MAX {
                    None
                } else {
                    match name_at(b, (header_of(b, start, i - 1) as usize) as int) {
                        None => None,
                        Some(n) => Some(rs.push((n, le_i32(b, base + 4) as u32))),
                    }
                }
            },
        }
    }
}

/// The entities of a container: `None` when its table is malformed.
pub open spec fn entities_of(b: Seq<u8>) -> Option<Seq<(Seq<char>, u32)>> {
    match table_at(b) {
        None => None,
        Some((start, count)) => records(b, start, count),
    }
}

/// A header address, taken as `usize`, can be stepped past its first two
/// bytes.
pub open spec fn header_fits(h: i32) -> bool {
    (h as usize) + 2 <= usize::MAX
}

/// Every header address of the table can be stepped past its first two bytes
/// (an address of -1 or -2 overflows there).
pub open spec fn headers_in_range(b: Seq<u8>) -> bool {
    match table_at(b) {
        None => true,
        Some((start, count)) => forall|i: int|
            0 <= i < count ==> header_fits(#[trigger] header_of(b, start, i)),
    }
}

/// Whether every header address of the table can be stepped past its first
/// two bytes (what `parse_entities` needs of its input).
pub fn headers_fit(buffer: &[u8]) -> (r: bool)
    requires
        buffer@.len() <= isize::MAX,
    ensures
        r == headers_in_range(buffer@),
{
    let ghost b = buffer@;
    let mut pos: usize = 18;
    let payload_size = match read_long_string(buffer, &mut pos) {
        Ok(v) => v,
        Err(_) => {
            return true;
        },
    };
    let block_size = match read_long_string(buffer, &mut pos) {
        Ok(v) => v,
        Err(_) => {
            return true;
        },
    };
    let size = #[verifier::truncate] (payload_size as usize);
    let file_infos = match read_slice(buffer, 47, size) {
        Ok(s) => s,
        Err(_) => {
            return true;
        },
    };
    if 47usize.checked_add(#[verifier::truncate] (block_size as usize)).is_none() {
        return true;
    }
    let count = file_infos.len() / 12;
    let mut i: usize = 0;
    while i < count
        invariant
            b == buffer@,
            47 + size <= b.len(),
            table_at(b) == Some((47int, count as int)),
            file_infos@ == b.subrange(47, 47 + size),
            count == file_infos@.len() / 12,
            i <= count,
            forall|k: int| 0 <= k < i ==> header_fits(#[trigger] header_of(b, 47, k)),
        decreases count - i,
    {
        let (header, _, _) = record_at(file_infos, i);
        proof {
            lemma_le_i32_sub(b, 47, 47 + size, 12 * i);
        }
        let h = #[verifier::truncate] (header as usize);
        if h.checked_add(2).is_none() {
            assert(header_of(b, 47, i as int) == header);
            assert(!header_fits(header_of(b, 47, i as int)));
            assert(table_at(b) == Some((47int, count as int)));
            assert(!headers_in_range(b)) by {
                let (st, c) = table_at(b)->0;
                assert(st == 47 && c == count);
                assert(0 <= i < c);
            }
            return false;
        }
        i = i + 1;
    }
    true
}

proof fn lemma_records_fail(b: Seq<u8>, start: int, i: int, n: int)
    requires
        0 <= i <= n,
        records(b, start, i) is None,
    ensures
        records(b, start, n) is None,
    decreases n - i,
{
    if i < n {
        lemma_records_fail(b, start, i + 1, n);
    }
}

proof fn lemma_le_i32_sub(b: Seq<u8>, lo: int, hi: int, at: int)
    requires
        0 <= lo <= hi <= b.len(),
        0 <= at,
        at + 4 <= hi - lo,
    ensures
        le_i32(b.subrange(lo, hi), at) == le_i32(b, lo + at),
{
    let s = b.subrange(lo, hi);
    assert(s[at] == b[lo + at]);
    assert(s[at + 1] == b[lo + at + 1]);
    assert(s[at + 2] == b[lo + at + 2]);
    assert(s[at + 3] == b[lo + at + 3]);
}

/// The three numbers of file-info record `i`.
fn record_at(file_infos: &[u8], i: usize) -> (r: (i32, i32, i32))
    requires
        12 * i + 12 <= file_infos@.len(),
    ensures
        r.0 == le_i32(file_infos@, 12 * i),
        r.1 == le_i32(file_infos@, 12 * i + 4),
        r.2 == le_i32(file_infos@, 12 * i + 8),
{
    let n = file_infos.len();
    let base = i * 12;
    let r0 = &file_infos[base..base + 4];
    let r1 = &file_infos[base + 4..base + 8];
    let r2 = &file_infos[base + 8..base + 12];
    proof {
        lemma_le_i32_sub(file_infos@, base as int, base + 4, 0);
        lemma_le_i32_sub(file_infos@, base + 4, base + 8, 0);
        lemma_le_i32_sub(file_infos@, base + 8, base + 12, 0);
    }
    (read_i32_le(r0), read_i32_le(r1), read_i32_le(r2))
}

/// Reads the entity table of a container.
pub fn parse_entities(buffer: &[u8]) -> (r: Result<Vec<(String, u32)>, HbkError>)
    requires
        buffer@.len() <= isize::MAX,
        headers_in_range(buffer@),
    ensures
        match entities_of(buffer@) {
            Some(es) => r matches Ok(v) && v.deep_view() == es,
            None => r matches Err(e) && e is BadFormat,
        },
{
    let ghost b = buffer@;
    let mut pos: usize = 0;
    skip(&mut pos, 16);
    skip(&mut pos, 2);
    let payload_size = read_long_string(buffer, &mut pos)?;
    let block_size = read_long_string(buffer, &mut pos)?;
    skip(&mut pos, 11);
    let size = #[verifier::truncate] (payload_size as usize);
    let block_start = pos;
    let file_infos = read_slice(buffer, pos, size)?;
    if block_start.checked_add(#[verifier::truncate] (block_size as usize)).is_none() {
        return Err(bad_format(&["block_size overflow"]));
    }
    let count = file_infos.len() / 12;
    let ghost start = 47int;
    let mut entities: Vec<(String, u32)> = Vec::new();
    let mut i: usize = 0;
    while i < count
        invariant
            b == buffer@,
            b.len() <= isize::MAX,
            table_at(b) == Some((start, count as int)),
            headers_in_range(b),
            47 + size <= b.len(),
            file_infos@ == b.subrange(47, 47 + size),
            count == file_infos@.len() / 12,
            i <= count,
            records(b, start, i as int) == Some(entities.deep_view()),
        decreases count - i,
    {
        let (header, body, reserved) = record_at(file_infos, i);
        proof {
            lemma_le_i32_sub(b, 47, 47 + size, 12 * i);
            lemma_le_i32_sub(b, 47, 47 + size, 12 * i + 4);
            lemma_le_i32_sub(b, 47, 47 + size, 12 * i + 8);
            assert(header_of(b, start, i as int) == header);
        }
        if reserved != 0x7fff_ffffi32 {
            proof {
                assert(records(b, start, i + 1) is None);
                lemma_records_fail(b, start, i + 1, count as int);
            }
            let idx = usize_to_string(i);
            return Err(bad_format(&["запись #", idx.as_str(), ": reserved != 0x7fffffff"]));
        }
        let name = match read_file_name(buffer, #[verifier::truncate] (header as usize)) {
            Ok(n) => n,
            Err(e) => {
                proof {
                    assert(records(b, start, i + 1) is None);
                    lemma_records_fail(b, start, i + 1, count as int);
                }
                return Err(e);
            },
        };
        let ghost prev = entities.deep_view();
        entities.push((name, #[verifier::truncate] (body as u32)));
        proof {
            assert(entities.deep_view() =~= prev.push((name@, #[verifier::truncate] (body as u32))));
        }
        i = i + 1;
    }
    Ok(entities)
}

// ---------------------------------------------------------------------------
// Bodies
// ---------------------------------------------------------------------------

/// The body whose header is at `addr`.
pub open spec fn body_at(b: Seq<u8>, addr: int) -> Option<Seq<u8>> {
    let pos = addr + 2;
    match long_string_at(b, pos) {
        None => None,
        Some(ps) => {
            let size = (ps as usize) as int;
            let at = pos + 9 + 20;
            if at + size > b.len() {
                None
            } else {
                Some(b.subrange(at, at + size))
            }
        },
    }
}

/// A copy of the bytes.
fn copy_bytes(s: &[u8]) -> (r: Vec<u8>)
    ensures
        r@ == s@,
{
    let mut v: Vec<u8> = Vec::new();
    let n = s.len();
    let mut i: usize = 0;
    while i < n
        invariant
            n == s@.len(),
            i <= n,
            v@ == s@.take(i as int),
        decreases n - i,
    {
        v.push(s[i]);
        i = i + 1;
        assert(v@ =~= s@.take(i as int));
    }
    assert(s@.take(n as int) =~= s@);
    v
}

/// Reads the body at `body_address`.
pub fn read_body(buffer: &[u8], body_address: usize) -> (r: Result<Vec<u8>, HbkError>)
    requires
        buffer@.len() <= isize::MAX,
        body_address + 2 <= usize::MAX,
    ensures
        match body_at(buffer@, body_address as int) {
            Some(body) => r matches Ok(v) && v@ == body,
            None => r matches Err(e) && e is BadFormat,
        },
{
    let mut pos = body_address;
    skip(&mut pos, 2);
    let payload_size = read_long_string(buffer, &mut pos)?;
    skip(&mut pos, 20);
    let body = read_slice(buffer, pos, #[verifier::truncate] (payload_size as usize))?;
    Ok(copy_bytes(body))
}

/// The body address of the last entity named `name` (a later entity of the
/// same name replaces an earlier one).
pub open spec fn entity_address(es: Seq<(Seq<char>, u32)>, name: Seq<char>) -> Option<u32>
    decreases es.len(),
{
    if es.len() == 0 {
        None
    } else if es.last().0 == name {
        Some(es.last().1)
    } else {
        entity_address(es.drop_last(), name)
    }
}

/// A container: its bytes and its entity table.
pub struct HbkContainer {
    pub buffer: Vec<u8>,
    pub entities: Vec<(String, u32)>,
}

impl HbkContainer {
    /// Reads the entity table of the container's bytes.
    pub fn from_bytes(buffer: Vec<u8>) -> (r: Result<HbkContainer, HbkError>)
        requires
            buffer@.len() <= isize::MAX,
            headers_in_range(buffer@),
        ensures
            match entities_of(buffer@) {
                Some(es) => r matches Ok(c) && c.buffer@ == buffer@ && c.entities.deep_view() == es,
                None => r matches Err(e) && e is BadFormat,
            },
    {
        let entities = parse_entities(buffer.as_slice())?;
        Ok(HbkContainer { buffer, entities })
    }

    fn find_address(&self, name: &str) -> (r: Option<u32>)
        ensures
            r == entity_address(self.entities.deep_view(), name@),
    {
        let ghost es = self.entities.deep_view();
        let mut i = self.entities.len();
        assert(es.take(i as int) =~= es);
        while i > 0
            invariant
                i <= self.entities@.len(),
                es == self.entities.deep_view(),
                entity_address(es, name@) == entity_address(es.take(i as int), name@),
            decreases i,
        {
            let e = &self.entities[i - 1];
            proof {
                assert(es.take(i as int).drop_last() =~= es.take(i - 1));
                assert(es.take(i as int).last() == e.deep_view());
            }
            if str_eq(e.0.as_str(), name) {
                return Some(e.1);
            }
            i = i - 1;
        }
        None
    }

    /// The body of the entity named `name`.
    pub fn get_entity(&self, name: &str) -> (r: Result<Vec<u8>, HbkError>)
        requires
            self.buffer@.len() <= isize::MAX,
        ensures
            match entity_address(self.entities.deep_view(), name@) {
                None => r matches Err(e) && e matches HbkError::EntityNotFound(n) && n@ == name@,
                Some(a) => match body_at(self.buffer@, a as int) {
                    Some(body) => r matches Ok(v) && v@ == body,
                    None => r matches Err(e) && e is BadFormat,
                },
            },
    {
        match self.find_address(name) {
            None => Err(HbkError::EntityNotFound(name.to_string())),
            Some(a) => {
                let addr = a as usize;
                if addr > self.buffer.len() {
                    let at = usize_to_string(addr);
                    return Err(bad_format(&["entity address ", at.as_str(), ": out of bounds"]));
                }
                read_body(self.buffer.as_slice(), addr)
            },
        }
    }
}

} // verus!
