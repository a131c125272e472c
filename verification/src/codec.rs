//! Byte-level wire primitives: variable-length integers, big-endian
//! integers, length-prefixed UTF-8 and UTF-16 strings, and packet framing.

use vstd::prelude::*;
use vstd::string::StrSliceExecFns;
use vstd::utf8::{decode_utf8, encode_utf8, valid_utf8};
use crate::ProtocolError;

verus! {

/// The variable-length encoding of `v`: 7 data bits per byte, least
/// significant group first, most significant bit of each byte set when
/// another byte follows.
pub open spec fn varint_encoding(v: nat) -> Seq<u8>
    decreases v,
{
    if v < 128 {
        seq![v as u8]
    } else {
        seq![((v % 128) + 128) as u8] + varint_encoding(v / 128)
    }
}

/// Greatest value (exclusive) a varint of at most `max` bytes can carry.
pub open spec fn varint_limit(max: nat) -> nat
    decreases max,
{
    if max == 0 {
        1
    } else {
        128 * varint_limit((max - 1) as nat)
    }
}

/// Parse a varint from the front of `s`, reading at most `max` bytes:
/// the value and the number of bytes consumed, or the error the input ends in.
pub open spec fn varint_parse(s: Seq<u8>, max: nat) -> Result<(nat, nat), ProtocolError>
    decreases max,
{
    if max == 0 {
        Err(ProtocolError::MalformedVarint)
    } else if s.len() == 0 {
        Err(ProtocolError::TruncatedInput)
    } else if s[0] < 128 {
        Ok((s[0] as nat, 1))
    } else {
        match varint_parse(s.skip(1), (max - 1) as nat) {
            Ok((v, n)) => Ok(((s[0] - 128) as nat + 128 * v, n + 1)),
            Err(e) => Err(e),
        }
    }
}

/// What `read_varint` returns on `s`: a varint is at most 5 bytes wide here,
/// and a value outside the protocol's 32-bit range is malformed.
pub open spec fn spec_read_varint(s: Seq<u8>) -> Result<(nat, nat), ProtocolError> {
    match varint_parse(s, 5) {
        Ok((v, n)) => if v < 0x1_0000_0000 {
            Ok((v, n))
        } else {
            Err(ProtocolError::MalformedVarint)
        },
        Err(e) => Err(e),
    }
}

proof fn lemma_varint_parse_bound(s: Seq<u8>, max: nat)
    ensures
        varint_parse(s, max) matches Ok((v, n)) ==> v < varint_limit(max) && 0 < n <= max && n
            <= s.len(),
    decreases max,
{
    if max > 0 && s.len() > 0 && s[0] < 128 {
        lemma_varint_limit_pos((max - 1) as nat);
        assert(varint_limit(max) == 128 * varint_limit((max - 1) as nat));
    }
    if max > 0 && s.len() > 0 && s[0] >= 128 {
        lemma_varint_parse_bound(s.skip(1), (max - 1) as nat);
        match varint_parse(s.skip(1), (max - 1) as nat) {
            Ok((v, n)) => {
                let lim = varint_limit((max - 1) as nat);
                assert(128 * (v + 1) <= 128 * lim) by (nonlinear_arith)
                    requires
                        v + 1 <= lim,
                ;
                assert((s[0] - 128) as nat + 128 * v < 128 * lim);
            },
            Err(_) => {},
        }
    }
}

proof fn lemma_varint_limit_pos(max: nat)
    ensures
        varint_limit(max) >= 1,
    decreases max,
{
    if max > 0 {
        lemma_varint_limit_pos((max - 1) as nat);
    }
}

fn read_varint_rec(buf: &Vec<u8>, pos: usize, max: u8) -> (r: Result<(u64, usize), ProtocolError>)
    requires
        pos <= buf.len(),
        max <= 5,
    ensures
        match r {
            Ok((v, newpos)) => varint_parse(buf@.skip(pos as int), max as nat) == Ok::<
                _,
                ProtocolError,
            >((v as nat, (newpos - pos) as nat)) && pos < newpos <= buf.len(),
            Err(e) => varint_parse(buf@.skip(pos as int), max as nat) == Err::<(nat, nat), _>(e),
        },
    decreases max,
{
    proof {
        lemma_varint_parse_bound(buf@.skip(pos as int), max as nat);
    }
    if max == 0 {
        return Err(ProtocolError::MalformedVarint);
    }
    if pos == buf.len() {
        return Err(ProtocolError::TruncatedInput);
    }
    let b = buf[pos];
    if b < 128 {
        Ok((b as u64, pos + 1))
    } else {
        proof {
            assert(buf@.skip(pos as int).skip(1) =~= buf@.skip(pos + 1));
            lemma_varint_parse_bound(buf@.skip(pos + 1), (max - 1) as nat);
            lemma_varint_limit_grows((max - 1) as nat, 4);
        }
        match read_varint_rec(buf, pos + 1, max - 1) {
            Ok((v, newpos)) => Ok(((b - 128) as u64 + 128 * v, newpos)),
            Err(e) => Err(e),
        }
    }
}

proof fn lemma_varint_limit_grows(a: nat, b: nat)
    requires
        a <= b,
    ensures
        varint_limit(a) <= varint_limit(b),
        varint_limit(5) == 0x8_0000_0000,
    decreases b,
{
    if a < b && b > 0 {
        lemma_varint_limit_grows(a, (b - 1) as nat);
    }
    assert(varint_limit(0) == 1);
    assert(varint_limit(1) == 128);
    assert(varint_limit(2) == 0x4000);
    assert(varint_limit(3) == 0x20_0000);
    assert(varint_limit(4) == 0x1000_0000);
    assert(varint_limit(5) == 0x8_0000_0000);
}

/// Read a varint from `buf` starting at `pos`: the decoded value and the
/// position of the first byte after it.
pub fn read_varint(buf: &Vec<u8>, pos: usize) -> (r: Result<(u32, usize), ProtocolError>)
    requires
        pos <= buf.len(),
    ensures
        match r {
            Ok((v, newpos)) => spec_read_varint(buf@.skip(pos as int)) == Ok::<_, ProtocolError>((
                v as nat,
                (newpos - pos) as nat,
            )) && pos < newpos <= buf.len(),
            Err(e) => spec_read_varint(buf@.skip(pos as int)) == Err::<(nat, nat), _>(e),
        },
{
    match read_varint_rec(buf, pos, 5) {
        Ok((v, newpos)) => if v < 0x1_0000_0000 {
            Ok((v as u32, newpos))
        } else {
            Err(ProtocolError::MalformedVarint)
        },
        Err(e) => Err(e),
    }
}

/// Append the varint encoding of `v` to `dest`.
pub fn write_varint(dest: &mut Vec<u8>, v: u32)
    ensures
        final(dest)@ == old(dest)@ + varint_encoding(v as nat),
    decreases v,
{
    if v < 128 {
        dest.push(v as u8);
        assert(final(dest)@ =~= old(dest)@ + varint_encoding(v as nat));
    } else {
        dest.push(((v % 128) + 128) as u8);
        write_varint(dest, v / 128);
        assert(final(dest)@ =~= old(dest)@ + varint_encoding(v as nat));
    }
}

proof fn lemma_varint_parse_encoding(v: nat, rest: Seq<u8>, max: nat)
    requires
        varint_encoding(v).len() <= max,
    ensures
        varint_parse(varint_encoding(v) + rest, max) == Ok::<_, ProtocolError>((
            v,
            varint_encoding(v).len(),
        )),
    decreases v,
{
    let s = varint_encoding(v) + rest;
    if v < 128 {
        assert(s[0] == v as u8);
    } else {
        assert(s[0] == ((v % 128) + 128) as u8);
        assert(s[0] >= 128);
        assert(s.skip(1) =~= varint_encoding(v / 128) + rest);
        lemma_varint_parse_encoding(v / 128, rest, (max - 1) as nat);
        vstd::arithmetic::div_mod::lemma_fundamental_div_mod(v as int, 128);
    }
}

/// A value in the 32-bit range is encoded in at most 5 bytes.
pub proof fn lemma_varint_encoding_len(v: nat, max: nat)
    requires
        v < varint_limit(max),
        max >= 1,
    ensures
        1 <= varint_encoding(v).len() <= max,
    decreases max,
{
    if v >= 128 {
        assert(v / 128 < varint_limit((max - 1) as nat)) by (nonlinear_arith)
            requires
                v < 128 * varint_limit((max - 1) as nat),
        ;
        lemma_varint_encoding_len(v / 128, (max - 1) as nat);
    }
}

/// Round trip: a varint written for any value in the 32-bit range reads back
/// as that value, whatever bytes follow it, consuming exactly its own bytes.
pub proof fn lemma_varint_round_trip(v: nat, rest: Seq<u8>)
    requires
        v < 0x1_0000_0000,
    ensures
        spec_read_varint(varint_encoding(v) + rest) == Ok::<_, ProtocolError>((
            v,
            varint_encoding(v).len(),
        )),
        varint_encoding(v).len() <= 5,
{
    lemma_varint_limit_grows(5, 5);
    lemma_varint_encoding_len(v, 5);
    lemma_varint_parse_encoding(v, rest, 5);
}

/// A parse that succeeds is unchanged by bytes appended after it.
pub proof fn lemma_varint_parse_extend(s: Seq<u8>, ext: Seq<u8>, max: nat)
    requires
        varint_parse(s, max) is Ok,
    ensures
        varint_parse(s + ext, max) == varint_parse(s, max),
    decreases max,
{
    if max > 0 && s.len() > 0 {
        assert((s + ext)[0] == s[0]);
        if s[0] >= 128 {
            assert((s + ext).skip(1) =~= s.skip(1) + ext);
            lemma_varint_parse_extend(s.skip(1), ext, (max - 1) as nat);
        }
    }
}

/// Append every byte of `src` to `dest`.
pub fn append_bytes(dest: &mut Vec<u8>, src: &Vec<u8>)
    ensures
        final(dest)@ == old(dest)@ + src@,
{
    let mut i: usize = 0;
    while i < src.len()
        invariant
            i <= src.len(),
            dest@ == old(dest)@ + src@.take(i as int),
        decreases src.len() - i,
    {
        dest.push(src[i]);
        assert(dest@ =~= old(dest)@ + src@.take(i + 1));
        i = i + 1;
    }
    assert(dest@ =~= old(dest)@ + src@);
}

/// A copy of `buf[from..to]` as a fresh vector.
pub fn copy_range(buf: &Vec<u8>, from: usize, to: usize) -> (r: Vec<u8>)
    requires
        from <= to <= buf.len(),
    ensures
        r@ == buf@.subrange(from as int, to as int),
{
    let mut r: Vec<u8> = Vec::new();
    let mut i: usize = from;
    while i < to
        invariant
            from <= i <= to <= buf.len(),
            r@ == buf@.subrange(from as int, i as int),
        decreases to - i,
    {
        r.push(buf[i]);
        assert(r@ =~= buf@.subrange(from as int, i + 1));
        i = i + 1;
    }
    r
}

/// The two big-endian bytes of a 16-bit value.
pub open spec fn u16_be_encoding(v: u16) -> Seq<u8> {
    seq![(v >> 8) as u8, (v & 0xFF) as u8]
}

/// The 16-bit value read big-endian from two bytes.
pub open spec fn u16_from_be(hi: u8, lo: u8) -> u16 {
    ((hi as u16) << 8) | (lo as u16)
}

/// Parse a big-endian `u16` from the front of `s`.
pub open spec fn spec_read_u16(s: Seq<u8>) -> Result<(u16, nat), ProtocolError> {
    if s.len() < 2 {
        Err(ProtocolError::TruncatedInput)
    } else {
        Ok((u16_from_be(s[0], s[1]), 2))
    }
}

/// Append `v` to `dest` as two big-endian bytes.
pub fn write_u16(dest: &mut Vec<u8>, v: u16)
    ensures
        final(dest)@ == old(dest)@ + u16_be_encoding(v),
{
    dest.push((v >> 8) as u8);
    dest.push((v & 0xFF) as u8);
    assert(final(dest)@ =~= old(dest)@ + u16_be_encoding(v));
}

/// Read a big-endian `u16` from `buf` at `pos`.
pub fn read_u16(buf: &Vec<u8>, pos: usize) -> (r: Result<(u16, usize), ProtocolError>)
    requires
        pos <= buf.len(),
    ensures
        match r {
            Ok((v, newpos)) => spec_read_u16(buf@.skip(pos as int)) == Ok::<_, ProtocolError>((
                v,
                (newpos - pos) as nat,
            )) && pos < newpos <= buf.len(),
            Err(e) => spec_read_u16(buf@.skip(pos as int)) == Err::<(u16, nat), _>(e),
        },
{
    if buf.len() - pos < 2 {
        Err(ProtocolError::TruncatedInput)
    } else {
        Ok((((buf[pos] as u16) << 8) | (buf[pos + 1] as u16), pos + 2))
    }
}

/// Writing a `u16` big-endian and reading it back yields the same value.
pub proof fn lemma_u16_be_round_trip(v: u16)
    ensures
        u16_from_be((v >> 8) as u8, (v & 0xFF) as u8) == v,
{
    assert(((((v >> 8) as u8) as u16) << 8) | (((v & 0xFF) as u8) as u16) == v) by (bit_vector);
}

/// Parse a big-endian `u32` from the front of `s`.
pub open spec fn spec_read_u32(s: Seq<u8>) -> Result<(u32, nat), ProtocolError> {
    if s.len() < 4 {
        Err(ProtocolError::TruncatedInput)
    } else {
        Ok(
            (
                ((s[0] as u32) << 24) | ((s[1] as u32) << 16) | ((s[2] as u32) << 8) | (
                s[3] as u32),
                4,
            ),
        )
    }
}

/// Read a big-endian `u32` from `buf` at `pos`.
pub fn read_u32(buf: &Vec<u8>, pos: usize) -> (r: Result<(u32, usize), ProtocolError>)
    requires
        pos <= buf.len(),
    ensures
        match r {
            Ok((v, newpos)) => spec_read_u32(buf@.skip(pos as int)) == Ok::<_, ProtocolError>((
                v,
                (newpos - pos) as nat,
            )) && pos < newpos <= buf.len(),
            Err(e) => spec_read_u32(buf@.skip(pos as int)) == Err::<(u32, nat), _>(e),
        },
{
    if buf.len() - pos < 4 {
        Err(ProtocolError::TruncatedInput)
    } else {
        let v = ((buf[pos] as u32) << 24) | ((buf[pos + 1] as u32) << 16) | ((buf[pos + 2] as u32)
            << 8) | (buf[pos + 3] as u32);
        Ok((v, pos + 4))
    }
}

/// A byte-length prefix as a varint, then the bytes themselves.
pub open spec fn string_encoding(bytes: Seq<u8>) -> Seq<u8> {
    varint_encoding(bytes.len()) + bytes
}

/// Parse a varint-length-prefixed UTF-8 string from the front of `s`:
/// the characters and the bytes consumed.
pub open spec fn spec_read_string(s: Seq<u8>) -> Result<(Seq<char>, nat), ProtocolError> {
    match spec_read_varint(s) {
        Err(e) => Err(e),
        Ok((l, n)) => if s.len() < n + l {
            Err(ProtocolError::TruncatedInput)
        } else {
            let b = s.subrange(n as int, (n + l) as int);
            if valid_utf8(b) {
                Ok((decode_utf8(b), n + l))
            } else {
                Err(ProtocolError::InvalidEncoding)
            }
        },
    }
}

/// Relies on `String::from_utf8`: it succeeds exactly on bytes that are
/// valid UTF-8 in the sense of `vstd::utf8::valid_utf8`, and then returns
/// the string whose characters those bytes encode.
#[verifier::external_body]
fn bytes_to_string(bytes: Vec<u8>) -> (r: Result<String, ProtocolError>)
    ensures
        r is Ok <==> valid_utf8(bytes@),
        r matches Ok(s) ==> s@ == decode_utf8(bytes@),
        r matches Err(e) ==> e == ProtocolError::InvalidEncoding,
{
    match String::from_utf8(bytes) {
        Ok(s) => Ok(s),
        Err(_) => Err(ProtocolError::InvalidEncoding),
    }
}

/// Read a varint-length-prefixed UTF-8 string from `buf` at `pos`.
pub fn read_string(buf: &Vec<u8>, pos: usize) -> (r: Result<(String, usize), ProtocolError>)
    requires
        pos <= buf.len(),
    ensures
        match r {
            Ok((s, newpos)) => spec_read_string(buf@.skip(pos as int)) == Ok::<_, ProtocolError>((
                s@,
                (newpos - pos) as nat,
            )) && pos < newpos <= buf.len(),
            Err(e) => spec_read_string(buf@.skip(pos as int)) == Err::<(Seq<char>, nat), _>(e),
        },
{
    let (l, p1) = match read_varint(buf, pos) {
        Ok(v) => v,
        Err(e) => {
            return Err(e);
        },
    };
    if buf.len() - p1 < l as usize {
        return Err(ProtocolError::TruncatedInput);
    }
    let p2 = p1 + l as usize;
    let bytes = copy_range(buf, p1, p2);
    proof {
        assert(buf@.skip(pos as int).subrange(
            (p1 - pos) as int,
            (p1 - pos) + l as int,
        ) =~= buf@.subrange(p1 as int, p2 as int));
    }
    match bytes_to_string(bytes) {
        Ok(s) => Ok((s, p2)),
        Err(e) => Err(e),
    }
}

/// Append the varint byte length of `s` and its UTF-8 bytes to `dest`;
/// `false` (and no change) when the byte length is out of the varint's
/// 32-bit range.
pub fn write_string(dest: &mut Vec<u8>, s: &str) -> (ok: bool)
    ensures
        ok == (encode_utf8(s@).len() < 0x1_0000_0000),
        ok ==> final(dest)@ == old(dest)@ + string_encoding(encode_utf8(s@)),
        !ok ==> final(dest)@ == old(dest)@,
{
    let bytes = s.as_bytes_vec();
    if (bytes.len() as u64) < 0x1_0000_0000u64 {
        write_varint(dest, bytes.len() as u32);
        append_bytes(dest, &bytes);
        assert(final(dest)@ =~= old(dest)@ + string_encoding(encode_utf8(s@)));
        true
    } else {
        false
    }
}

/// Round trip: the encoding of any string, whatever bytes follow it, reads
/// back as the same characters, consuming exactly its own bytes.
pub proof fn lemma_string_round_trip(s: Seq<char>, rest: Seq<u8>)
    requires
        encode_utf8(s).len() < 0x1_0000_0000,
    ensures
        spec_read_string(string_encoding(encode_utf8(s)) + rest) == Ok::<_, ProtocolError>((
            s,
            string_encoding(encode_utf8(s)).len(),
        )),
{
    let b = encode_utf8(s);
    let whole = string_encoding(b) + rest;
    lemma_varint_round_trip(b.len(), b + rest);
    assert(whole =~= varint_encoding(b.len()) + (b + rest));
    let n = varint_encoding(b.len()).len();
    assert(whole.subrange(n as int, (n + b.len()) as int) =~= b);
    vstd::utf8::encode_utf8_valid_utf8(s);
    vstd::utf8::encode_utf8_decode_utf8(s);
}

/// The UTF-16 code units of one character: the scalar itself below
/// `0x10000`, a surrogate pair above.
pub open spec fn utf16_units_of_char(c: char) -> Seq<u16> {
    let v = c as u32;
    if v < 0x10000 {
        seq![v as u16]
    } else {
        let w = (v - 0x10000) as u32;
        seq![(0xD800 + (w >> 10)) as u16, (0xDC00 + (w & 0x3FF)) as u16]
    }
}

/// The UTF-16 code units of a character sequence.
pub open spec fn utf16_encoding(s: Seq<char>) -> Seq<u16>
    decreases s.len(),
{
    if s.len() == 0 {
        seq![]
    } else {
        utf16_units_of_char(s[0]) + utf16_encoding(s.drop_first())
    }
}

/// Each code unit as two big-endian bytes, in order.
pub open spec fn u16_seq_be(units: Seq<u16>) -> Seq<u8>
    decreases units.len(),
{
    if units.len() == 0 {
        seq![]
    } else {
        u16_be_encoding(units[0]) + u16_seq_be(units.drop_first())
    }
}

/// The legacy string layout: a raw 16-bit big-endian unit count, then the
/// units themselves big-endian. Meaningful for at most `0xFFFF` units.
pub open spec fn string16_encoding(units: Seq<u16>) -> Seq<u8> {
    u16_be_encoding(units.len() as u16) + u16_seq_be(units)
}

proof fn lemma_utf16_encoding_push(s: Seq<char>, c: char)
    ensures
        utf16_encoding(s.push(c)) == utf16_encoding(s) + utf16_units_of_char(c),
    decreases s.len(),
{
    let p = s.push(c);
    if s.len() == 0 {
        assert(p[0] == c);
        assert(p.drop_first() =~= Seq::<char>::empty());
        assert(utf16_encoding(p.drop_first()) =~= Seq::<u16>::empty());
        assert(utf16_encoding(p) == utf16_units_of_char(c) + utf16_encoding(p.drop_first()));
        assert(utf16_encoding(p) =~= utf16_encoding(s) + utf16_units_of_char(c));
    } else {
        assert(p[0] == s[0]);
        assert(p.drop_first() =~= s.drop_first().push(c));
        lemma_utf16_encoding_push(s.drop_first(), c);
        assert(utf16_encoding(p) == utf16_units_of_char(s[0]) + utf16_encoding(p.drop_first()));
        assert(utf16_encoding(s) == utf16_units_of_char(s[0]) + utf16_encoding(s.drop_first()));
        assert(utf16_encoding(p) =~= utf16_encoding(s) + utf16_units_of_char(c));
    }
}

/// A character never takes more than two code units.
pub proof fn lemma_utf16_encoding_len(s: Seq<char>)
    ensures
        utf16_encoding(s).len() <= 2 * s.len(),
    decreases s.len(),
{
    if s.len() > 0 {
        lemma_utf16_encoding_len(s.drop_first());
    }
}

proof fn lemma_u16_seq_be_push(units: Seq<u16>, u: u16)
    ensures
        u16_seq_be(units.push(u)) == u16_seq_be(units) + u16_be_encoding(u),
    decreases units.len(),
{
    let p = units.push(u);
    if units.len() == 0 {
        assert(p[0] == u);
        assert(p.drop_first() =~= Seq::<u16>::empty());
        assert(u16_seq_be(p.drop_first()) =~= Seq::<u8>::empty());
        assert(u16_seq_be(p) == u16_be_encoding(u) + u16_seq_be(p.drop_first()));
        assert(u16_seq_be(p) =~= u16_seq_be(units) + u16_be_encoding(u));
    } else {
        assert(p[0] == units[0]);
        assert(p.drop_first() =~= units.drop_first().push(u));
        lemma_u16_seq_be_push(units.drop_first(), u);
        assert(u16_seq_be(p) == u16_be_encoding(units[0]) + u16_seq_be(p.drop_first()));
        assert(u16_seq_be(units) == u16_be_encoding(units[0]) + u16_seq_be(units.drop_first()));
        assert(u16_seq_be(p) =~= u16_seq_be(units) + u16_be_encoding(u));
    }
}

/// The UTF-16 code units of `s`, one `u16` per unit.
pub fn encode_utf16_units(s: &str) -> (units: Vec<u16>)
    ensures
        units@ == utf16_encoding(s@),
{
    let n = s.unicode_len();
    let mut units: Vec<u16> = Vec::new();
    let mut i: usize = 0;
    while i < n
        invariant
            i <= n,
            n == s@.len(),
            units@ == utf16_encoding(s@.take(i as int)),
        decreases n - i,
    {
        let c = s.get_char(i);
        let v = c as u32;
        proof {
            lemma_utf16_encoding_push(s@.take(i as int), c);
            assert(s@.take(i as int).push(c) =~= s@.take(i + 1));
        }
        if v < 0x10000 {
            units.push(v as u16);
            assert(units@ =~= utf16_encoding(s@.take(i as int)) + utf16_units_of_char(c));
        } else {
            proof {
                vstd::utf8::char_is_scalar(c);
            }
            let w = v - 0x10000;
            assert(w >> 10 <= 0x3FF && (w & 0x3FF) <= 0x3FF) by (bit_vector)
                requires
                    w <= 0xFFFFF,
            ;
            units.push((0xD800 + (w >> 10)) as u16);
            units.push((0xDC00 + (w & 0x3FF)) as u16);
            assert(units@ =~= utf16_encoding(s@.take(i as int)) + utf16_units_of_char(c));
        }
        i = i + 1;
    }
    proof {
        assert(s@.take(n as int) =~= s@);
    }
    units
}

/// Append the legacy 16-bit-length-prefixed UTF-16 form of `s` to `dest`;
/// `false` (and no change) when the unit count does not fit the 16-bit
/// prefix.
pub fn write_string16(dest: &mut Vec<u8>, s: &str) -> (ok: bool)
    ensures
        ok == (utf16_encoding(s@).len() <= 0xFFFF),
        ok ==> final(dest)@ == old(dest)@ + string16_encoding(utf16_encoding(s@)),
        !ok ==> final(dest)@ == old(dest)@,
{
    let units = encode_utf16_units(s);
    if units.len() <= 0xFFFF {
        write_u16(dest, units.len() as u16);
        let mut i: usize = 0;
        while i < units.len()
            invariant
                i <= units.len(),
                units@ == utf16_encoding(s@),
                dest@ == old(dest)@ + u16_be_encoding(units@.len() as u16) + u16_seq_be(
                    units@.take(i as int),
                ),
            decreases units.len() - i,
        {
            write_u16(dest, units[i]);
            proof {
                lemma_u16_seq_be_push(units@.take(i as int), units@[i as int]);
                assert(units@.take(i as int).push(units@[i as int]) =~= units@.take(i + 1));
            }
            assert(dest@ =~= old(dest)@ + u16_be_encoding(units@.len() as u16) + u16_seq_be(
                units@.take(i + 1),
            ));
            i = i + 1;
        }
        proof {
            assert(units@.take(units@.len() as int) =~= units@);
            assert(old(dest)@ + u16_be_encoding(units@.len() as u16) + u16_seq_be(units@)
                =~= old(dest)@ + string16_encoding(utf16_encoding(s@)));
        }
        true
    } else {
        false
    }
}

/// The code units read big-endian from a byte sequence, two bytes each.
pub open spec fn units_from_be(b: Seq<u8>) -> Seq<u16>
    decreases b.len(),
{
    if b.len() < 2 {
        seq![]
    } else {
        seq![u16_from_be(b[0], b[1])] + units_from_be(b.skip(2))
    }
}

/// Parse a legacy 16-bit-length-prefixed UTF-16 string from the front of
/// `s`: the raw code units and the bytes consumed.
pub open spec fn spec_read_string16(s: Seq<u8>) -> Result<(Seq<u16>, nat), ProtocolError> {
    if s.len() < 2 {
        Err(ProtocolError::TruncatedInput)
    } else {
        let cnt = u16_from_be(s[0], s[1]) as nat;
        if s.len() < 2 + 2 * cnt {
            Err(ProtocolError::TruncatedInput)
        } else {
            Ok((units_from_be(s.subrange(2, 2 + 2 * cnt as int)), 2 + 2 * cnt))
        }
    }
}

/// Read a legacy UTF-16 string from `buf` at `pos`: its raw code units.
pub fn read_string16(buf: &Vec<u8>, pos: usize) -> (r: Result<(Vec<u16>, usize), ProtocolError>)
    requires
        pos <= buf.len(),
    ensures
        match r {
            Ok((units, newpos)) => spec_read_string16(buf@.skip(pos as int)) == Ok::<
                _,
                ProtocolError,
            >((units@, (newpos - pos) as nat)) && pos < newpos <= buf.len(),
            Err(e) => spec_read_string16(buf@.skip(pos as int)) == Err::<(Seq<u16>, nat), _>(e),
        },
{
    let (cnt, p1) = match read_u16(buf, pos) {
        Ok(v) => v,
        Err(e) => {
            return Err(e);
        },
    };
    if (buf.len() - p1) / 2 < cnt as usize {
        assert(buf@.skip(pos as int).len() < 2 + 2 * (cnt as nat));
        return Err(ProtocolError::TruncatedInput);
    }
    let ghost tail = buf@.skip(pos as int);
    let mut units: Vec<u16> = Vec::new();
    let mut i: usize = 0;
    while i < cnt as usize
        invariant
            i <= cnt as usize,
            pos + 2 == p1 <= buf.len(),
            (buf.len() - p1) / 2 >= cnt as usize,
            tail == buf@.skip(pos as int),
            tail.len() >= 2 + 2 * (cnt as nat),
            units@ == units_from_be(tail.subrange(2, 2 + 2 * (i as int))),
        decreases cnt as usize - i,
    {
        let hi = buf[p1 + 2 * i];
        let lo = buf[p1 + 2 * i + 1];
        proof {
            lemma_units_from_be_snoc(tail, 2, i as int);
        }
        units.push(((hi as u16) << 8) | (lo as u16));
        assert(units@ =~= units_from_be(tail.subrange(2, 2 + 2 * (i + 1))));
        i = i + 1;
    }
    Ok((units, p1 + 2 * cnt as usize))
}

proof fn lemma_units_from_be_snoc(s: Seq<u8>, start: int, i: int)
    requires
        0 <= start,
        0 <= i,
        start + 2 * i + 2 <= s.len(),
    ensures
        units_from_be(s.subrange(start, start + 2 * i + 2)) == units_from_be(
            s.subrange(start, start + 2 * i),
        ).push(u16_from_be(s[start + 2 * i], s[start + 2 * i + 1])),
    decreases i,
{
    if i == 0 {
        let sub = s.subrange(start, start + 2);
        assert(sub.len() == 2 && sub[0] == s[start] && sub[1] == s[start + 1]);
        assert(sub.skip(2) =~= Seq::<u8>::empty());
        assert(units_from_be(sub.skip(2)) =~= Seq::<u16>::empty());
        assert(units_from_be(sub) == seq![u16_from_be(sub[0], sub[1])] + units_from_be(
            sub.skip(2),
        ));
        assert(units_from_be(sub) =~= Seq::<u16>::empty().push(u16_from_be(s[start], s[start + 1])));
        assert(s.subrange(start, start + 2 * i) =~= Seq::<u8>::empty());
        assert(units_from_be(s.subrange(start, start + 2 * i)) =~= Seq::<u16>::empty());
    } else {
        let a = s.subrange(start, start + 2 * i + 2);
        let b = s.subrange(start, start + 2 * i);
        assert(a.skip(2) =~= s.subrange(start + 2, start + 2 * i + 2));
        assert(b.skip(2) =~= s.subrange(start + 2, start + 2 * i));
        lemma_units_from_be_snoc(s, start + 2, i - 1);
        assert(units_from_be(a) =~= units_from_be(b).push(
            u16_from_be(s[start + 2 * i], s[start + 2 * i + 1]),
        ));
    }
}

proof fn lemma_u16_seq_be_len(units: Seq<u16>)
    ensures
        u16_seq_be(units).len() == 2 * units.len(),
    decreases units.len(),
{
    if units.len() > 0 {
        lemma_u16_seq_be_len(units.drop_first());
    }
}

proof fn lemma_units_from_be_of_u16_seq_be(units: Seq<u16>)
    ensures
        units_from_be(u16_seq_be(units)) == units,
    decreases units.len(),
{
    if units.len() > 0 {
        let b = u16_seq_be(units);
        lemma_u16_seq_be_len(units.drop_first());
        assert(b.skip(2) =~= u16_seq_be(units.drop_first()));
        lemma_units_from_be_of_u16_seq_be(units.drop_first());
        let u = units[0];
        lemma_u16_be_round_trip(u);
        assert(units_from_be(b) =~= units);
    }
}

/// Round trip: the legacy encoding of any unit sequence short enough for
/// its 16-bit prefix, whatever bytes follow it, reads back as the same
/// units, consuming exactly its own bytes.
pub proof fn lemma_string16_round_trip(units: Seq<u16>, rest: Seq<u8>)
    requires
        units.len() <= 0xFFFF,
    ensures
        spec_read_string16(string16_encoding(units) + rest) == Ok::<_, ProtocolError>((
            units,
            2 + 2 * units.len(),
        )),
{
    let whole = string16_encoding(units) + rest;
    lemma_u16_seq_be_len(units);
    lemma_u16_be_round_trip(units.len() as u16);
    assert(whole[0] == (((units.len() as u16) >> 8) as u8));
    assert(whole[1] == (((units.len() as u16) & 0xFF) as u8));
    assert(u16_from_be(whole[0], whole[1]) == units.len() as u16);
    assert(whole.subrange(2, 2 + 2 * units.len() as int) =~= u16_seq_be(units));
    lemma_units_from_be_of_u16_seq_be(units);
}

/// A frame: the total length of what follows as a varint, then the packet
/// id varint, then the payload bytes.
pub open spec fn frame_encoding(packet_id: nat, payload: Seq<u8>) -> Seq<u8> {
    varint_encoding(varint_encoding(packet_id).len() + payload.len()) + varint_encoding(packet_id)
        + payload
}

/// Parse a frame's declared extent from the front of `s`: the body (packet
/// id and payload) and the bytes consumed. `TruncatedInput` here means the
/// body is not yet fully available.
pub open spec fn spec_read_frame_body(s: Seq<u8>) -> Result<(Seq<u8>, nat), ProtocolError> {
    match spec_read_varint(s) {
        Err(e) => Err(e),
        Ok((l, n)) => if s.len() < n + l {
            Err(ProtocolError::TruncatedInput)
        } else {
            Ok((s.subrange(n as int, (n + l) as int), n + l))
        },
    }
}

/// Malformed length: a frame whose declared length exceeds the bytes
/// available ends in `TruncatedInput` — never in a value.
pub proof fn lemma_frame_truncated(s: Seq<u8>, l: nat, n: nat)
    requires
        spec_read_varint(s) == Ok::<_, ProtocolError>((l, n)),
        s.len() < n + l,
    ensures
        spec_read_frame_body(s) == Err::<(Seq<u8>, nat), _>(ProtocolError::TruncatedInput),
        spec_read_frame(s) == Err::<(nat, Seq<u8>, nat), _>(ProtocolError::TruncatedInput),
{
}

/// Split a complete frame body into its packet id and payload.
pub open spec fn spec_split_packet(body: Seq<u8>) -> Result<(nat, Seq<u8>), ProtocolError> {
    match spec_read_varint(body) {
        Err(e) => Err(e),
        Ok((id, m)) => Ok((id, body.skip(m as int))),
    }
}

/// Parse a whole frame from the front of `s`: packet id, payload, bytes
/// consumed.
pub open spec fn spec_read_frame(s: Seq<u8>) -> Result<(nat, Seq<u8>, nat), ProtocolError> {
    match spec_read_frame_body(s) {
        Err(e) => Err(e),
        Ok((body, n)) => match spec_split_packet(body) {
            Err(e) => Err(e),
            Ok((id, payload)) => Ok((id, payload, n)),
        },
    }
}

/// Read a frame's body from `buf` at `pos`: the declared-length slice after
/// the length varint. `TruncatedInput` means more bytes may still complete
/// the frame.
pub fn read_frame_body(buf: &Vec<u8>, pos: usize) -> (r: Result<
    (Vec<u8>, usize),
    ProtocolError,
>)
    requires
        pos <= buf.len(),
    ensures
        match r {
            Ok((body, newpos)) => spec_read_frame_body(buf@.skip(pos as int)) == Ok::<
                _,
                ProtocolError,
            >((body@, (newpos - pos) as nat)) && pos < newpos <= buf.len(),
            Err(e) => spec_read_frame_body(buf@.skip(pos as int)) == Err::<(Seq<u8>, nat), _>(e),
        },
{
    let (l, p1) = match read_varint(buf, pos) {
        Ok(v) => v,
        Err(e) => {
            return Err(e);
        },
    };
    if buf.len() - p1 < l as usize {
        return Err(ProtocolError::TruncatedInput);
    }
    let p2 = p1 + l as usize;
    let body = copy_range(buf, p1, p2);
    proof {
        assert(buf@.skip(pos as int).subrange(
            (p1 - pos) as int,
            (p1 - pos) + l as int,
        ) =~= buf@.subrange(p1 as int, p2 as int));
    }
    Ok((body, p2))
}

/// Split a complete frame body into its leading packet id varint and the
/// payload after it.
pub fn split_packet(body: &Vec<u8>) -> (r: Result<(u32, Vec<u8>), ProtocolError>)
    ensures
        match r {
            Ok((id, payload)) => spec_split_packet(body@) == Ok::<_, ProtocolError>((
                id as nat,
                payload@,
            )),
            Err(e) => spec_split_packet(body@) == Err::<(nat, Seq<u8>), _>(e),
        },
{
    proof {
        assert(body@.skip(0) =~= body@);
    }
    let (id, m) = match read_varint(body, 0) {
        Ok(v) => v,
        Err(e) => {
            return Err(e);
        },
    };
    let payload = copy_range(body, m, body.len());
    proof {
        assert(body@.subrange(m as int, body@.len() as int) =~= body@.skip(m as int));
    }
    Ok((id, payload))
}

/// Read a whole frame from `buf` at `pos`: the packet id and the payload.
pub fn read_frame(buf: &Vec<u8>, pos: usize) -> (r: Result<(u32, Vec<u8>, usize), ProtocolError>)
    requires
        pos <= buf.len(),
    ensures
        match r {
            Ok((id, payload, newpos)) => spec_read_frame(buf@.skip(pos as int)) == Ok::<
                _,
                ProtocolError,
            >((id as nat, payload@, (newpos - pos) as nat)) && pos < newpos <= buf.len(),
            Err(e) => spec_read_frame(buf@.skip(pos as int)) == Err::<(nat, Seq<u8>, nat), _>(e),
        },
{
    let (body, newpos) = match read_frame_body(buf, pos) {
        Ok(v) => v,
        Err(e) => {
            return Err(e);
        },
    };
    match split_packet(&body) {
        Ok((id, payload)) => Ok((id, payload, newpos)),
        Err(e) => Err(e),
    }
}

/// Append a frame carrying `packet_id` and `payload` to `dest`; `false`
/// (and no change) when the frame length is out of the varint's 32-bit
/// range.
pub fn write_frame(dest: &mut Vec<u8>, packet_id: u32, payload: &Vec<u8>) -> (ok: bool)
    ensures
        ok == (varint_encoding(packet_id as nat).len() + payload@.len() < 0x1_0000_0000),
        ok ==> final(dest)@ == old(dest)@ + frame_encoding(packet_id as nat, payload@),
        !ok ==> final(dest)@ == old(dest)@,
{
    let mut id_bytes: Vec<u8> = Vec::new();
    write_varint(&mut id_bytes, packet_id);
    assert(id_bytes@ =~= varint_encoding(packet_id as nat));
    proof {
        lemma_varint_limit_grows(5, 5);
        lemma_varint_encoding_len(packet_id as nat, 5);
    }
    if (payload.len() as u64) <= 0xFFFF_FFFFu64 && (id_bytes.len() as u64) + (payload.len()
        as u64) < 0x1_0000_0000u64 {
        let total = id_bytes.len() + payload.len();
        write_varint(dest, total as u32);
        append_bytes(dest, &id_bytes);
        append_bytes(dest, payload);
        assert(final(dest)@ =~= old(dest)@ + frame_encoding(packet_id as nat, payload@));
        true
    } else {
        false
    }
}

/// Round trip and frame boundary: a frame encoded for any id and payload in
/// range, whatever bytes follow it, reads back as the same id and payload
/// and consumes exactly the frame's own bytes, leaving the rest untouched.
pub proof fn lemma_frame_round_trip(packet_id: nat, payload: Seq<u8>, rest: Seq<u8>)
    requires
        packet_id < 0x1_0000_0000,
        varint_encoding(packet_id).len() + payload.len() < 0x1_0000_0000,
    ensures
        spec_read_frame(frame_encoding(packet_id, payload) + rest) == Ok::<_, ProtocolError>((
            packet_id,
            payload,
            frame_encoding(packet_id, payload).len(),
        )),
{
    let idb = varint_encoding(packet_id);
    let l = idb.len() + payload.len();
    let whole = frame_encoding(packet_id, payload) + rest;
    lemma_varint_round_trip(l, idb + payload + rest);
    assert(whole =~= varint_encoding(l) + (idb + payload + rest));
    let n = varint_encoding(l).len();
    let body = whole.subrange(n as int, (n + l) as int);
    assert(body =~= idb + payload);
    lemma_varint_round_trip(packet_id, payload);
    assert(body.skip(idb.len() as int) =~= payload);
}

} // verus!
