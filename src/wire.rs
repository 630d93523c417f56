//! Primitive field types of the Kafka wire format: fixed-width big-endian
//! integers, unsigned and zig-zag varints, compact strings and arrays,
//! tag buffers and legacy nullable strings.
//!
//! Every decoder reads from a byte slice at a position and returns the value
//! together with the position just after it. Its contract is stated against a
//! `parse_*` spec function on the bytes that remain from that position.
//! Every encoder appends to a `Vec<u8>`; its contract is stated against a
//! `*_bytes` spec function.
use vstd::prelude::*;

verus! {

/// Why a decoder could not read a value.
#[derive(Clone, Copy, Debug, PartialEq, Eq, Structural)]
pub enum CodecError {
    /// The bytes ended before the value did.
    EndOfBuffer,
    /// An unsigned varint ran past ten bytes.
    MalformedVarint,
    /// A length field disagrees with the bytes it describes.
    InvalidLength,
}

/// `256^n`.
pub open spec fn pow256(n: nat) -> nat
    decreases n,
{
    if n == 0 {
        1
    } else {
        256 * pow256((n - 1) as nat)
    }
}

/// `128^n`.
pub open spec fn pow128(n: nat) -> nat
    decreases n,
{
    if n == 0 {
        1
    } else {
        128 * pow128((n - 1) as nat)
    }
}

/// The `n` low-order bytes of `u`, most significant first.
pub open spec fn be_bytes(u: nat, n: nat) -> Seq<u8>
    decreases n,
{
    if n == 0 {
        Seq::empty()
    } else {
        be_bytes(u / 256, (n - 1) as nat).push((u % 256) as u8)
    }
}

/// The unsigned integer that `s` spells, most significant byte first.
pub open spec fn be_value(s: Seq<u8>) -> nat
    decreases s.len(),
{
    if s.len() == 0 {
        0
    } else {
        (be_value(s.drop_last()) * 256 + s.last()) as nat
    }
}

/// Two's complement: the unsigned image of `v` modulo `m`.
pub open spec fn unsigned_of(v: int, m: nat) -> nat {
    if v < 0 {
        (v + m) as nat
    } else {
        v as nat
    }
}

/// Two's complement: the signed value of `u`, an integer below `m`.
pub open spec fn signed_of(u: nat, m: nat) -> int {
    if u >= m / 2 {
        u - m
    } else {
        u as int
    }
}

/// Reads `n` bytes as a big-endian unsigned integer.
pub open spec fn parse_be(s: Seq<u8>, n: nat) -> Result<(nat, nat), CodecError> {
    if s.len() < n {
        Err(CodecError::EndOfBuffer)
    } else {
        Ok((be_value(s.take(n as int)), n))
    }
}

/// Reads an `INT8`.
pub open spec fn parse_i8(s: Seq<u8>) -> Result<(i8, nat), CodecError> {
    match parse_be(s, 1) {
        Ok((u, n)) => Ok((signed_of(u, 0x100) as i8, n)),
        Err(e) => Err(e),
    }
}

/// Reads an `INT16`.
pub open spec fn parse_i16(s: Seq<u8>) -> Result<(i16, nat), CodecError> {
    match parse_be(s, 2) {
        Ok((u, n)) => Ok((signed_of(u, 0x10000) as i16, n)),
        Err(e) => Err(e),
    }
}

/// Reads an `INT32`.
pub open spec fn parse_i32(s: Seq<u8>) -> Result<(i32, nat), CodecError> {
    match parse_be(s, 4) {
        Ok((u, n)) => Ok((signed_of(u, 0x1_0000_0000) as i32, n)),
        Err(e) => Err(e),
    }
}

/// Reads an `INT64`.
pub open spec fn parse_i64(s: Seq<u8>) -> Result<(i64, nat), CodecError> {
    match parse_be(s, 8) {
        Ok((u, n)) => Ok((signed_of(u, 0x1_0000_0000_0000_0000) as i64, n)),
        Err(e) => Err(e),
    }
}

/// Reads a `UUID`: sixteen bytes as one signed 128-bit big-endian integer.
pub open spec fn parse_uuid(s: Seq<u8>) -> Result<(i128, nat), CodecError> {
    if s.len() < 16 {
        Err(CodecError::EndOfBuffer)
    } else {
        let high = signed_of(be_value(s.take(8)), 0x1_0000_0000_0000_0000);
        let low = be_value(s.subrange(8, 16));
        Ok(((high * 0x1_0000_0000_0000_0000 + low) as i128, 16))
    }
}

pub open spec fn i8_bytes(v: i8) -> Seq<u8> {
    be_bytes(unsigned_of(v as int, 0x100), 1)
}

pub open spec fn i16_bytes(v: i16) -> Seq<u8> {
    be_bytes(unsigned_of(v as int, 0x10000), 2)
}

pub open spec fn i32_bytes(v: i32) -> Seq<u8> {
    be_bytes(unsigned_of(v as int, 0x1_0000_0000), 4)
}

pub open spec fn u32_bytes(v: u32) -> Seq<u8> {
    be_bytes(v as nat, 4)
}

pub open spec fn i64_bytes(v: i64) -> Seq<u8> {
    be_bytes(unsigned_of(v as int, 0x1_0000_0000_0000_0000), 8)
}

/// The sixteen bytes of a `UUID`: the signed high half, then the low half.
pub open spec fn uuid_bytes(v: i128) -> Seq<u8> {
    let m: int = 0x1_0000_0000_0000_0000;
    be_bytes(unsigned_of(v as int / m, m as nat), 8) + be_bytes((v as int % m) as nat, 8)
}

pub proof fn lemma_be_bytes_len(u: nat, n: nat)
    ensures
        be_bytes(u, n).len() == n,
    decreases n,
{
    if n > 0 {
        lemma_be_bytes_len(u / 256, (n - 1) as nat);
    }
}

pub proof fn lemma_be_value_bound(s: Seq<u8>)
    ensures
        be_value(s) < pow256(s.len()),
    decreases s.len(),
{
    if s.len() > 0 {
        lemma_be_value_bound(s.drop_last());
        let p = pow256((s.len() - 1) as nat);
        let v = be_value(s.drop_last());
        assert(v * 256 + s.last() < 256 * p) by (nonlinear_arith)
            requires
                v < p,
                s.last() < 256,
        ;
    }
}

/// Reading back `n` bytes written for `u` gives `u`, when `u` fits in them.
pub proof fn lemma_be_round_trip(u: nat, n: nat)
    requires
        u < pow256(n),
    ensures
        be_value(be_bytes(u, n)) == u,
    decreases n,
{
    if n > 0 {
        let p = pow256((n - 1) as nat);
        assert(u / 256 < p) by (nonlinear_arith)
            requires
                u < 256 * p,
        ;
        lemma_be_round_trip(u / 256, (n - 1) as nat);
        let b = be_bytes(u / 256, (n - 1) as nat);
        assert(b.push((u % 256) as u8).drop_last() =~= b);
    }
}

proof fn lemma_pow256_values()
    ensures
        pow256(1) == 0x100,
        pow256(2) == 0x10000,
        pow256(4) == 0x1_0000_0000,
        pow256(8) == 0x1_0000_0000_0000_0000,
{
    reveal_with_fuel(pow256, 9);
}

/// Appends the `n` low-order bytes of `u`, most significant first.
fn put_be(out: &mut Vec<u8>, u: u64, n: usize)
    ensures
        final(out)@ == old(out)@ + be_bytes(u as nat, n as nat),
    decreases n,
{
    if n > 0 {
        put_be(out, u / 256, n - 1);
        let ghost mid = out@;
        out.push((u % 256) as u8);
        assert(out@ =~= old(out)@ + be_bytes(u as nat, n as nat));
    }
}

/// Reads `n` bytes at `pos` as a big-endian unsigned integer.
fn get_be(buf: &[u8], pos: usize, n: usize) -> (r: Result<(u64, usize), CodecError>)
    requires
        pos <= buf@.len(),
        n <= 8,
    ensures
        match r {
            Ok((v, p)) => parse_be(buf@.skip(pos as int), n as nat) == Ok::<(nat, nat), CodecError>((v as nat, n as nat)) && p == pos + n,
            Err(e) => parse_be(buf@.skip(pos as int), n as nat) == Err::<(nat, nat), CodecError>(e),
        },
{
    if buf.len() - pos < n {
        return Err(CodecError::EndOfBuffer);
    }
    let ghost s = buf@.skip(pos as int).take(n as int);
    let mut v: u64 = 0;
    let mut i: usize = 0;
    while i < n
        invariant
            i <= n,
            n <= 8,
            pos + n <= buf.len(),
            s == buf@.skip(pos as int).take(n as int),
            v as nat == be_value(s.take(i as int)),
        decreases n - i,
    {
        proof {
            lemma_be_value_bound(s.take(i as int));
            lemma_pow256_le(i as nat, 7);
            lemma_pow256_values();
            assert(s.take(i as int + 1).drop_last() =~= s.take(i as int));
        }
        v = v * 256 + buf[pos + i] as u64;
        i = i + 1;
    }
    assert(s.take(n as int) =~= s);
    Ok((v, pos + n))
}

proof fn lemma_pow256_le(i: nat, j: nat)
    requires
        i <= j,
    ensures
        pow256(i) <= pow256(j),
    decreases j,
{
    if i < j {
        lemma_pow256_le(i, (j - 1) as nat);
    }
}


/// Places a parse result at `pos`: the position becomes absolute.
pub open spec fn placed<T>(p: Result<(T, nat), CodecError>, pos: usize) -> Result<(T, usize), CodecError> {
    match p {
        Ok((v, n)) => Ok((v, (pos + n) as usize)),
        Err(e) => Err(e),
    }
}

/// Reads an `INT8` at `pos`.
pub fn get_i8(buf: &[u8], pos: usize) -> (r: Result<(i8, usize), CodecError>)
    requires
        pos <= buf@.len(),
    ensures
        r == placed(parse_i8(buf@.skip(pos as int)), pos),
        r matches Ok((_, p)) ==> pos < p <= buf.len(),
{
    let (u, p) = get_be(buf, pos, 1)?;
    proof {
        lemma_be_value_bound(buf@.skip(pos as int).take(1));
        lemma_pow256_values();
    }
    let v: i8 = if u >= 0x80 { (u as i16 - 0x100) as i8 } else { u as i8 };
    Ok((v, p))
}

/// Reads an `INT16` at `pos`.
pub fn get_i16(buf: &[u8], pos: usize) -> (r: Result<(i16, usize), CodecError>)
    requires
        pos <= buf@.len(),
    ensures
        r == placed(parse_i16(buf@.skip(pos as int)), pos),
        r matches Ok((_, p)) ==> pos < p <= buf.len(),
{
    let (u, p) = get_be(buf, pos, 2)?;
    proof {
        lemma_be_value_bound(buf@.skip(pos as int).take(2));
        lemma_pow256_values();
    }
    let v: i16 = if u >= 0x8000 { (u as i32 - 0x10000) as i16 } else { u as i16 };
    Ok((v, p))
}

/// Reads an `INT32` at `pos`.
pub fn get_i32(buf: &[u8], pos: usize) -> (r: Result<(i32, usize), CodecError>)
    requires
        pos <= buf@.len(),
    ensures
        r == placed(parse_i32(buf@.skip(pos as int)), pos),
        r matches Ok((_, p)) ==> pos < p <= buf.len(),
{
    let (u, p) = get_be(buf, pos, 4)?;
    proof {
        lemma_be_value_bound(buf@.skip(pos as int).take(4));
        lemma_pow256_values();
    }
    let v: i32 = if u >= 0x8000_0000 { (u as i64 - 0x1_0000_0000) as i32 } else { u as i32 };
    Ok((v, p))
}

/// Reads an `INT64` at `pos`.
pub fn get_i64(buf: &[u8], pos: usize) -> (r: Result<(i64, usize), CodecError>)
    requires
        pos <= buf@.len(),
    ensures
        r == placed(parse_i64(buf@.skip(pos as int)), pos),
        r matches Ok((_, p)) ==> pos < p <= buf.len(),
{
    let (u, p) = get_be(buf, pos, 8)?;
    proof {
        lemma_be_value_bound(buf@.skip(pos as int).take(8));
        lemma_pow256_values();
    }
    let v: i64 = if u >= 0x8000_0000_0000_0000 {
        (u as i128 - 0x1_0000_0000_0000_0000) as i64
    } else {
        u as i64
    };
    Ok((v, p))
}

/// Reads a `UUID` at `pos`.
pub fn get_uuid(buf: &[u8], pos: usize) -> (r: Result<(i128, usize), CodecError>)
    requires
        pos <= buf@.len(),
    ensures
        r == placed(parse_uuid(buf@.skip(pos as int)), pos),
        r matches Ok((_, p)) ==> pos < p <= buf.len(),
{
    if buf.len() - pos < 16 {
        return Err(CodecError::EndOfBuffer);
    }
    let (hi, p) = get_i64(buf, pos)?;
    let (lo, q) = get_be(buf, p, 8)?;
    proof {
        let s = buf@.skip(pos as int);
        assert(s.take(8) =~= buf@.skip(pos as int).take(8));
        assert(buf@.skip(p as int).take(8) =~= s.subrange(8, 16));
        lemma_be_value_bound(s.take(8));
        lemma_pow256_values();
    }
    let v: i128 = hi as i128 * 0x1_0000_0000_0000_0000 + lo as i128;
    Ok((v, q))
}

/// Appends an `INT8`.
pub fn put_i8(out: &mut Vec<u8>, v: i8)
    ensures
        final(out)@ == old(out)@ + i8_bytes(v),
{
    let u: u64 = if v < 0 { (v as i16 + 0x100) as u64 } else { v as u64 };
    put_be(out, u, 1);
}

/// Appends an `INT16`.
pub fn put_i16(out: &mut Vec<u8>, v: i16)
    ensures
        final(out)@ == old(out)@ + i16_bytes(v),
{
    let u: u64 = if v < 0 { (v as i32 + 0x10000) as u64 } else { v as u64 };
    put_be(out, u, 2);
}

/// Appends an `INT32`.
pub fn put_i32(out: &mut Vec<u8>, v: i32)
    ensures
        final(out)@ == old(out)@ + i32_bytes(v),
{
    let u: u64 = if v < 0 { (v as i64 + 0x1_0000_0000) as u64 } else { v as u64 };
    put_be(out, u, 4);
}

/// Appends a `UINT32`.
pub fn put_u32(out: &mut Vec<u8>, v: u32)
    ensures
        final(out)@ == old(out)@ + u32_bytes(v),
{
    put_be(out, v as u64, 4);
}

/// Appends an `INT64`.
pub fn put_i64(out: &mut Vec<u8>, v: i64)
    ensures
        final(out)@ == old(out)@ + i64_bytes(v),
{
    let u: u64 = if v < 0 {
        (v as i128 + 0x1_0000_0000_0000_0000) as u64
    } else {
        v as u64
    };
    put_be(out, u, 8);
}

/// Appends a `UUID`.
pub fn put_uuid(out: &mut Vec<u8>, v: i128)
    ensures
        final(out)@ == old(out)@ + uuid_bytes(v),
{
    let u: u128 = if v < 0 {
        ((v + 0x7fff_ffff_ffff_ffff_ffff_ffff_ffff_ffff) + 1) as u128 + 0x8000_0000_0000_0000_0000_0000_0000_0000
    } else {
        v as u128
    };
    let hi = (u / 0x1_0000_0000_0000_0000) as u64;
    let lo = (u % 0x1_0000_0000_0000_0000) as u64;
    proof {
        let m: int = 0x1_0000_0000_0000_0000;
        assert(hi as nat == unsigned_of(v as int / m, m as nat));
        assert(lo as nat == (v as int % m) as nat);
    }
    put_be(out, hi, 8);
    put_be(out, lo, 8);
    assert(final(out)@ =~= old(out)@ + uuid_bytes(v));
}


proof fn lemma_parse_be_round_trip(u: nat, n: nat, rest: Seq<u8>)
    requires
        u < pow256(n),
    ensures
        parse_be(be_bytes(u, n) + rest, n) == Ok::<(nat, nat), CodecError>((u, n)),
{
    lemma_be_bytes_len(u, n);
    lemma_be_round_trip(u, n);
    assert((be_bytes(u, n) + rest).take(n as int) =~= be_bytes(u, n));
}

/// Every fixed-width integer reads back as written, whatever follows it.
pub proof fn lemma_int_round_trips(a: i8, b: i16, c: i32, d: i64, rest: Seq<u8>)
    ensures
        parse_i8(i8_bytes(a) + rest) == Ok::<(i8, nat), CodecError>((a, 1)),
        parse_i16(i16_bytes(b) + rest) == Ok::<(i16, nat), CodecError>((b, 2)),
        parse_i32(i32_bytes(c) + rest) == Ok::<(i32, nat), CodecError>((c, 4)),
        parse_i64(i64_bytes(d) + rest) == Ok::<(i64, nat), CodecError>((d, 8)),
{
    lemma_pow256_values();
    lemma_parse_be_round_trip(unsigned_of(a as int, 0x100), 1, rest);
    lemma_parse_be_round_trip(unsigned_of(b as int, 0x10000), 2, rest);
    lemma_parse_be_round_trip(unsigned_of(c as int, 0x1_0000_0000), 4, rest);
    lemma_parse_be_round_trip(unsigned_of(d as int, 0x1_0000_0000_0000_0000), 8, rest);
}

/// The widths of the fixed-width integers.
pub proof fn lemma_int_lens(a: i8, b: i16, c: i32, d: i64, e: i128, f: u32)
    ensures
        i8_bytes(a).len() == 1,
        i16_bytes(b).len() == 2,
        i32_bytes(c).len() == 4,
        i64_bytes(d).len() == 8,
        uuid_bytes(e).len() == 16,
        u32_bytes(f).len() == 4,
{
    let m: int = 0x1_0000_0000_0000_0000;
    lemma_be_bytes_len(unsigned_of(a as int, 0x100), 1);
    lemma_be_bytes_len(unsigned_of(b as int, 0x10000), 2);
    lemma_be_bytes_len(unsigned_of(c as int, 0x1_0000_0000), 4);
    lemma_be_bytes_len(unsigned_of(d as int, m as nat), 8);
    lemma_be_bytes_len(unsigned_of(e as int / m, m as nat), 8);
    lemma_be_bytes_len((e as int % m) as nat, 8);
    lemma_be_bytes_len(f as nat, 4);
}

/// A `UUID` reads back as written, whatever follows it.
pub proof fn lemma_uuid_round_trip(v: i128, rest: Seq<u8>)
    ensures
        parse_uuid(uuid_bytes(v) + rest) == Ok::<(i128, nat), CodecError>((v, 16)),
{
    let m: int = 0x1_0000_0000_0000_0000;
    let hi = unsigned_of(v as int / m, m as nat);
    let lo = (v as int % m) as nat;
    lemma_pow256_values();
    lemma_be_bytes_len(hi, 8);
    lemma_be_bytes_len(lo, 8);
    lemma_be_round_trip(hi, 8);
    lemma_be_round_trip(lo, 8);
    let s = uuid_bytes(v) + rest;
    assert(s.take(8) =~= be_bytes(hi, 8));
    assert(s.subrange(8, 16) =~= be_bytes(lo, 8));
}


/// The bytes of an unsigned varint: seven bits per byte, least significant
/// group first, the high bit set on every byte but the last.
pub open spec fn uvarint_bytes(u: nat) -> Seq<u8>
    decreases u,
{
    if u < 128 {
        seq![u as u8]
    } else {
        seq![(u % 128 + 128) as u8] + uvarint_bytes(u / 128)
    }
}

/// Reads the rest of an unsigned varint from `s`, after `count` bytes that
/// summed to `acc`, the next group weighing `scale`.
pub open spec fn uvarint_from(s: Seq<u8>, count: nat, acc: nat, scale: nat) -> Result<(nat, nat), CodecError>
    decreases 10 - count,
{
    if count >= 10 {
        Err(CodecError::MalformedVarint)
    } else if s.len() == 0 {
        Err(CodecError::EndOfBuffer)
    } else if s[0] < 128 {
        Ok(((acc + s[0] * scale) as nat, count + 1))
    } else {
        uvarint_from(s.drop_first(), count + 1, (acc + (s[0] - 128) * scale) as nat, scale * 128)
    }
}

/// Reads an unsigned varint of at most ten bytes; bits beyond the 64th are
/// dropped.
pub open spec fn parse_uvarint(s: Seq<u8>) -> Result<(u64, nat), CodecError> {
    match uvarint_from(s, 0, 0, 1) {
        Ok((v, n)) => Ok(((v % 0x1_0000_0000_0000_0000) as u64, n)),
        Err(e) => Err(e),
    }
}

/// Zig-zag: `0, -1, 1, -2, ...` become `0, 1, 2, 3, ...`.
pub open spec fn zigzag(v: int) -> nat {
    if v >= 0 {
        (2 * v) as nat
    } else {
        (-2 * v - 1) as nat
    }
}

/// The inverse of `zigzag`.
pub open spec fn unzigzag(u: nat) -> int {
    if u % 2 == 0 {
        (u / 2) as int
    } else {
        -((u / 2) as int) - 1
    }
}

pub open spec fn svarint_bytes(v: i64) -> Seq<u8> {
    uvarint_bytes(zigzag(v as int))
}

/// Reads a zig-zag signed varint.
#[verifier::opaque]
pub open spec fn parse_svarint(s: Seq<u8>) -> Result<(i64, nat), CodecError> {
    match parse_uvarint(s) {
        Ok((u, n)) => Ok((unzigzag(u as nat) as i64, n)),
        Err(e) => Err(e),
    }
}

proof fn lemma_pow128_facts(i: nat)
    requires
        i <= 9,
    ensures
        pow128(i) <= 0x8000_0000_0000_0000,
        pow128(9) == 0x8000_0000_0000_0000,
        pow128(10) == 0x40_0000_0000_0000_0000,
    decreases 9 - i,
{
    reveal_with_fuel(pow128, 11);
    if i < 9 {
        lemma_pow128_facts(i + 1);
    }
}

/// An unsigned `UVARINT`.
#[derive(Debug, Clone, Copy, PartialEq, Eq, Structural)]
pub struct VarIntUnsigned(pub u64);

/// A zig-zag signed `SVARINT`.
#[derive(Debug, Clone, Copy, PartialEq, Eq, Structural)]
pub struct VarIntSigned(pub i64);

impl VarIntUnsigned {
    /// Reads an unsigned varint at `pos`.
    pub fn deserialize(buf: &[u8], pos: usize) -> (r: Result<(VarIntUnsigned, usize), CodecError>)
        requires
            pos <= buf@.len(),
        ensures
            match r {
                Ok((v, p)) => parse_uvarint(buf@.skip(pos as int)) == Ok::<(u64, nat), CodecError>((v.0, (p - pos) as nat)) && pos < p <= buf@.len(),
                Err(e) => parse_uvarint(buf@.skip(pos as int)) == Err::<(u64, nat), CodecError>(e),
            },
    {
        let ghost s0 = buf@.skip(pos as int);
        let mut value: u64 = 0;
        let mut scale: u64 = 1;
        let mut count: usize = 0;
        let mut p: usize = pos;
        loop
            invariant
                pos <= p <= buf@.len(),
                p == pos + count,
                count <= 9,
                s0 == buf@.skip(pos as int),
                scale as nat == pow128(count as nat),
                value < scale,
                uvarint_from(s0, 0, 0, 1) == uvarint_from(buf@.skip(p as int), count as nat, value as nat, scale as nat),
            decreases 9 - count,
        {
            proof {
                lemma_pow128_facts(count as nat);
            }
            if p >= buf.len() {
                assert(buf@.skip(p as int).len() == 0);
                return Err(CodecError::EndOfBuffer);
            }
            let b = buf[p];
            assert(buf@.skip(p as int)[0] == b);
            if b < 128 {
                let ghost full = value as nat + b as nat * scale as nat;
                let v: u64;
                if count < 9 {
                    proof {
                        lemma_pow128_facts((count + 1) as nat);
                        assert(b as nat * scale as nat <= 127 * scale as nat) by (nonlinear_arith)
                            requires
                                b < 128,
                        ;
                    }
                    v = value + b as u64 * scale;
                    assert(full % 0x1_0000_0000_0000_0000 == full);
                } else {
                    let low = (b % 2) as u64;
                    v = value + low * scale;
                    assert(full % 0x1_0000_0000_0000_0000 == v as nat) by {
                        assert(scale == 0x8000_0000_0000_0000u64);
                        assert(b as nat * scale as nat == (b / 2) as nat * 0x1_0000_0000_0000_0000 + low as nat * scale as nat) by (nonlinear_arith)
                            requires
                                scale == 0x8000_0000_0000_0000u64,
                                low as nat == b as nat % 2,
                        ;
                        vstd::arithmetic::div_mod::lemma_mod_multiples_vanish(
                            (b / 2) as int,
                            v as int,
                            0x1_0000_0000_0000_0000,
                        );
                        vstd::arithmetic::div_mod::lemma_small_mod(v as nat, 0x1_0000_0000_0000_0000);
                    }
                }
                assert(uvarint_from(buf@.skip(p as int), count as nat, value as nat, scale as nat)
                    == Ok::<(nat, nat), CodecError>((full, (count + 1) as nat)));
                return Ok((VarIntUnsigned(v), p + 1));
            }
            if count == 9 {
                assert(uvarint_from(buf@.skip(p as int).drop_first(), 10, (value + (b - 128) * scale) as nat, scale as nat * 128)
                    == Err::<(nat, nat), CodecError>(CodecError::MalformedVarint));
                assert(uvarint_from(buf@.skip(p as int), count as nat, value as nat, scale as nat)
                    == Err::<(nat, nat), CodecError>(CodecError::MalformedVarint));
                return Err(CodecError::MalformedVarint);
            }
            proof {
                lemma_pow128_facts((count + 1) as nat);
                assert((b - 128) as nat * scale as nat <= 127 * scale as nat) by (nonlinear_arith)
                    requires
                        b < 256,
                        b >= 128,
                ;
                assert(buf@.skip(p as int).drop_first() =~= buf@.skip(p as int + 1));
            }
            value = value + (b - 128) as u64 * scale;
            scale = scale * 128;
            count = count + 1;
            p = p + 1;
        }
    }

    /// Appends the varint.
    pub fn serialize(&self, out: &mut Vec<u8>)
        ensures
            final(out)@ == old(out)@ + uvarint_bytes(self.0 as nat),
    {
        put_uvarint(out, self.0 as u128);
    }
}

impl VarIntSigned {
    /// Reads a zig-zag varint at `pos`.
    pub fn deserialize(buf: &[u8], pos: usize) -> (r: Result<(VarIntSigned, usize), CodecError>)
        requires
            pos <= buf@.len(),
        ensures
            match r {
                Ok((v, p)) => parse_svarint(buf@.skip(pos as int)) == Ok::<(i64, nat), CodecError>((v.0, (p - pos) as nat)) && pos < p <= buf@.len(),
                Err(e) => parse_svarint(buf@.skip(pos as int)) == Err::<(i64, nat), CodecError>(e),
            },
    {
        reveal(parse_svarint);
        let (u, p) = VarIntUnsigned::deserialize(buf, pos)?;
        let n = u.0;
        let v: i64 = if n % 2 == 0 { (n / 2) as i64 } else { -((n / 2) as i64) - 1 };
        Ok((VarIntSigned(v), p))
    }

    /// Appends the zig-zag varint.
    pub fn serialize(&self, out: &mut Vec<u8>)
        ensures
            final(out)@ == old(out)@ + svarint_bytes(self.0),
    {
        let v = self.0;
        let u: u64 = if v >= 0 { v as u64 * 2 } else { (-(v + 1)) as u64 * 2 + 1 };
        VarIntUnsigned(u).serialize(out);
    }
}

proof fn lemma_uvarint_from_bytes(u: nat, rest: Seq<u8>, count: nat, acc: nat, scale: nat)
    requires
        count + uvarint_bytes(u).len() <= 10,
    ensures
        uvarint_from(uvarint_bytes(u) + rest, count, acc, scale) == Ok::<(nat, nat), CodecError>(
            ((acc + u * scale) as nat, count + uvarint_bytes(u).len()),
        ),
    decreases u,
{
    let s = uvarint_bytes(u) + rest;
    if u >= 128 {
        let q = u / 128;
        let r = u % 128;
        assert(s.drop_first() =~= uvarint_bytes(q) + rest);
        lemma_uvarint_from_bytes(q, rest, count + 1, (acc + r * scale) as nat, scale * 128);
        assert(acc + r * scale + q * (scale * 128) == acc + u * scale) by (nonlinear_arith)
            requires
                u == 128 * q + r,
        ;
    }
}

proof fn lemma_uvarint_len(u: nat, k: nat)
    requires
        u < pow128(k),
        k >= 1,
    ensures
        uvarint_bytes(u).len() <= k,
    decreases u,
{
    if u >= 128 {
        let p = pow128((k - 1) as nat);
        assert(u / 128 < p) by (nonlinear_arith)
            requires
                u < 128 * p,
        ;
        if k == 1 {
            assert(false);
        }
        lemma_uvarint_len(u / 128, (k - 1) as nat);
    }
}

/// An unsigned varint takes one to ten bytes.
pub proof fn lemma_uvarint_bytes_len(u: u64)
    ensures
        1 <= uvarint_bytes(u as nat).len() <= 10,
{
    lemma_pow128_facts(9);
    lemma_uvarint_len(u as nat, 10);
}

/// Decoding the encoding of any unsigned 64-bit value gives that value back,
/// and consumes exactly the encoding.
pub proof fn lemma_uvarint_round_trip(u: u64, rest: Seq<u8>)
    ensures
        parse_uvarint(uvarint_bytes(u as nat) + rest) == Ok::<(u64, nat), CodecError>((u, uvarint_bytes(u as nat).len())),
{
    lemma_uvarint_bytes_len(u);
    lemma_uvarint_from_bytes(u as nat, rest, 0, 0, 1);
}

/// Decoding the encoding of any signed 64-bit value gives that value back,
/// and consumes exactly the encoding.
pub proof fn lemma_svarint_round_trip(v: i64, rest: Seq<u8>)
    ensures
        parse_svarint(svarint_bytes(v) + rest) == Ok::<(i64, nat), CodecError>((v, svarint_bytes(v).len())),
{
    reveal(parse_svarint);
    let u = zigzag(v as int);
    assert(u < 0x1_0000_0000_0000_0000);
    lemma_uvarint_round_trip(u as u64, rest);
    assert(unzigzag(u) == v as int);
}


/// Appends `v` as an unsigned varint; wide enough for any length plus one.
pub fn put_uvarint(out: &mut Vec<u8>, v: u128)
    ensures
        final(out)@ == old(out)@ + uvarint_bytes(v as nat),
{
    let mut v: u128 = v;
    let ghost v0 = v;
    while v >= 128
        invariant
            out@ + uvarint_bytes(v as nat) == old(out)@ + uvarint_bytes(v0 as nat),
        decreases v,
    {
        let ghost before = out@;
        out.push((v % 128 + 128) as u8);
        assert(before + uvarint_bytes(v as nat) =~= out@ + uvarint_bytes((v / 128) as nat));
        v = v / 128;
    }
    let ghost before = out@;
    out.push(v as u8);
    assert(before + uvarint_bytes(v as nat) =~= out@);
}

/// Appends the bytes of `b`.
pub fn put_bytes(out: &mut Vec<u8>, b: &[u8])
    ensures
        final(out)@ == old(out)@ + b@,
{
    let mut i: usize = 0;
    while i < b.len()
        invariant
            i <= b@.len(),
            out@ == old(out)@ + b@.take(i as int),
        decreases b@.len() - i,
    {
        out.push(b[i]);
        i = i + 1;
        assert(out@ =~= old(out)@ + b@.take(i as int));
    }
    assert(b@.take(i as int) =~= b@);
}

/// Copies the `n` bytes at `pos`.
pub fn get_bytes(buf: &[u8], pos: usize, n: usize) -> (r: Result<(Vec<u8>, usize), CodecError>)
    requires
        pos <= buf@.len(),
    ensures
        match r {
            Ok((v, p)) => pos + n <= buf@.len() && p == pos + n && v@ == buf@.subrange(pos as int, pos + n),
            Err(e) => e == CodecError::EndOfBuffer && pos + n > buf@.len(),
        },
{
    if buf.len() - pos < n {
        return Err(CodecError::EndOfBuffer);
    }
    let mut v: Vec<u8> = Vec::new();
    let mut i: usize = 0;
    while i < n
        invariant
            i <= n,
            pos + n <= buf.len(),
            v@ == buf@.subrange(pos as int, pos + i),
        decreases n - i,
    {
        v.push(buf[pos + i]);
        i = i + 1;
        assert(v@ =~= buf@.subrange(pos as int, pos + i));
    }
    Ok((v, pos + n))
}

/// What `String::from_utf8_lossy` makes of some bytes.
pub uninterp spec fn utf8_lossy(b: Seq<u8>) -> Seq<char>;

/// Relies on `String::from_utf8_lossy`: the characters depend on the bytes
/// alone, and valid UTF-8 gives exactly the characters it encodes.
#[verifier::external_body]
fn lossy_string(b: &[u8]) -> (r: String)
    ensures
        r@ == utf8_lossy(b@),
        vstd::utf8::valid_utf8(b@) ==> r@ == vstd::utf8::decode_utf8(b@),
{
    String::from_utf8_lossy(b).into_owned()
}

/// The characters that a string field's bytes stand for: the UTF-8 they
/// spell, with invalid sequences replaced.
pub open spec fn text_of(b: Seq<u8>) -> Seq<char> {
    if vstd::utf8::valid_utf8(b) {
        vstd::utf8::decode_utf8(b)
    } else {
        utf8_lossy(b)
    }
}

/// The characters that a string field's bytes stand for.
pub fn lossy_text(b: &[u8]) -> (r: String)
    ensures
        r@ == text_of(b@),
{
    lossy_string(b)
}

/// The UTF-8 bytes of `s`.
pub open spec fn utf8_bytes(s: Seq<char>) -> Seq<u8> {
    vstd::utf8::encode_utf8(s)
}

/// Reads a `COMPACT_STRING`: length plus one as an unsigned varint, zero for
/// null, then the bytes, read as UTF-8 with invalid sequences replaced.
pub open spec fn parse_compact_string(s: Seq<u8>) -> Result<(Option<Seq<char>>, nat), CodecError> {
    match parse_uvarint(s) {
        Err(e) => Err(e),
        Ok((u, n)) => if u == 0 {
            Ok((None, n))
        } else if s.len() - n < u - 1 {
            Err(CodecError::EndOfBuffer)
        } else {
            Ok((Some(text_of(s.subrange(n as int, n + u - 1))), (n + u - 1) as nat))
        },
    }
}

pub open spec fn compact_string_bytes(t: Option<Seq<char>>) -> Seq<u8> {
    match t {
        None => seq![0u8],
        Some(c) => uvarint_bytes(utf8_bytes(c).len() + 1) + utf8_bytes(c),
    }
}

/// Reads the header of a `COMPACT_ARRAY`: `None` for null, else the count.
pub open spec fn parse_compact_len(s: Seq<u8>) -> Result<(Option<nat>, nat), CodecError> {
    match parse_uvarint(s) {
        Err(e) => Err(e),
        Ok((u, n)) => if u == 0 {
            Ok((None, n))
        } else {
            Ok((Some((u - 1) as nat), n))
        },
    }
}

pub open spec fn compact_len_bytes(count: Option<nat>) -> Seq<u8> {
    match count {
        None => seq![0u8],
        Some(c) => uvarint_bytes(c + 1),
    }
}

/// A nullable `COMPACT_STRING`.
#[derive(Debug, Clone)]
pub struct TextData {
    pub data: Option<String>,
}

impl View for TextData {
    type V = Option<Seq<char>>;

    open spec fn view(&self) -> Option<Seq<char>> {
        match self.data {
            Some(s) => Some(s@),
            None => None,
        }
    }
}

impl TextData {
    /// A copy of the string.
    pub fn copied(&self) -> (r: TextData)
        ensures
            r@ == self@,
    {
        match &self.data {
            Some(s) => TextData { data: Some(s.clone()) },
            None => TextData { data: None },
        }
    }

    /// Whether the two strings are equal, or both null.
    pub fn same(&self, other: &TextData) -> (r: bool)
        ensures
            r == (self@ == other@),
    {
        match (&self.data, &other.data) {
            (Some(a), Some(b)) => a.eq(b),
            (None, None) => true,
            _ => false,
        }
    }

    /// Reads a compact string at `pos`.
    pub fn deserialize(buf: &[u8], pos: usize) -> (r: Result<(TextData, usize), CodecError>)
        requires
            pos <= buf@.len(),
        ensures
            match r {
                Ok((v, p)) => parse_compact_string(buf@.skip(pos as int)) == Ok::<(Option<Seq<char>>, nat), CodecError>((v@, (p - pos) as nat)) && pos < p <= buf@.len(),
                Err(e) => parse_compact_string(buf@.skip(pos as int)) == Err::<(Option<Seq<char>>, nat), CodecError>(e),
            },
    {
        let (u, p) = VarIntUnsigned::deserialize(buf, pos)?;
        if u.0 == 0 {
            return Ok((TextData { data: None }, p));
        }
        let len = u.0 - 1;
        if ((buf.len() - p) as u64) < len {
            return Err(CodecError::EndOfBuffer);
        }
        let (bytes, q) = get_bytes(buf, p, len as usize)?;
        let text = lossy_string(bytes.as_slice());
        assert(buf@.skip(pos as int).subrange((p - pos) as int, (p - pos) + len) =~= bytes@);
        Ok((TextData { data: Some(text) }, q))
    }

    /// Appends the compact string.
    pub fn serialize(&self, out: &mut Vec<u8>)
        ensures
            final(out)@ == old(out)@ + compact_string_bytes(self@),
    {
        match &self.data {
            None => {
                out.push(0u8);
            }
            Some(s) => {
                let b = s.as_str().as_bytes();
                put_uvarint(out, b.len() as u128 + 1);
                put_bytes(out, b);
                assert(out@ =~= old(out)@ + compact_string_bytes(self@));
            }
        }
    }
}

/// Reads the header of a compact array at `pos`.
pub fn get_compact_len(buf: &[u8], pos: usize) -> (r: Result<(Option<u64>, usize), CodecError>)
    requires
        pos <= buf@.len(),
    ensures
        match r {
            Ok((c, p)) => pos < p <= buf@.len() && parse_compact_len(buf@.skip(pos as int)) == Ok::<(Option<nat>, nat), CodecError>((
                match c { Some(k) => Some(k as nat), None => None },
                (p - pos) as nat,
            )),
            Err(e) => parse_compact_len(buf@.skip(pos as int)) == Err::<(Option<nat>, nat), CodecError>(e),
        },
{
    let (u, p) = VarIntUnsigned::deserialize(buf, pos)?;
    if u.0 == 0 {
        Ok((None, p))
    } else {
        Ok((Some(u.0 - 1), p))
    }
}

/// Appends the header of a compact array of `count` items, or of null.
pub fn put_compact_len(out: &mut Vec<u8>, count: Option<usize>)
    ensures
        final(out)@ == old(out)@ + compact_len_bytes(
            match count { Some(k) => Some(k as nat), None => None },
        ),
{
    match count {
        None => {
            out.push(0u8);
        }
        Some(k) => {
            put_uvarint(out, k as u128 + 1);
        }
    }
}

/// Skips `k` tagged fields: each a tag and a length, as unsigned varints,
/// then that many bytes. Gives the number of bytes they take.
pub open spec fn parse_tagged_fields(s: Seq<u8>, k: nat) -> Result<nat, CodecError>
    decreases k,
{
    if k == 0 {
        Ok(0)
    } else {
        match parse_uvarint(s) {
            Err(e) => Err(e),
            Ok((_tag, a)) => match parse_uvarint(s.skip(a as int)) {
                Err(e) => Err(e),
                Ok((len, b)) => if s.len() - a - b < len {
                    Err(CodecError::EndOfBuffer)
                } else {
                    match parse_tagged_fields(s.skip(a + b + len), (k - 1) as nat) {
                        Err(e) => Err(e),
                        Ok(c) => Ok((a + b + len + c) as nat),
                    }
                },
            },
        }
    }
}

/// Reads a `TAG_BUFFER` and discards its fields.
pub open spec fn parse_tag_buffer(s: Seq<u8>) -> Result<((), nat), CodecError> {
    match parse_uvarint(s) {
        Err(e) => Err(e),
        Ok((k, n)) => match parse_tagged_fields(s.skip(n as int), k as nat) {
            Err(e) => Err(e),
            Ok(c) => Ok(((), n + c)),
        },
    }
}

/// The only tag buffer this library writes: the empty one.
pub open spec fn empty_tag_buffer() -> Seq<u8> {
    seq![0u8]
}

/// Skips a tag buffer at `pos`, giving the position after it.
pub fn skip_tag_buffer(buf: &[u8], pos: usize) -> (r: Result<usize, CodecError>)
    requires
        pos <= buf@.len(),
    ensures
        match r {
            Ok(p) => pos < p <= buf@.len() && parse_tag_buffer(buf@.skip(pos as int)) == Ok::<((), nat), CodecError>(((), (p - pos) as nat)),
            Err(e) => parse_tag_buffer(buf@.skip(pos as int)) == Err::<((), nat), CodecError>(e),
        },
{
    let (k, p0) = VarIntUnsigned::deserialize(buf, pos)?;
    let ghost s0 = buf@.skip(p0 as int);
    assert(buf@.skip(pos as int).skip(p0 - pos) =~= s0);
    let mut i: u64 = 0;
    let mut p: usize = p0;
    assert(buf@.skip(p as int) == s0);
    while i < k.0
        invariant
            pos <= p0 <= p <= buf@.len(),
            i <= k.0,
            s0 == buf@.skip(p0 as int),
            buf@.skip(pos as int).skip(p0 - pos) == s0,
            parse_uvarint(buf@.skip(pos as int)) == Ok::<(u64, nat), CodecError>((k.0, (p0 - pos) as nat)),
            parse_tagged_fields(s0, k.0 as nat) == match parse_tagged_fields(buf@.skip(p as int), (k.0 - i) as nat) {
                Err(e) => Err(e),
                Ok(c) => Ok::<nat, CodecError>(((p - p0) + c) as nat),
            },
        decreases k.0 - i,
    {
        let ghost s = buf@.skip(p as int);
        let (_tag, a) = match VarIntUnsigned::deserialize(buf, p) {
            Ok(x) => x,
            Err(e) => {
                assert(parse_tagged_fields(s, (k.0 - i) as nat) == Err::<nat, CodecError>(e));
                return Err(e);
            },
        };
        assert(buf@.skip(a as int) =~= s.skip(a - p));
        let (len, b) = match VarIntUnsigned::deserialize(buf, a) {
            Ok(x) => x,
            Err(e) => {
                assert(parse_tagged_fields(s, (k.0 - i) as nat) == Err::<nat, CodecError>(e));
                return Err(e);
            },
        };
        assert(buf@.skip(b as int) =~= s.skip(b - p));
        if ((buf.len() - b) as u64) < len.0 {
            assert(parse_tagged_fields(s, (k.0 - i) as nat) == Err::<nat, CodecError>(CodecError::EndOfBuffer));
            return Err(CodecError::EndOfBuffer);
        }
        let next = b + len.0 as usize;
        assert(buf@.skip(next as int) =~= s.skip(next - p));
        p = next;
        i = i + 1;
    }
    Ok(p)
}


/// The concatenation of `f` over `s`.
pub open spec fn concat_map<T>(s: Seq<T>, f: spec_fn(T) -> Seq<u8>) -> Seq<u8>
    decreases s.len(),
{
    if s.len() == 0 {
        Seq::empty()
    } else {
        concat_map(s.drop_last(), f) + f(s.last())
    }
}

/// The concatenation starts with the first item's bytes.
pub proof fn lemma_concat_map_front<T>(s: Seq<T>, f: spec_fn(T) -> Seq<u8>)
    requires
        s.len() > 0,
    ensures
        concat_map(s, f) == f(s[0]) + concat_map(s.drop_first(), f),
    decreases s.len(),
{
    if s.len() == 1 {
        assert(s.drop_last() =~= Seq::<T>::empty());
        assert(s.drop_first() =~= Seq::<T>::empty());
        assert(concat_map(s, f) =~= f(s[0]) + concat_map(s.drop_first(), f));
    } else {
        lemma_concat_map_front(s.drop_last(), f);
        assert(s.drop_last().drop_first() =~= s.drop_first().drop_last());
        assert(s.drop_first().last() == s.last());
        assert(concat_map(s, f) =~= f(s[0]) + concat_map(s.drop_first(), f));
    }
}

/// Over items of one width `w`, item `j` of `s` stands at `w * j`.
pub proof fn lemma_concat_map_fixed<T>(s: Seq<T>, f: spec_fn(T) -> Seq<u8>, w: nat)
    requires
        forall|x: T| #[trigger] f(x).len() == w,
    ensures
        concat_map(s, f).len() == w * s.len(),
        forall|j: int| 0 <= j < s.len() ==> #[trigger] concat_map(s, f).subrange(w * j, w * j + w) == f(s[j]),
    decreases s.len(),
{
    if s.len() > 0 {
        let t = s.drop_last();
        lemma_concat_map_fixed(t, f, w);
        let c = concat_map(t, f);
        assert(w * t.len() + w == w * s.len()) by (nonlinear_arith)
            requires
                t.len() + 1 == s.len(),
        ;
        assert forall|j: int| 0 <= j < s.len() implies #[trigger] concat_map(s, f).subrange(w * j, w * j + w) == f(s[j]) by {
            if j < t.len() {
                assert(w * j + w <= w * t.len()) by (nonlinear_arith)
                    requires
                        j < t.len(),
                        j >= 0,
                ;
                assert(concat_map(s, f).subrange(w * j, w * j + w) =~= c.subrange(w * j, w * j + w));
                assert(t[j] == s[j]);
            } else {
                assert(w * j == w * t.len());
                assert(concat_map(s, f).subrange(w * j, w * j + w) =~= f(s.last()));
            }
        }
    }
}

/// A nullable `COMPACT_ARRAY`.
#[derive(Debug, Clone)]
pub struct CompactArray<T> {
    pub array: Option<Vec<T>>,
}

impl<T> View for CompactArray<T> {
    type V = Option<Seq<T>>;

    open spec fn view(&self) -> Option<Seq<T>> {
        match self.array {
            Some(v) => Some(v@),
            None => None,
        }
    }
}

impl<T> CompactArray<T> {
    /// A non-null array of these items.
    pub fn new(array: Vec<T>) -> (r: CompactArray<T>)
        ensures
            r@ == Some(array@),
    {
        CompactArray { array: Some(array) }
    }

    /// The number of items, `None` for null.
    pub fn count(&self) -> (r: Option<usize>)
        ensures
            r == match self@ { Some(v) => Some(v.len() as usize), None => None::<usize> },
    {
        match &self.array {
            Some(v) => Some(v.len()),
            None => None,
        }
    }
}

pub open spec fn int32_item(x: i32) -> Seq<u8> {
    i32_bytes(x)
}

pub open spec fn uuid_item(x: i128) -> Seq<u8> {
    uuid_bytes(x)
}

/// The bytes of a compact array of `INT32`.
pub open spec fn i32_array_bytes(a: Option<Seq<i32>>) -> Seq<u8> {
    match a {
        None => seq![0u8],
        Some(v) => uvarint_bytes(v.len() + 1) + concat_map(v, |x: i32| int32_item(x)),
    }
}

/// The bytes of a compact array of `UUID`.
pub open spec fn uuid_array_bytes(a: Option<Seq<i128>>) -> Seq<u8> {
    match a {
        None => seq![0u8],
        Some(v) => uvarint_bytes(v.len() + 1) + concat_map(v, |x: i128| uuid_item(x)),
    }
}

/// Reads a compact array of `INT32`.
#[verifier::opaque]
pub open spec fn parse_i32_array(s: Seq<u8>) -> Result<(Option<Seq<i32>>, nat), CodecError> {
    match parse_compact_len(s) {
        Err(e) => Err(e),
        Ok((None, n)) => Ok((None, n)),
        Ok((Some(k), n)) => if s.len() - n < 4 * k {
            Err(CodecError::EndOfBuffer)
        } else {
            Ok((
                Some(Seq::new(k, |j: int| signed_of(be_value(s.subrange(n + 4 * j, n + 4 * j + 4)), 0x1_0000_0000) as i32)),
                n + 4 * k,
            ))
        },
    }
}

/// Reads a compact array of `UUID`.
#[verifier::opaque]
pub open spec fn parse_uuid_array(s: Seq<u8>) -> Result<(Option<Seq<i128>>, nat), CodecError> {
    match parse_compact_len(s) {
        Err(e) => Err(e),
        Ok((None, n)) => Ok((None, n)),
        Ok((Some(k), n)) => if s.len() - n < 16 * k {
            Err(CodecError::EndOfBuffer)
        } else {
            Ok((
                Some(Seq::new(k, |j: int| match parse_uuid(s.subrange(n + 16 * j, n + 16 * j + 16)) {
                    Ok((v, _)) => v,
                    Err(_) => 0,
                })),
                n + 16 * k,
            ))
        },
    }
}

impl CompactArray<i32> {
    /// A copy of the array.
    pub fn copied(&self) -> (r: CompactArray<i32>)
        ensures
            r@ == self@,
    {
        match &self.array {
            None => CompactArray { array: None },
            Some(v) => {
                let mut c: Vec<i32> = Vec::new();
                let mut i: usize = 0;
                while i < v.len()
                    invariant
                        i <= v@.len(),
                        c@ == v@.take(i as int),
                    decreases v@.len() - i,
                {
                    c.push(v[i]);
                    i = i + 1;
                    assert(c@ =~= v@.take(i as int));
                }
                assert(v@.take(i as int) =~= v@);
                CompactArray { array: Some(c) }
            },
        }
    }

    /// Reads a compact array of `INT32` at `pos`.
    pub fn read_i32s(buf: &[u8], pos: usize) -> (r: Result<(CompactArray<i32>, usize), CodecError>)
        requires
            pos <= buf@.len(),
        ensures
            match r {
                Ok((v, p)) => pos < p <= buf@.len() && parse_i32_array(buf@.skip(pos as int)) == Ok::<(Option<Seq<i32>>, nat), CodecError>((v@, (p - pos) as nat)),
                Err(e) => parse_i32_array(buf@.skip(pos as int)) == Err::<(Option<Seq<i32>>, nat), CodecError>(e),
            },
    {
        reveal(parse_i32_array);
        let ghost s = buf@.skip(pos as int);
        let (c, p0) = get_compact_len(buf, pos)?;
        let k = match c {
            None => {
                return Ok((CompactArray { array: None }, p0));
            },
            Some(k) => k,
        };
        if ((buf.len() - p0) as u64) / 4 < k {
            return Err(CodecError::EndOfBuffer);
        }
        let ghost n = (p0 - pos) as nat;
        let mut v: Vec<i32> = Vec::new();
        let mut p = p0;
        let mut j: u64 = 0;
        while j < k
            invariant
                pos <= p0 <= p <= buf@.len(),
                s == buf@.skip(pos as int),
                n == p0 - pos,
                j <= k,
                p == p0 + 4 * j,
                p0 + 4 * k <= buf.len(),
                v@ == Seq::new(j as nat, |i: int| signed_of(be_value(s.subrange(n + 4 * i, n + 4 * i + 4)), 0x1_0000_0000) as i32),
            decreases k - j,
        {
            let (x, q) = match get_i32(buf, p) {
                Ok(t) => t,
                Err(e) => {
                    assert(false);
                    return Err(e);
                },
            };
            assert(buf@.skip(p as int).take(4) =~= s.subrange(n + 4 * j, n + 4 * j + 4));
            v.push(x);
            p = q;
            j = j + 1;
            assert(v@ =~= Seq::new(j as nat, |i: int| signed_of(be_value(s.subrange(n + 4 * i, n + 4 * i + 4)), 0x1_0000_0000) as i32));
        }
        Ok((CompactArray { array: Some(v) }, p))
    }

    /// Appends the array.
    pub fn serialize(&self, out: &mut Vec<u8>)
        ensures
            final(out)@ == old(out)@ + i32_array_bytes(self@),
    {
        match &self.array {
            None => {
                out.push(0u8);
            },
            Some(v) => {
                put_uvarint(out, v.len() as u128 + 1);
                let ghost start = out@;
                let mut i: usize = 0;
                while i < v.len()
                    invariant
                        i <= v@.len(),
                        out@ == start + concat_map(v@.take(i as int), |x: i32| int32_item(x)),
                    decreases v@.len() - i,
                {
                    put_i32(out, v[i]);
                    assert(v@.take(i + 1).drop_last() =~= v@.take(i as int));
                    i = i + 1;
                    assert(out@ =~= start + concat_map(v@.take(i as int), |x: i32| int32_item(x)));
                }
                assert(v@.take(i as int) =~= v@);
                assert(out@ =~= old(out)@ + i32_array_bytes(self@));
            },
        }
    }
}

impl CompactArray<i128> {
    /// Reads a compact array of `UUID` at `pos`.
    pub fn read_uuids(buf: &[u8], pos: usize) -> (r: Result<(CompactArray<i128>, usize), CodecError>)
        requires
            pos <= buf@.len(),
        ensures
            match r {
                Ok((v, p)) => pos < p <= buf@.len() && parse_uuid_array(buf@.skip(pos as int)) == Ok::<(Option<Seq<i128>>, nat), CodecError>((v@, (p - pos) as nat)),
                Err(e) => parse_uuid_array(buf@.skip(pos as int)) == Err::<(Option<Seq<i128>>, nat), CodecError>(e),
            },
    {
        reveal(parse_uuid_array);
        let ghost s = buf@.skip(pos as int);
        let (c, p0) = get_compact_len(buf, pos)?;
        let k = match c {
            None => {
                return Ok((CompactArray { array: None }, p0));
            },
            Some(k) => k,
        };
        if ((buf.len() - p0) as u64) / 16 < k {
            return Err(CodecError::EndOfBuffer);
        }
        let ghost n = (p0 - pos) as nat;
        let ghost item = |i: int| match parse_uuid(s.subrange(n + 16 * i, n + 16 * i + 16)) {
            Ok((v, _)) => v,
            Err(_) => 0i128,
        };
        let mut v: Vec<i128> = Vec::new();
        let mut p = p0;
        let mut j: u64 = 0;
        while j < k
            invariant
                pos <= p0 <= p <= buf@.len(),
                s == buf@.skip(pos as int),
                n == p0 - pos,
                j <= k,
                p == p0 + 16 * j,
                p0 + 16 * k <= buf.len(),
                item == (|i: int| match parse_uuid(s.subrange(n + 16 * i, n + 16 * i + 16)) {
                    Ok((v, _)) => v,
                    Err(_) => 0i128,
                }),
                v@ == Seq::new(j as nat, item),
            decreases k - j,
        {
            let (x, q) = match get_uuid(buf, p) {
                Ok(t) => t,
                Err(e) => {
                    assert(false);
                    return Err(e);
                },
            };
            assert(buf@.skip(p as int).take(16) =~= s.subrange(n + 16 * j, n + 16 * j + 16));
            assert(buf@.skip(p as int).take(16).take(8) =~= buf@.skip(p as int).take(8));
            assert(buf@.skip(p as int).take(16).subrange(8, 16) =~= buf@.skip(p as int).subrange(8, 16));
            assert(parse_uuid(buf@.skip(p as int)) == parse_uuid(buf@.skip(p as int).take(16)));
            v.push(x);
            p = q;
            j = j + 1;
            assert(v@ =~= Seq::new(j as nat, item));
        }
        Ok((CompactArray { array: Some(v) }, p))
    }

    /// Appends the array.
    pub fn serialize(&self, out: &mut Vec<u8>)
        ensures
            final(out)@ == old(out)@ + uuid_array_bytes(self@),
    {
        match &self.array {
            None => {
                out.push(0u8);
            },
            Some(v) => {
                put_uvarint(out, v.len() as u128 + 1);
                let ghost start = out@;
                let mut i: usize = 0;
                while i < v.len()
                    invariant
                        i <= v@.len(),
                        out@ == start + concat_map(v@.take(i as int), |x: i128| uuid_item(x)),
                    decreases v@.len() - i,
                {
                    put_uuid(out, v[i]);
                    assert(v@.take(i + 1).drop_last() =~= v@.take(i as int));
                    i = i + 1;
                    assert(out@ =~= start + concat_map(v@.take(i as int), |x: i128| uuid_item(x)));
                }
                assert(v@.take(i as int) =~= v@);
                assert(out@ =~= old(out)@ + uuid_array_bytes(self@));
            },
        }
    }
}


/// A compact string reads back as written, whatever follows it, when its
/// length plus one fits in 64 bits.
pub proof fn lemma_compact_string_round_trip(t: Option<Seq<char>>, rest: Seq<u8>)
    requires
        t matches Some(c) ==> utf8_bytes(c).len() < 0xffff_ffff_ffff_ffff,
    ensures
        parse_compact_string(compact_string_bytes(t) + rest) == Ok::<(Option<Seq<char>>, nat), CodecError>((t, compact_string_bytes(t).len())),
{
    match t {
        None => {
            lemma_uvarint_round_trip(0, rest);
            assert(uvarint_bytes(0) == seq![0u8]);
        },
        Some(c) => {
            let b = utf8_bytes(c);
            let u = (b.len() + 1) as u64;
            lemma_uvarint_round_trip(u, b + rest);
            let h = uvarint_bytes(u as nat);
            let s = compact_string_bytes(t) + rest;
            assert(s =~= h + (b + rest));
            assert(s.subrange(h.len() as int, (h.len() + b.len()) as int) =~= b);
            vstd::utf8::encode_utf8_valid_utf8(c);
            vstd::utf8::encode_utf8_decode_utf8(c);
        },
    }
}

/// An empty tag buffer reads as one byte, whatever follows it.
pub proof fn lemma_empty_tag_buffer(rest: Seq<u8>)
    ensures
        parse_tag_buffer(empty_tag_buffer() + rest) == Ok::<((), nat), CodecError>(((), 1)),
{
    lemma_uvarint_round_trip(0, rest);
    assert(uvarint_bytes(0) == seq![0u8]);
    assert(empty_tag_buffer() =~= uvarint_bytes(0));
}

/// A compact array of `INT32` reads back as written, whatever follows it.
pub proof fn lemma_i32_array_round_trip(a: Option<Seq<i32>>, rest: Seq<u8>)
    requires
        a matches Some(v) ==> v.len() < 0xffff_ffff_ffff_ffff,
    ensures
        parse_i32_array(i32_array_bytes(a) + rest) == Ok::<(Option<Seq<i32>>, nat), CodecError>((a, i32_array_bytes(a).len())),
{
    reveal(parse_i32_array);
    match a {
        None => {
            lemma_uvarint_round_trip(0, rest);
            assert(uvarint_bytes(0) == seq![0u8]);
        },
        Some(v) => {
            let f = |x: i32| int32_item(x);
            let body = concat_map(v, f);
            lemma_pow256_values();
            assert forall|x: i32| #[trigger] f(x).len() == 4 by {
                lemma_be_bytes_len(unsigned_of(x as int, 0x1_0000_0000), 4);
            }
            lemma_concat_map_fixed(v, f, 4);
            let u = (v.len() + 1) as u64;
            lemma_uvarint_round_trip(u, body + rest);
            let h = uvarint_bytes(u as nat);
            let s = i32_array_bytes(a) + rest;
            assert(s =~= h + (body + rest));
            let n = h.len();
            let got = Seq::new(v.len(), |j: int| signed_of(be_value(s.subrange(n + 4 * j, n + 4 * j + 4)), 0x1_0000_0000) as i32);
            assert forall|j: int| 0 <= j < v.len() implies got[j] == v[j] by {
                assert(4 * j + 4 <= 4 * v.len()) by (nonlinear_arith)
                    requires
                        j < v.len(),
                ;
                assert(s.subrange(n + 4 * j, n + 4 * j + 4) =~= body.subrange(4 * j, 4 * j + 4));
                assert(f(v[j]) == i32_bytes(v[j]));
                lemma_be_round_trip(unsigned_of(v[j] as int, 0x1_0000_0000), 4);
            }
            assert(got =~= v);
        },
    }
}

/// A compact array of `UUID` reads back as written, whatever follows it.
pub proof fn lemma_uuid_array_round_trip(a: Option<Seq<i128>>, rest: Seq<u8>)
    requires
        a matches Some(v) ==> v.len() < 0xffff_ffff_ffff_ffff,
    ensures
        parse_uuid_array(uuid_array_bytes(a) + rest) == Ok::<(Option<Seq<i128>>, nat), CodecError>((a, uuid_array_bytes(a).len())),
{
    reveal(parse_uuid_array);
    match a {
        None => {
            lemma_uvarint_round_trip(0, rest);
            assert(uvarint_bytes(0) == seq![0u8]);
        },
        Some(v) => {
            let f = |x: i128| uuid_item(x);
            let body = concat_map(v, f);
            lemma_pow256_values();
            assert forall|x: i128| #[trigger] f(x).len() == 16 by {
                let m: int = 0x1_0000_0000_0000_0000;
                lemma_be_bytes_len(unsigned_of(x as int / m, m as nat), 8);
                lemma_be_bytes_len((x as int % m) as nat, 8);
            }
            lemma_concat_map_fixed(v, f, 16);
            let u = (v.len() + 1) as u64;
            lemma_uvarint_round_trip(u, body + rest);
            let h = uvarint_bytes(u as nat);
            let s = uuid_array_bytes(a) + rest;
            assert(s =~= h + (body + rest));
            let n = h.len();
            let got = Seq::new(v.len(), |j: int| match parse_uuid(s.subrange(n + 16 * j, n + 16 * j + 16)) {
                Ok((x, _)) => x,
                Err(_) => 0,
            });
            assert forall|j: int| 0 <= j < v.len() implies got[j] == v[j] by {
                assert(16 * j + 16 <= 16 * v.len()) by (nonlinear_arith)
                    requires
                        j < v.len(),
                ;
                assert(s.subrange(n + 16 * j, n + 16 * j + 16) =~= body.subrange(16 * j, 16 * j + 16));
                assert(f(v[j]) == uuid_bytes(v[j]));
                lemma_uuid_round_trip(v[j], Seq::empty());
                assert(uuid_bytes(v[j]) + Seq::<u8>::empty() =~= uuid_bytes(v[j]));
            }
            assert(got =~= v);
        },
    }
}

} // verus!
