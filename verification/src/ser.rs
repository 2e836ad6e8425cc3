//! Binary serialization: big-endian integers and length-prefixed byte strings,
//! written to a growing byte buffer and read back from a byte buffer.
use crate::error::{CoreErrorKind, Error};
use vstd::prelude::*;

verus! {

/// `256^n`.
pub open spec fn pow256(n: nat) -> nat
    decreases n,
{
    if n == 0 {
        1
    } else {
        256 * pow256((n - 1) as nat)
    }
}

/// The `width` least significant bytes of `v`, most significant first.
pub open spec fn be_bytes(v: nat, width: nat) -> Seq<u8>
    decreases width,
{
    if width == 0 {
        Seq::empty()
    } else {
        be_bytes(v / 256, (width - 1) as nat).push((v % 256) as u8)
    }
}

/// The unsigned number whose big-endian encoding is `s`.
pub open spec fn be_value(s: Seq<u8>) -> nat
    decreases s.len(),
{
    if s.len() == 0 {
        0
    } else {
        be_value(s.drop_last()) * 256 + s.last() as nat
    }
}

/// Two's complement representation of `v` on `width` bytes.
pub open spec fn twos(v: int, width: nat) -> nat {
    (v % (pow256(width) as int)) as nat
}

/// The signed number whose `width`-byte two's complement representation is `u`.
pub open spec fn from_twos(u: nat, width: nat) -> int {
    if 2 * u >= pow256(width) {
        u - pow256(width)
    } else {
        u as int
    }
}

/// The encoding of a byte string by `write_bytes`: its length as a `u64`,
/// then the bytes themselves.
pub open spec fn length_prefixed(bytes: Seq<u8>) -> Seq<u8> {
    be_bytes(bytes.len(), 8) + bytes
}

pub proof fn lemma_pow256_pos(n: nat)
    ensures
        pow256(n) >= 1,
    decreases n,
{
    if n > 0 {
        lemma_pow256_pos((n - 1) as nat);
    }
}

pub proof fn lemma_pow256_mono(a: nat, b: nat)
    requires
        a <= b,
    ensures
        pow256(a) <= pow256(b),
    decreases b,
{
    if a < b {
        lemma_pow256_mono(a, (b - 1) as nat);
        lemma_pow256_pos((b - 1) as nat);
    }
}

pub proof fn lemma_pow256_values()
    ensures
        pow256(1) == 0x100,
        pow256(2) == 0x1_0000,
        pow256(4) == 0x1_0000_0000,
        pow256(8) == 0x1_0000_0000_0000_0000,
        pow256(16) == 0x1_0000_0000_0000_0000_0000_0000_0000_0000,
{
    reveal_with_fuel(pow256, 17);
}

pub proof fn lemma_be_bytes_len(v: nat, width: nat)
    ensures
        be_bytes(v, width).len() == width,
    decreases width,
{
    if width > 0 {
        lemma_be_bytes_len(v / 256, (width - 1) as nat);
    }
}

/// Decoding the encoding of `v` on `width` bytes gives `v` modulo `256^width`.
pub proof fn lemma_be_value_of_bytes(v: nat, width: nat)
    ensures
        be_value(be_bytes(v, width)) == v % pow256(width),
    decreases width,
{
    if width == 0 {
        assert(v % 1 == 0) by (nonlinear_arith);
    } else {
        let s = be_bytes(v, width);
        lemma_be_value_of_bytes(v / 256, (width - 1) as nat);
        assert(s.drop_last() =~= be_bytes(v / 256, (width - 1) as nat));
        lemma_pow256_pos((width - 1) as nat);
        vstd::arithmetic::div_mod::lemma_breakdown(v as int, 256, pow256((width - 1) as nat) as int);
    }
}

/// The decoded value of `s` is below `256^len`.
pub proof fn lemma_be_value_bound(s: Seq<u8>)
    ensures
        be_value(s) < pow256(s.len()),
    decreases s.len(),
{
    if s.len() > 0 {
        lemma_be_value_bound(s.drop_last());
    }
}

/// Encoding the decoded value of `s` on `s.len()` bytes gives `s` back.
pub proof fn lemma_bytes_of_be_value(s: Seq<u8>)
    ensures
        be_bytes(be_value(s), s.len()) == s,
    decreases s.len(),
{
    if s.len() > 0 {
        let v = be_value(s);
        let p = s.drop_last();
        lemma_bytes_of_be_value(p);
        assert(v / 256 == be_value(p)) by {
            vstd::arithmetic::div_mod::lemma_fundamental_div_mod_converse(
                v as int,
                256,
                be_value(p) as int,
                s.last() as int,
            );
        }
        assert(v % 256 == s.last() as nat) by {
            vstd::arithmetic::div_mod::lemma_fundamental_div_mod_converse(
                v as int,
                256,
                be_value(p) as int,
                s.last() as int,
            );
        }
        assert(be_bytes(v, s.len()) =~= s);
    }
}

/// A value below `256^width` survives encoding and decoding.
pub proof fn lemma_be_roundtrip(v: nat, width: nat)
    requires
        v < pow256(width),
    ensures
        be_value(be_bytes(v, width)) == v,
        be_bytes(v, width).len() == width,
{
    lemma_be_value_of_bytes(v, width);
    lemma_be_bytes_len(v, width);
    vstd::arithmetic::div_mod::lemma_small_mod(v, pow256(width));
}

/// Signed values survive the two's complement encoding.
pub proof fn lemma_twos_roundtrip(v: int, width: nat)
    requires
        width > 0,
        -(pow256(width) as int) <= 2 * v < pow256(width),
    ensures
        twos(v, width) < pow256(width),
        from_twos(twos(v, width), width) == v,
{
    let p = pow256(width) as int;
    lemma_pow256_pos(width);
    if v >= 0 {
        vstd::arithmetic::div_mod::lemma_small_mod(v as nat, p as nat);
    } else {
        vstd::arithmetic::div_mod::lemma_fundamental_div_mod_converse(v, p, -1, v + p);
    }
}

/// Appends the `width`-byte big-endian encoding of `v` to `out`.
pub(crate) fn push_be(out: &mut Vec<u8>, v: u128, width: usize)
    requires
        width <= 16,
    ensures
        final(out)@ == old(out)@ + be_bytes(v as nat, width as nat),
    decreases width,
{
    if width > 0 {
        push_be(out, v / 256, width - 1);
        out.push((v % 256) as u8);
        assert(final(out)@ =~= old(out)@ + be_bytes(v as nat, width as nat));
    }
}

/// Reads `width` bytes of `buf` from `start` as a big-endian number.
pub(crate) fn be_read(buf: &[u8], start: usize, width: usize) -> (r: u128)
    requires
        width <= 16,
        start + width <= buf@.len(),
    ensures
        r as nat == be_value(buf@.subrange(start as int, start + width)),
{
    let ghost s = buf@.subrange(start as int, start + width);
    let blen = buf.len();
    let mut acc: u128 = 0;
    let mut i: usize = 0;
    while i < width
        invariant
            blen == buf@.len(),
            i <= width <= 16,
            start + width <= buf@.len(),
            s == buf@.subrange(start as int, start + width),
            acc as nat == be_value(s.take(i as int)),
        decreases width - i,
    {
        proof {
            lemma_be_value_bound(s.take(i as int));
            lemma_pow256_mono((i + 1) as nat, 16);
            lemma_pow256_values();
            assert(s.take(i + 1).drop_last() =~= s.take(i as int));
        }
        let b = buf[start + i];
        assert(b == s.take(i + 1).last());
        acc = acc * 256 + b as u128;
        i = i + 1;
    }
    assert(s.take(width as int) =~= s);
    acc
}

/// Two's complement of a signed value as an unsigned 128-bit number.
fn signed_bits(n: i128, width: usize) -> (r: u128)
    requires
        1 <= width <= 16,
        -(pow256(width as nat) as int) <= 2 * n < pow256(width as nat),
    ensures
        r == twos(n as int, width as nat),
{
    proof {
        lemma_pow256_values();
        lemma_pow256_mono(width as nat, 16);
        lemma_twos_roundtrip(n as int, width as nat);
    }
    let r: u128 = if n >= 0 {
        n as u128
    } else if width == 16 {
        ((n + 1 + i128::MAX) as u128) + (i128::MAX as u128) + 1
    } else {
        proof {
            lemma_pow256_mono(width as nat, 15);
            reveal_with_fuel(pow256, 16);
        }
        let p: u128 = pow_u128(width);
        ((p as i128) + n) as u128
    };
    proof {
        let p = pow256(width as nat) as int;
        if n < 0 {
            vstd::arithmetic::div_mod::lemma_fundamental_div_mod_converse(
                n as int,
                p,
                -1,
                n + p,
            );
        } else {
            vstd::arithmetic::div_mod::lemma_small_mod(n as nat, p as nat);
        }
    }
    r
}

/// `256^width` for widths below 16.
fn pow_u128(width: usize) -> (r: u128)
    requires
        width < 16,
    ensures
        r == pow256(width as nat),
    decreases width,
{
    proof {
        lemma_pow256_values();
        lemma_pow256_mono(width as nat, 15);
        reveal_with_fuel(pow256, 16);
    }
    if width == 0 {
        1
    } else {
        let p = pow_u128(width - 1);
        proof {
            lemma_pow256_mono(width as nat, 15);
        }
        256 * p
    }
}

/// The `width`-byte big-endian encoding of `v`.
fn be_vec(v: u128, width: usize) -> (r: Vec<u8>)
    requires
        width <= 16,
    ensures
        r@ == be_bytes(v as nat, width as nat),
{
    let mut out: Vec<u8> = Vec::new();
    push_be(&mut out, v, width);
    assert(out@ =~= be_bytes(v as nat, width as nat));
    out
}

/// A byte read where a zero byte is expected: zero is accepted, anything
/// else is a `CorruptedData` error.
pub fn expect_zero(v: u8) -> (r: Result<(), Error>)
    ensures
        r is Ok <==> v == 0,
        r matches Err(e) ==> e.is_corrupted(),
{
    if v != 0u8 {
        Err(Error::base(CoreErrorKind::CorruptedData(String::from_str("expected 0u8"))))
    } else {
        Ok(())
    }
}

/// Serializing writer. The bytes written so far are its view.
pub trait Writer {
    /// Everything written so far.
    spec fn written(&self) -> Seq<u8>;

    /// Write a u8 to the stream.
    fn write_u8(&mut self, n: u8) -> (r: Result<(), Error>)
        ensures
            r is Ok ==> final(self).written() == old(self).written() + be_bytes(n as nat, 1),
    {
        self.write_fixed_bytes(be_vec(n as u128, 1).as_slice())
    }

    /// Write an i8 to the stream.
    fn write_i8(&mut self, n: i8) -> (r: Result<(), Error>)
        ensures
            r is Ok ==> final(self).written() == old(self).written() + be_bytes(twos(n as int, 1), 1),
    {
        proof {
            reveal_with_fuel(pow256, 2);
        }
        self.write_fixed_bytes(be_vec(signed_bits(n as i128, 1), 1).as_slice())
    }

    /// Write a u16 to the stream.
    fn write_u16(&mut self, n: u16) -> (r: Result<(), Error>)
        ensures
            r is Ok ==> final(self).written() == old(self).written() + be_bytes(n as nat, 2),
    {
        self.write_fixed_bytes(be_vec(n as u128, 2).as_slice())
    }

    /// Write an i16 to the stream.
    fn write_i16(&mut self, n: i16) -> (r: Result<(), Error>)
        ensures
            r is Ok ==> final(self).written() == old(self).written() + be_bytes(twos(n as int, 2), 2),
    {
        proof {
            lemma_pow256_values();
        }
        self.write_fixed_bytes(be_vec(signed_bits(n as i128, 2), 2).as_slice())
    }

    /// Write a u32 to the stream.
    fn write_u32(&mut self, n: u32) -> (r: Result<(), Error>)
        ensures
            r is Ok ==> final(self).written() == old(self).written() + be_bytes(n as nat, 4),
    {
        self.write_fixed_bytes(be_vec(n as u128, 4).as_slice())
    }

    /// Write an i32 to the stream.
    fn write_i32(&mut self, n: i32) -> (r: Result<(), Error>)
        ensures
            r is Ok ==> final(self).written() == old(self).written() + be_bytes(twos(n as int, 4), 4),
    {
        proof {
            lemma_pow256_values();
        }
        self.write_fixed_bytes(be_vec(signed_bits(n as i128, 4), 4).as_slice())
    }

    /// Write a u64 to the stream.
    fn write_u64(&mut self, n: u64) -> (r: Result<(), Error>)
        ensures
            r is Ok ==> final(self).written() == old(self).written() + be_bytes(n as nat, 8),
    {
        self.write_fixed_bytes(be_vec(n as u128, 8).as_slice())
    }

    /// Write an i128 to the stream.
    fn write_i128(&mut self, n: i128) -> (r: Result<(), Error>)
        ensures
            r is Ok ==> final(self).written() == old(self).written() + be_bytes(twos(n as int, 16), 16),
    {
        proof {
            lemma_pow256_values();
        }
        self.write_fixed_bytes(be_vec(signed_bits(n, 16), 16).as_slice())
    }

    /// Write a u128 to the stream.
    fn write_u128(&mut self, n: u128) -> (r: Result<(), Error>)
        ensures
            r is Ok ==> final(self).written() == old(self).written() + be_bytes(n as nat, 16),
    {
        self.write_fixed_bytes(be_vec(n, 16).as_slice())
    }

    /// Write an i64 to the stream.
    fn write_i64(&mut self, n: i64) -> (r: Result<(), Error>)
        ensures
            r is Ok ==> final(self).written() == old(self).written() + be_bytes(twos(n as int, 8), 8),
    {
        proof {
            lemma_pow256_values();
        }
        self.write_fixed_bytes(be_vec(signed_bits(n as i128, 8), 8).as_slice())
    }

    /// Write a usize to the stream, as its 64-bit big-endian value.
    fn write_usize(&mut self, n: usize) -> (r: Result<(), Error>)
        ensures
            r is Ok ==> final(self).written() == old(self).written() + be_bytes(n as nat, 8),
    {
        self.write_fixed_bytes(be_vec(n as u128, 8).as_slice())
    }

    /// Write `bytes` preceded by their length so that variable length data may
    /// be written.
    fn write_bytes(&mut self, bytes: &[u8]) -> (r: Result<(), Error>)
        ensures
            r is Ok ==> final(self).written() == old(self).written() + length_prefixed(bytes@),
    {
        match self.write_u64(bytes.len() as u64) {
            Ok(()) => {},
            Err(e) => return Err(e),
        }
        let r = self.write_fixed_bytes(bytes);
        assert(r is Ok ==> final(self).written() =~= old(self).written() + length_prefixed(bytes@));
        r
    }

    /// Write `bytes` as they are.
    fn write_fixed_bytes(&mut self, bytes: &[u8]) -> (r: Result<(), Error>)
        ensures
            r is Ok ==> final(self).written() == old(self).written() + bytes@,
    ;

    /// Write `length` zero bytes, each with `write_u8`; the first error is
    /// passed on.
    fn write_empty_bytes(&mut self, length: usize) -> (r: Result<(), Error>)
        ensures
            r is Ok ==> final(self).written() == old(self).written() + Seq::new(
                length as nat,
                |i: int| 0u8,
            ),
            length == 0 ==> r is Ok,
    {
        let ghost start = self.written();
        let mut i: usize = 0;
        while i < length
            invariant
                i <= length,
                self.written() == start + Seq::new(i as nat, |k: int| 0u8),
            decreases length - i,
        {
            let ghost before = self.written();
            match self.write_u8(0) {
                Ok(()) => {},
                Err(e) => return Err(e),
            }
            proof {
                reveal_with_fuel(be_bytes, 2);
                assert(be_bytes(0nat, 1) =~= seq![0u8]);
            }
            i = i + 1;
            assert(self.written() =~= start + Seq::new(i as nat, |k: int| 0u8));
        }
        Ok(())
    }
}

/// Deserializing reader. The bytes not read yet are its view.
pub trait Reader {
    /// The bytes that are still to be read.
    spec fn unread(&self) -> Seq<u8>;

    /// Read a u8.
    fn read_u8(&mut self) -> (r: Result<u8, Error>)
        ensures
            r matches Ok(v) ==> old(self).unread().len() >= 1 && v as nat == be_value(
                old(self).unread().take(1),
            ) && final(self).unread() == old(self).unread().skip(1),
    ;

    /// Read an i8.
    fn read_i8(&mut self) -> (r: Result<i8, Error>)
        ensures
            r matches Ok(v) ==> old(self).unread().len() >= 1 && v as int == from_twos(
                be_value(old(self).unread().take(1)),
                1,
            ) && final(self).unread() == old(self).unread().skip(1),
    ;

    /// Read an i16.
    fn read_i16(&mut self) -> (r: Result<i16, Error>)
        ensures
            r matches Ok(v) ==> old(self).unread().len() >= 2 && v as int == from_twos(
                be_value(old(self).unread().take(2)),
                2,
            ) && final(self).unread() == old(self).unread().skip(2),
    ;

    /// Read a u16.
    fn read_u16(&mut self) -> (r: Result<u16, Error>)
        ensures
            r matches Ok(v) ==> old(self).unread().len() >= 2 && v as nat == be_value(
                old(self).unread().take(2),
            ) && final(self).unread() == old(self).unread().skip(2),
    ;

    /// Read a u32.
    fn read_u32(&mut self) -> (r: Result<u32, Error>)
        ensures
            r matches Ok(v) ==> old(self).unread().len() >= 4 && v as nat == be_value(
                old(self).unread().take(4),
            ) && final(self).unread() == old(self).unread().skip(4),
    ;

    /// Read a u64.
    fn read_u64(&mut self) -> (r: Result<u64, Error>)
        ensures
            r matches Ok(v) ==> old(self).unread().len() >= 8 && v as nat == be_value(
                old(self).unread().take(8),
            ) && final(self).unread() == old(self).unread().skip(8),
    ;

    /// Read a u128.
    fn read_u128(&mut self) -> (r: Result<u128, Error>)
        ensures
            r matches Ok(v) ==> old(self).unread().len() >= 16 && v as nat == be_value(
                old(self).unread().take(16),
            ) && final(self).unread() == old(self).unread().skip(16),
    ;

    /// Read an i128.
    fn read_i128(&mut self) -> (r: Result<i128, Error>)
        ensures
            r matches Ok(v) ==> old(self).unread().len() >= 16 && v as int == from_twos(
                be_value(old(self).unread().take(16)),
                16,
            ) && final(self).unread() == old(self).unread().skip(16),
    ;

    /// Read an i32.
    fn read_i32(&mut self) -> (r: Result<i32, Error>)
        ensures
            r matches Ok(v) ==> old(self).unread().len() >= 4 && v as int == from_twos(
                be_value(old(self).unread().take(4)),
                4,
            ) && final(self).unread() == old(self).unread().skip(4),
    ;

    /// Read an i64.
    fn read_i64(&mut self) -> (r: Result<i64, Error>)
        ensures
            r matches Ok(v) ==> old(self).unread().len() >= 8 && v as int == from_twos(
                be_value(old(self).unread().take(8)),
                8,
            ) && final(self).unread() == old(self).unread().skip(8),
    ;

    /// Fill `buf` with the next `buf.len()` bytes.
    fn read_fixed_bytes(&mut self, buf: &mut [u8]) -> (r: Result<(), Error>)
        ensures
            r is Ok ==> old(self).unread().len() >= old(buf)@.len() && final(buf)@ == old(
                self,
            ).unread().take(old(buf)@.len() as int) && final(self).unread() == old(
                self,
            ).unread().skip(old(buf)@.len() as int),
    ;

    /// Read a usize, stored as a 64-bit big-endian value.
    fn read_usize(&mut self) -> (r: Result<usize, Error>)
        ensures
            r matches Ok(v) ==> old(self).unread().len() >= 8 && v as nat == be_value(
                old(self).unread().take(8),
            ) && final(self).unread() == old(self).unread().skip(8),
    ;

    /// Read a u8 and expect it to be `val`.
    fn expect_u8(&mut self, val: u8) -> (r: Result<u8, Error>)
        ensures
            r matches Ok(v) ==> v == val && old(self).unread().len() >= 1 && old(
                self,
            ).unread()[0] == val && final(self).unread() == old(self).unread().skip(1),
    ;

    /// Read `length` bytes, all of which are expected to be zero: each is
    /// read with `read_u8`, whose error is passed on, and a byte that is not
    /// zero is a `CorruptedData` error.
    fn read_empty_bytes(&mut self, length: usize) -> (r: Result<(), Error>)
        ensures
            r is Ok ==> old(self).unread().len() >= length && (forall|i: int|
                0 <= i < length ==> old(self).unread()[i] == 0u8) && final(self).unread()
                == old(self).unread().skip(length as int),
            length == 0 ==> r is Ok,
    {
        let ghost s = self.unread();
        let mut i: usize = 0;
        while i < length
            invariant
                i <= length,
                i <= s.len(),
                s == old(self).unread(),
                self.unread() == s.skip(i as int),
                forall|k: int| 0 <= k < i ==> s[k] == 0u8,
            decreases length - i,
        {
            let ghost before = self.unread();
            let v = match self.read_u8() {
                Ok(v) => v,
                Err(e) => return Err(e),
            };
            assert(before.take(1) =~= seq![before[0]]);
            assert(be_value(before.take(1)) == before[0] as nat) by {
                assert(before.take(1).drop_last() =~= Seq::<u8>::empty());
            }
            match expect_zero(v) {
                Ok(()) => {},
                Err(e) => return Err(e),
            }
            assert(before[0] == s[i as int]);
            assert(self.unread() =~= s.skip(i + 1));
            i = i + 1;
        }
        Ok(())
    }
}

/// A [`Writer`] that appends to an in-memory byte buffer.
pub struct BinWriter {
    sink: Vec<u8>,
}

impl View for BinWriter {
    type V = Seq<u8>;

    closed spec fn view(&self) -> Seq<u8> {
        self.sink@
    }
}

impl BinWriter {
    /// An empty writer.
    pub fn new() -> (w: BinWriter)
        ensures
            w@ == Seq::<u8>::empty(),
    {
        BinWriter { sink: Vec::new() }
    }

    /// The bytes written so far.
    pub fn bytes(&self) -> (r: &Vec<u8>)
        ensures
            r@ == self@,
    {
        &self.sink
    }

    /// Consumes the writer and hands out the bytes written.
    pub fn into_bytes(self) -> (r: Vec<u8>)
        ensures
            r@ == self@,
    {
        self.sink
    }

    fn push_slice(&mut self, bytes: &[u8])
        ensures
            final(self)@ == old(self)@ + bytes@,
    {
        let ghost start = self@;
        let mut i: usize = 0;
        while i < bytes.len()
            invariant
                i <= bytes@.len(),
                self@ == start + bytes@.take(i as int),
            decreases bytes@.len() - i,
        {
            self.sink.push(bytes[i]);
            i = i + 1;
            assert(self@ =~= start + bytes@.take(i as int));
        }
        assert(bytes@.take(i as int) =~= bytes@);
    }
}

impl Writer for BinWriter {
    open spec fn written(&self) -> Seq<u8> {
        self@
    }

    fn write_u8(&mut self, n: u8) -> (r: Result<(), Error>)
        ensures
            r is Ok,
    {
        push_be(&mut self.sink, n as u128, 1);
        Ok(())
    }

    fn write_i8(&mut self, n: i8) -> (r: Result<(), Error>)
        ensures
            r is Ok,
    {
        proof {
            reveal_with_fuel(pow256, 2);
        }
        let u = signed_bits(n as i128, 1);
        push_be(&mut self.sink, u, 1);
        Ok(())
    }

    fn write_u16(&mut self, n: u16) -> (r: Result<(), Error>)
        ensures
            r is Ok,
    {
        push_be(&mut self.sink, n as u128, 2);
        Ok(())
    }

    fn write_i16(&mut self, n: i16) -> (r: Result<(), Error>)
        ensures
            r is Ok,
    {
        proof {
            lemma_pow256_values();
        }
        let u = signed_bits(n as i128, 2);
        push_be(&mut self.sink, u, 2);
        Ok(())
    }

    fn write_u32(&mut self, n: u32) -> (r: Result<(), Error>)
        ensures
            r is Ok,
    {
        push_be(&mut self.sink, n as u128, 4);
        Ok(())
    }

    fn write_i32(&mut self, n: i32) -> (r: Result<(), Error>)
        ensures
            r is Ok,
    {
        proof {
            lemma_pow256_values();
        }
        let u = signed_bits(n as i128, 4);
        push_be(&mut self.sink, u, 4);
        Ok(())
    }

    fn write_u64(&mut self, n: u64) -> (r: Result<(), Error>)
        ensures
            r is Ok,
    {
        push_be(&mut self.sink, n as u128, 8);
        Ok(())
    }

    fn write_i128(&mut self, n: i128) -> (r: Result<(), Error>)
        ensures
            r is Ok,
    {
        proof {
            lemma_pow256_values();
        }
        let u = signed_bits(n, 16);
        push_be(&mut self.sink, u, 16);
        Ok(())
    }

    fn write_u128(&mut self, n: u128) -> (r: Result<(), Error>)
        ensures
            r is Ok,
    {
        push_be(&mut self.sink, n, 16);
        Ok(())
    }

    fn write_i64(&mut self, n: i64) -> (r: Result<(), Error>)
        ensures
            r is Ok,
    {
        proof {
            lemma_pow256_values();
        }
        let u = signed_bits(n as i128, 8);
        push_be(&mut self.sink, u, 8);
        Ok(())
    }

    fn write_usize(&mut self, n: usize) -> (r: Result<(), Error>)
        ensures
            r is Ok,
    {
        push_be(&mut self.sink, n as u128, 8);
        Ok(())
    }

    fn write_bytes(&mut self, bytes: &[u8]) -> (r: Result<(), Error>)
        ensures
            r is Ok,
    {
        push_be(&mut self.sink, bytes.len() as u128, 8);
        self.push_slice(bytes);
        assert(self@ =~= old(self)@ + length_prefixed(bytes@));
        Ok(())
    }

    fn write_fixed_bytes(&mut self, bytes: &[u8]) -> (r: Result<(), Error>)
        ensures
            r is Ok,
    {
        self.push_slice(bytes);
        Ok(())
    }

    fn write_empty_bytes(&mut self, length: usize) -> (r: Result<(), Error>)
        ensures
            r is Ok,
    {
        let ghost start = self@;
        let mut i: usize = 0;
        while i < length
            invariant
                i <= length,
                self@ == start + Seq::new(i as nat, |k: int| 0u8),
            decreases length - i,
        {
            self.sink.push(0u8);
            i = i + 1;
            assert(self@ =~= start + Seq::new(i as nat, |k: int| 0u8));
        }
        Ok(())
    }
}


/// A [`Reader`] over an in-memory byte buffer.
pub struct BinReader {
    source: Vec<u8>,
    pos: usize,
}

impl View for BinReader {
    type V = Seq<u8>;

    closed spec fn view(&self) -> Seq<u8> {
        self.source@.skip(self.pos as int)
    }
}

impl BinReader {
    #[verifier::type_invariant]
    spec fn inv(self) -> bool {
        self.pos <= self.source@.len()
    }

    /// A reader over `data`.
    pub fn new(data: Vec<u8>) -> (r: BinReader)
        ensures
            r@ == data@,
    {
        let r = BinReader { source: data, pos: 0 };
        assert(r@ =~= data@);
        r
    }

    /// The number of bytes not read yet.
    pub fn remaining(&self) -> (n: usize)
        ensures
            n == self@.len(),
    {
        proof {
            use_type_invariant(self);
        }
        self.source.len() - self.pos
    }

    fn eof_error() -> (e: Error)
        ensures
            e.is_io(),
    {
        Error::base(CoreErrorKind::IO(String::from_str("failed to fill whole buffer")))
    }

    /// Reads `width` bytes as a big-endian number.
    fn take_be(&mut self, width: usize) -> (r: Result<u128, Error>)
        requires
            width <= 16,
        ensures
            match r {
                Ok(v) => old(self)@.len() >= width && v as nat == be_value(
                    old(self)@.take(width as int),
                ) && final(self)@ == old(self)@.skip(width as int),
                Err(e) => old(self)@.len() < width && final(self)@ == old(self)@ && e.is_io(),
            },
    {
        proof {
            use_type_invariant(&*self);
        }
        if self.source.len() - self.pos < width {
            return Err(Self::eof_error());
        }
        let ghost s = old(self)@;
        let len = self.source.len();
        let mut acc: u128 = 0;
        let mut i: usize = 0;
        while i < width
            invariant
                len == self.source@.len(),
                i <= width <= 16,
                self.pos + width <= self.source@.len(),
                s == self.source@.skip(self.pos as int),
                acc as nat == be_value(s.take(i as int)),
            decreases width - i,
        {
            proof {
                lemma_be_value_bound(s.take(i as int));
                lemma_pow256_mono((i + 1) as nat, 16);
                lemma_pow256_values();
                assert(s.take(i + 1).drop_last() =~= s.take(i as int));
            }
            assert(self.pos + i < self.source@.len());
            let b = self.source[self.pos + i];
            assert(b == s.take(i + 1).last());
            acc = acc * 256 + b as u128;
            i = i + 1;
        }
        self.pos = self.pos + width;
        assert(self@ =~= s.skip(width as int));
        Ok(acc)
    }

    /// Signed counterpart of `take_be`.
    fn take_signed(&mut self, width: usize) -> (r: Result<i128, Error>)
        requires
            1 <= width <= 16,
        ensures
            match r {
                Ok(v) => old(self)@.len() >= width && v as int == from_twos(
                    be_value(old(self)@.take(width as int)),
                    width as nat,
                ) && final(self)@ == old(self)@.skip(width as int),
                Err(e) => old(self)@.len() < width && final(self)@ == old(self)@ && e.is_io(),
            },
    {
        let u = self.take_be(width)?;
        proof {
            lemma_be_value_bound(old(self)@.take(width as int));
            lemma_pow256_values();
            lemma_pow256_mono(width as nat, 16);
        }
        if width == 16 {
            if u > i128::MAX as u128 {
                let v = ((u - i128::MAX as u128 - 1) as i128) - i128::MAX - 1;
                Ok(v)
            } else {
                Ok(u as i128)
            }
        } else {
            proof {
                lemma_pow256_mono(width as nat, 15);
            }
            let p = pow_u128(width);
            if 2 * u >= p {
                Ok((u as i128) - (p as i128))
            } else {
                Ok(u as i128)
            }
        }
    }
}

impl Reader for BinReader {
    open spec fn unread(&self) -> Seq<u8> {
        self@
    }

    fn read_u8(&mut self) -> (r: Result<u8, Error>)
        ensures
            r is Err <==> old(self)@.len() < 1,
            r matches Err(e) ==> final(self)@ == old(self)@ && e.is_io(),
    {
        proof {
            lemma_be_value_bound(old(self)@.take(1));
            reveal_with_fuel(pow256, 2);
        }
        let v = self.take_be(1)?;
        Ok(v as u8)
    }

    fn read_i8(&mut self) -> (r: Result<i8, Error>)
        ensures
            r is Err <==> old(self)@.len() < 1,
            r matches Err(e) ==> final(self)@ == old(self)@ && e.is_io(),
    {
        proof {
            lemma_be_value_bound(old(self)@.take(1));
            reveal_with_fuel(pow256, 2);
        }
        let v = self.take_signed(1)?;
        Ok(v as i8)
    }

    fn read_i16(&mut self) -> (r: Result<i16, Error>)
        ensures
            r is Err <==> old(self)@.len() < 2,
            r matches Err(e) ==> final(self)@ == old(self)@ && e.is_io(),
    {
        proof {
            lemma_be_value_bound(old(self)@.take(2));
            lemma_pow256_values();
        }
        let v = self.take_signed(2)?;
        Ok(v as i16)
    }

    fn read_u16(&mut self) -> (r: Result<u16, Error>)
        ensures
            r is Err <==> old(self)@.len() < 2,
            r matches Err(e) ==> final(self)@ == old(self)@ && e.is_io(),
    {
        proof {
            lemma_be_value_bound(old(self)@.take(2));
            lemma_pow256_values();
        }
        let v = self.take_be(2)?;
        Ok(v as u16)
    }

    fn read_u32(&mut self) -> (r: Result<u32, Error>)
        ensures
            r is Err <==> old(self)@.len() < 4,
            r matches Err(e) ==> final(self)@ == old(self)@ && e.is_io(),
    {
        proof {
            lemma_be_value_bound(old(self)@.take(4));
            lemma_pow256_values();
        }
        let v = self.take_be(4)?;
        Ok(v as u32)
    }

    fn read_u64(&mut self) -> (r: Result<u64, Error>)
        ensures
            r is Err <==> old(self)@.len() < 8,
            r matches Err(e) ==> final(self)@ == old(self)@ && e.is_io(),
    {
        proof {
            lemma_be_value_bound(old(self)@.take(8));
            lemma_pow256_values();
        }
        let v = self.take_be(8)?;
        Ok(v as u64)
    }

    fn read_u128(&mut self) -> (r: Result<u128, Error>)
        ensures
            r is Err <==> old(self)@.len() < 16,
            r matches Err(e) ==> final(self)@ == old(self)@ && e.is_io(),
    {
        self.take_be(16)
    }

    fn read_i128(&mut self) -> (r: Result<i128, Error>)
        ensures
            r is Err <==> old(self)@.len() < 16,
            r matches Err(e) ==> final(self)@ == old(self)@ && e.is_io(),
    {
        self.take_signed(16)
    }

    fn read_i32(&mut self) -> (r: Result<i32, Error>)
        ensures
            r is Err <==> old(self)@.len() < 4,
            r matches Err(e) ==> final(self)@ == old(self)@ && e.is_io(),
    {
        proof {
            lemma_be_value_bound(old(self)@.take(4));
            lemma_pow256_values();
        }
        let v = self.take_signed(4)?;
        Ok(v as i32)
    }

    fn read_i64(&mut self) -> (r: Result<i64, Error>)
        ensures
            r is Err <==> old(self)@.len() < 8,
            r matches Err(e) ==> final(self)@ == old(self)@ && e.is_io(),
    {
        proof {
            lemma_be_value_bound(old(self)@.take(8));
            lemma_pow256_values();
        }
        let v = self.take_signed(8)?;
        Ok(v as i64)
    }

    fn read_fixed_bytes(&mut self, buf: &mut [u8]) -> (r: Result<(), Error>)
        ensures
            r is Err <==> old(self)@.len() < old(buf)@.len(),
            r matches Err(e) ==> final(self)@ == old(self)@ && final(buf)@ == old(buf)@
                && e.is_io(),
    {
        proof {
            use_type_invariant(&*self);
        }
        let n = buf.len();
        if self.source.len() - self.pos < n {
            return Err(Self::eof_error());
        }
        let ghost s = old(self)@;
        let len = self.source.len();
        let mut i: usize = 0;
        while i < n
            invariant
                len == self.source@.len(),
                i <= n == buf@.len(),
                self.pos + n <= self.source@.len(),
                s == self.source@.skip(self.pos as int),
                forall|k: int| 0 <= k < i ==> buf@[k] == s[k],
            decreases n - i,
        {
            assert(self.pos + i < self.source@.len());
            buf[i] = self.source[self.pos + i];
            i = i + 1;
        }
        self.pos = self.pos + n;
        assert(buf@ =~= s.take(n as int));
        assert(self@ =~= s.skip(n as int));
        Ok(())
    }

    fn read_usize(&mut self) -> (r: Result<usize, Error>)
        ensures
            r is Ok <==> old(self)@.len() >= 8 && be_value(old(self)@.take(8)) <= usize::MAX,
            r matches Err(e) ==> (old(self)@.len() < 8 ==> final(self)@ == old(self)@
                && e.is_io()) && (old(self)@.len() >= 8 ==> e.is_try_into()),
    {
        let v = self.read_u64()?;
        if v as u128 > usize::MAX as u128 {
            Err(Error::base(CoreErrorKind::TryInto(String::from_str("out of range integral type conversion attempted"))))
        } else {
            Ok(v as usize)
        }
    }

    fn expect_u8(&mut self, val: u8) -> (r: Result<u8, Error>)
        ensures
            r is Ok <==> old(self)@.len() >= 1 && old(self)@[0] == val,
            r matches Err(e) ==> (old(self)@.len() < 1 ==> final(self)@ == old(self)@
                && e.is_io()) && (old(self)@.len() >= 1 ==> final(self)@ == old(
                self,
            )@.skip(1) && e.is_corrupted()),
    {
        let ghost s = old(self)@;
        let v = self.read_u8()?;
        assert(s.take(1) =~= seq![s[0]]);
        assert(be_value(s.take(1)) == s[0] as nat) by {
            assert(s.take(1).drop_last() =~= Seq::<u8>::empty());
        }
        if v != val {
            Err(Error::base(CoreErrorKind::CorruptedData(String::from_str("unexpected byte"))))
        } else {
            Ok(v)
        }
    }

    fn read_empty_bytes(&mut self, length: usize) -> (r: Result<(), Error>)
        ensures
            r is Ok <==> old(self)@.len() >= length && forall|i: int|
                0 <= i < length ==> old(self)@[i] == 0u8,
            r matches Err(e) ==> (e.is_corrupted() <==> exists|i: int|
                0 <= i < length && i < old(self)@.len() && old(self)@[i] != 0u8),
            r matches Err(e) && e.is_corrupted() ==> exists|j: int|
                0 <= j < length && j < old(self)@.len() && old(self)@[j] != 0u8 && (forall|k: int|
                    0 <= k < j ==> old(self)@[k] == 0u8) && final(self)@ == old(self)@.skip(j + 1),
            r matches Err(e) && !e.is_corrupted() ==> final(self)@ == Seq::<u8>::empty(),
    {
        let ghost s = old(self)@;
        let mut i: usize = 0;
        while i < length
            invariant
                i <= length,
                i <= s.len(),
                s == old(self)@,
                self@ == s.skip(i as int),
                forall|k: int| 0 <= k < i ==> s[k] == 0u8,
            decreases length - i,
        {
            let ghost before = self@;
            let b = self.read_u8();
            match b {
                Ok(v) => {
                    assert(before.take(1) =~= seq![before[0]]);
                    assert(be_value(before.take(1)) == before[0] as nat) by {
                        assert(before.take(1).drop_last() =~= Seq::<u8>::empty());
                    }
                    assert(before[0] == s[i as int]);
                    if v != 0u8 {
                        assert(s[i as int] != 0u8 && i < length && i < s.len());
                        let ghost w = i as int;
                        assert(exists|k: int| 0 <= k < length && k < s.len() && s[k] != 0u8) by {
                            assert(0 <= w < length && w < s.len() && s[w] != 0u8);
                        }
                        assert(self@ =~= s.skip(w + 1));
                        assert(0 <= w < length && w < s.len() && s[w] != 0u8 && (forall|k: int|
                            0 <= k < w ==> s[k] == 0u8) && self@ == s.skip(w + 1));
                        return Err(Error::base(CoreErrorKind::CorruptedData(String::from_str("expected 0u8"))));
                    }
                    assert(self@ =~= s.skip(i + 1));
                },
                Err(e) => {
                    assert(s.len() == i);
                    assert(self@ =~= Seq::<u8>::empty());
                    assert(!exists|k: int| 0 <= k < length && k < s.len() && s[k] != 0u8);
                    return Err(e);
                },
            }
            i = i + 1;
        }
        Ok(())
    }
}

/// What `write_u8` .. `write_u128` and `write_usize` append, the matching
/// read gives back: a reader whose unread bytes start with the encoding of
/// `v` on `width` bytes reads `v` and is left with the bytes that followed.
pub proof fn law_unsigned_read_back(v: nat, width: nat, rest: Seq<u8>)
    requires
        v < pow256(width),
    ensures
        ({
            let s = be_bytes(v, width) + rest;
            &&& s.len() >= width
            &&& be_value(s.take(width as int)) == v
            &&& s.skip(width as int) == rest
        }),
{
    lemma_be_roundtrip(v, width);
    let s = be_bytes(v, width) + rest;
    assert(s.take(width as int) =~= be_bytes(v, width));
    assert(s.skip(width as int) =~= rest);
}

/// The signed writes and reads are inverse: a reader whose unread bytes
/// start with the two's complement encoding of `v` reads `v` back.
pub proof fn law_signed_read_back(v: int, width: nat, rest: Seq<u8>)
    requires
        width > 0,
        -(pow256(width) as int) <= 2 * v < pow256(width),
    ensures
        ({
            let s = be_bytes(twos(v, width), width) + rest;
            &&& s.len() >= width
            &&& from_twos(be_value(s.take(width as int)), width) == v
            &&& s.skip(width as int) == rest
        }),
{
    lemma_twos_roundtrip(v, width);
    law_unsigned_read_back(twos(v, width), width, rest);
}

/// `write_bytes` is read back by a length read followed by a fixed read of
/// that length.
pub proof fn law_bytes_read_back(bytes: Seq<u8>, rest: Seq<u8>)
    requires
        bytes.len() < pow256(8),
    ensures
        ({
            let s = length_prefixed(bytes) + rest;
            &&& s.len() >= 8 + bytes.len()
            &&& be_value(s.take(8)) == bytes.len()
            &&& s.skip(8).take(bytes.len() as int) == bytes
            &&& s.skip(8).skip(bytes.len() as int) == rest
        }),
{
    law_unsigned_read_back(bytes.len(), 8, bytes + rest);
    let s = length_prefixed(bytes) + rest;
    assert(s =~= be_bytes(bytes.len(), 8) + (bytes + rest));
    assert((bytes + rest).take(bytes.len() as int) =~= bytes);
    assert((bytes + rest).skip(bytes.len() as int) =~= rest);
}
} // verus!
