//! The chunked transfer coding of HTTP/1.1: the frames the server writes a
//! file in, and the decoder the client reads a chunked body with.
use crate::error::{CoreErrorKind, Error};
use crate::http::{eol_from, fault_error, is_eol, HeaderFault};
use crate::text::{all_digits, digit_value, digits_value, parse_unsigned, spec_parse_unsigned, utf8_str};
use vstd::prelude::*;

verus! {

/// The upper-case hexadecimal digit of `d` (below 16), as a byte.
pub open spec fn hex_byte(d: nat) -> u8 {
    if d < 10 {
        (48 + d) as u8
    } else {
        (55 + d) as u8
    }
}

/// The upper-case hexadecimal digits of `n`, as bytes.
pub open spec fn hex_digits(n: nat) -> Seq<u8>
    decreases n,
{
    if n < 16 {
        seq![hex_byte(n)]
    } else {
        hex_digits(n / 16).push(hex_byte(n % 16))
    }
}

/// A carriage return and a line feed.
pub open spec fn crlf() -> Seq<u8> {
    seq![13u8, 10u8]
}

/// The frame of one chunk: its length in hexadecimal, a line end, the
/// bytes, and a line end.
pub open spec fn chunk_frame_bytes(chunk: Seq<u8>) -> Seq<u8> {
    hex_digits(chunk.len()) + crlf() + chunk + crlf()
}

/// The frame that ends a chunked body: a chunk of length zero.
pub open spec fn last_chunk_bytes() -> Seq<u8> {
    seq![48u8, 13u8, 10u8, 13u8, 10u8]
}

/// The frames of the chunks of `cs`, in order.
pub open spec fn frames(cs: Seq<Seq<u8>>) -> Seq<u8>
    decreases cs.len(),
{
    if cs.len() == 0 {
        Seq::empty()
    } else {
        frames(cs.drop_last()) + chunk_frame_bytes(cs.last())
    }
}

/// The chunks of `cs` joined.
pub open spec fn joined(cs: Seq<Seq<u8>>) -> Seq<u8>
    decreases cs.len(),
{
    if cs.len() == 0 {
        Seq::empty()
    } else {
        joined(cs.drop_last()) + cs.last()
    }
}

/// What the decoder has read of a chunked body: the content of the chunks
/// that are wholly there, how many bytes of the body can be dropped, and
/// whether the body is complete.
pub struct ChunkedBody {
    pub content: Vec<u8>,
    pub clear_point: usize,
    pub complete: bool,
}

/// Decoding a chunked body from the size line at `itt`, with the content
/// `acc` and the clear point `clear` read so far. A size line runs up to the
/// next line end, its chunk starts two bytes after that, and the next size
/// line two bytes after the chunk. A chunk that is not wholly in `data`
/// stops the decoding, and so does the chunk of size zero, which completes
/// the body when the four bytes after its size line are there.
pub open spec fn chunk_scan(data: Seq<u8>, itt: nat, acc: Seq<u8>, clear: int) -> Result<
    (Seq<u8>, int, bool),
    HeaderFault,
>
    decreases data.len() + 2 - itt,
{
    let eb = eol_from(data, itt as int);
    if eb >= data.len() {
        Ok((acc, clear, false))
    } else {
        let line = data.subrange(itt as int, eb);
        if !vstd::utf8::valid_utf8(line) {
            Err(HeaderFault::Utf8)
        } else {
            match spec_parse_unsigned(line, 16) {
                None => Err(HeaderFault::Parse),
                Some(size) => if size > usize::MAX {
                    Err(HeaderFault::Parse)
                } else if size == 0 {
                    if eb + 4 <= data.len() {
                        Ok((acc, eb + 4, true))
                    } else {
                        Ok((acc, eb, false))
                    }
                } else {
                    let start = eb + 2;
                    let end = start + size;
                    if end >= data.len() {
                        Ok((acc, clear, false))
                    } else {
                        proof {
                            lemma_eol_at_or_after(data, itt as int);
                        }
                        chunk_scan(data, (eb + size + 4) as nat, acc + data.subrange(start, end), end)
                    }
                },
            }
        }
    }
}

/// Decoding a whole chunked body.
pub open spec fn decode_chunked_spec(data: Seq<u8>) -> Result<(Seq<u8>, int, bool), HeaderFault> {
    chunk_scan(data, 0, Seq::empty(), 0)
}

pub proof fn lemma_eol_at_or_after(data: Seq<u8>, i: int)
    requires
        0 <= i,
    ensures
        eol_from(data, i) < data.len() ==> i <= eol_from(data, i),
        eol_from(data, i) <= data.len(),
        forall|k: int| i <= k < eol_from(data, i) ==> !is_eol(#[trigger] data[k]),
        eol_from(data, i) < data.len() ==> is_eol(data[eol_from(data, i)]),
    decreases data.len() - i,
{
    if i < data.len() && !is_eol(data[i]) {
        lemma_eol_at_or_after(data, i + 1);
    }
}

fn find_line_end(data: &[u8], start: usize) -> (r: usize)
    ensures
        r == eol_from(data@, start as int),
{
    let len = data.len();
    let mut i = start;
    if i >= len {
        return len;
    }
    while i < len
        invariant
            len == data@.len(),
            start <= i <= len,
            eol_from(data@, start as int) == eol_from(data@, i as int),
        decreases len - i,
    {
        if data[i] == 13 || data[i] == 10 {
            return i;
        }
        i = i + 1;
    }
    i
}

/// Decodes the chunked body at the start of `data`: the content of the
/// chunks that are wholly there, how much of `data` they take, and whether
/// the final chunk was seen. A size line that is not UTF-8 or not a
/// hexadecimal number that fits a `usize` is an error.
pub fn decode_chunked(data: &[u8]) -> (r: Result<ChunkedBody, Error>)
    requires
        data@.len() < usize::MAX,
    ensures
        match decode_chunked_spec(data@) {
            Ok((content, clear, complete)) => r matches Ok(b) && b.content@ == content
                && b.clear_point == clear && b.complete == complete,
            Err(f) => r matches Err(e) && fault_error(e, f),
        },
{
    let len = data.len();
    let mut itt: usize = 0;
    let mut ndata: Vec<u8> = Vec::new();
    let mut clear_point: usize = 0;
    loop
        invariant
            len == data@.len(),
            len < usize::MAX,
            itt <= len + 1,
            clear_point <= len,
            decode_chunked_spec(data@) == chunk_scan(data@, itt as nat, ndata@, clear_point as int),
        decreases len + 2 - itt,
    {
        let eb = find_line_end(data, itt);
        proof {
            lemma_eol_at_or_after(data@, itt as int);
        }
        if eb >= len {
            return Ok(ChunkedBody { content: ndata, clear_point, complete: false });
        }
        let line = vstd::slice::slice_subrange(data, itt, eb);
        if utf8_str(line).is_none() {
            return Err(Error::base(CoreErrorKind::Utf8(String::from_str("invalid utf-8 sequence"))));
        }
        let size = match parse_unsigned(data, itt, eb, 16) {
            Some(v) => v,
            None => {
                return Err(
                    Error::base(CoreErrorKind::Parse(String::from_str("invalid digit found in string"))),
                );
            },
        };
        if size == 0 {
            if len - eb >= 4 {
                return Ok(ChunkedBody { content: ndata, clear_point: eb + 4, complete: true });
            } else {
                return Ok(ChunkedBody { content: ndata, clear_point: eb, complete: false });
            }
        }
        let remaining = len - eb;
        if size >= remaining || remaining - size <= 2 {
            return Ok(ChunkedBody { content: ndata, clear_point, complete: false });
        }
        let start = eb + 2;
        let end = start + size;
        let ghost old_acc = ndata@;
        let mut k = start;
        while k < end
            invariant
                start <= k <= end < len,
                len == data@.len(),
                ndata@ == old_acc + data@.subrange(start as int, k as int),
            decreases end - k,
        {
            ndata.push(data[k]);
            assert(ndata@ =~= old_acc + data@.subrange(start as int, k + 1));
            k = k + 1;
        }
        clear_point = end;
        itt = end + 2;
    }
}

/// Appends the upper-case hexadecimal digits of `n`.
fn push_hex(out: &mut Vec<u8>, n: usize)
    ensures
        final(out)@ == old(out)@ + hex_digits(n as nat),
    decreases n,
{
    if n >= 16 {
        push_hex(out, n / 16);
    }
    let d = n % 16;
    let b: u8 = if d < 10 {
        (48 + d) as u8
    } else {
        (55 + d) as u8
    };
    out.push(b);
    assert(final(out)@ =~= old(out)@ + hex_digits(n as nat));
}

/// The frame of one chunk of a chunked body.
pub fn chunk_frame(chunk: &[u8]) -> (r: Vec<u8>)
    ensures
        r@ == chunk_frame_bytes(chunk@),
{
    let mut out: Vec<u8> = Vec::new();
    push_hex(&mut out, chunk.len());
    out.push(13);
    out.push(10);
    let ghost head = out@;
    let n = chunk.len();
    let mut i: usize = 0;
    while i < n
        invariant
            n == chunk@.len(),
            i <= n,
            out@ == head + chunk@.subrange(0, i as int),
        decreases n - i,
    {
        out.push(chunk[i]);
        assert(out@ =~= head + chunk@.subrange(0, i + 1));
        i = i + 1;
    }
    out.push(13);
    out.push(10);
    assert(out@ =~= chunk_frame_bytes(chunk@));
    out
}

/// The frame that ends a chunked body.
pub fn last_chunk() -> (r: Vec<u8>)
    ensures
        r@ == last_chunk_bytes(),
{
    let r = vec![48u8, 13u8, 10u8, 13u8, 10u8];
    assert(r@ =~= last_chunk_bytes());
    r
}

/// A byte that is an upper-case hexadecimal digit.
pub open spec fn is_hex_byte(b: u8) -> bool {
    48 <= b <= 57 || 65 <= b <= 70
}

proof fn lemma_hex_digits(n: nat)
    ensures
        hex_digits(n).len() > 0,
        forall|i: int| 0 <= i < hex_digits(n).len() ==> is_hex_byte(#[trigger] hex_digits(n)[i]),
        all_digits(hex_digits(n), 16),
        digits_value(hex_digits(n), 16) == n,
    decreases n,
{
    let h = hex_digits(n);
    if n < 16 {
        assert(h[0] == hex_byte(n));
        assert(digit_value(h[0], 16) == Some(n));
        assert(h.drop_last() =~= Seq::<u8>::empty());
        assert(digits_value(h, 16) == digits_value(h.drop_last(), 16) * 16 + n);
    } else {
        lemma_hex_digits(n / 16);
        let p = hex_digits(n / 16);
        let d = (n % 16) as nat;
        assert(h == p.push(hex_byte(d)));
        assert(h.drop_last() =~= p);
        assert(digit_value(hex_byte(d), 16) == Some(d));
        assert forall|i: int| 0 <= i < h.len() implies is_hex_byte(#[trigger] h[i]) by {
            if i < p.len() {
                assert(h[i] == p[i]);
            }
        }
        assert forall|i: int| 0 <= i < h.len() implies #[trigger] digit_value(h[i], 16) is Some by {
            if i < p.len() {
                assert(h[i] == p[i]);
            }
        }
        assert(digits_value(h, 16) == digits_value(p, 16) * 16 + d);
    }
}

proof fn lemma_ascii_valid(b: Seq<u8>)
    requires
        forall|i: int| 0 <= i < b.len() ==> #[trigger] b[i] < 128,
    ensures
        vstd::utf8::valid_utf8(b),
    decreases b.len(),
{
    if b.len() > 0 {
        let b0 = b[0];
        assert(b0 < 128);
        assert(b0 & 0x7f <= 0x7f) by (bit_vector);
        assert(vstd::utf8::valid_first_scalar(b));
        let rest = b.subrange(1, b.len() as int);
        assert(vstd::utf8::pop_first_scalar(b) =~= rest);
        assert forall|i: int| 0 <= i < rest.len() implies #[trigger] rest[i] < 128 by {
            assert(rest[i] == b[i + 1]);
        }
        lemma_ascii_valid(rest);
    }
}

proof fn lemma_eol_exact(data: Seq<u8>, i: int, e: int)
    requires
        0 <= i <= e < data.len(),
        is_eol(data[e]),
        forall|k: int| i <= k < e ==> !is_eol(#[trigger] data[k]),
    ensures
        eol_from(data, i) == e,
    decreases e - i,
{
    if i < e {
        lemma_eol_exact(data, i + 1, e);
    }
}

proof fn lemma_frames_append(a: Seq<Seq<u8>>, b: Seq<Seq<u8>>)
    ensures
        frames(a + b) == frames(a) + frames(b),
        joined(a + b) == joined(a) + joined(b),
    decreases b.len(),
{
    if b.len() == 0 {
        assert(a + b =~= a);
        assert(frames(a) + frames(b) =~= frames(a));
        assert(joined(a) + joined(b) =~= joined(a));
    } else {
        lemma_frames_append(a, b.drop_last());
        assert((a + b).drop_last() =~= a + b.drop_last());
        assert((a + b).last() == b.last());
        assert(frames(a + b) =~= frames(a) + frames(b));
        assert(joined(a + b) =~= joined(a) + joined(b));
    }
}

proof fn lemma_frames_one(c: Seq<u8>)
    ensures
        frames(seq![c]) == chunk_frame_bytes(c),
        joined(seq![c]) == c,
{
    let s = seq![c];
    let e = s.drop_last();
    assert(e =~= Seq::<Seq<u8>>::empty());
    assert(s.last() == c);
    assert(frames(e) == Seq::<u8>::empty());
    assert(joined(e) == Seq::<u8>::empty());
    assert(frames(s) =~= chunk_frame_bytes(c));
    assert(joined(s) =~= c);
}

/// What the decoder reads at the frame of a chunk `c` that starts at `p`
/// in `d` and is followed by more bytes.
proof fn lemma_frame_at(d: Seq<u8>, pre: Seq<u8>, c: Seq<u8>, t: Seq<u8>)
    requires
        d == pre + chunk_frame_bytes(c) + t,
        0 < c.len() <= usize::MAX,
        t.len() > 0,
    ensures
        ({
            let p = pre.len() as int;
            let hl = hex_digits(c.len()).len() as int;
            &&& eol_from(d, p) == p + hl
            &&& p + hl < d.len()
            &&& vstd::utf8::valid_utf8(d.subrange(p, p + hl))
            &&& spec_parse_unsigned(d.subrange(p, p + hl), 16) == Some(c.len())
            &&& d.subrange(p + hl + 2, p + hl + 2 + c.len()) == c
            &&& p + hl + 2 + c.len() < d.len()
        }),
{
    let p = pre.len() as int;
    let f = chunk_frame_bytes(c);
    let h = hex_digits(c.len());
    lemma_hex_digits(c.len());
    let hl = h.len() as int;
    assert forall|k: int| 0 <= k < f.len() implies #[trigger] d[p + k] == f[k] by {}
    assert(d[p + hl] == f[hl]);
    assert(f[hl] == 13);
    assert forall|k: int| p <= k < p + hl implies !is_eol(#[trigger] d[k]) by {
        assert(d[p + (k - p)] == f[k - p]);
        assert(f[k - p] == h[k - p]);
        assert(is_hex_byte(h[k - p]));
    }
    lemma_eol_exact(d, p, p + hl);
    let line = d.subrange(p, p + hl);
    assert(line =~= h) by {
        assert forall|k: int| 0 <= k < hl implies line[k] == h[k] by {
            assert(d[p + k] == f[k]);
        }
    }
    assert forall|k: int| 0 <= k < h.len() implies #[trigger] h[k] < 128 by {
        assert(is_hex_byte(h[k]));
    }
    lemma_ascii_valid(h);
    assert(is_hex_byte(h[0]));
    let start = p + hl + 2;
    let end = start + c.len();
    assert(d.subrange(start, end) =~= c) by {
        assert forall|k: int| 0 <= k < c.len() implies d.subrange(start, end)[k] == c[k] by {
            assert(d[p + (hl + 2 + k)] == f[hl + 2 + k]);
        }
    }
}

proof fn lemma_scan_last(cs: Seq<Seq<u8>>, clear: int)
    ensures
        chunk_scan(frames(cs) + last_chunk_bytes(), frames(cs).len(), joined(cs), clear)
            == Ok::<(Seq<u8>, int, bool), HeaderFault>(
            (joined(cs), (frames(cs) + last_chunk_bytes()).len() as int, true),
        ),
{
    let d = frames(cs) + last_chunk_bytes();
    let p: int = frames(cs).len() as int;
    assert(d[p] == 48);
    assert(d[p + 1] == 13);
    lemma_eol_exact(d, p, p + 1);
    let line = d.subrange(p, p + 1);
    assert(line =~= seq![48u8]);
    assert forall|k: int| 0 <= k < line.len() implies #[trigger] line[k] < 128 by {}
    lemma_ascii_valid(line);
    assert(line.drop_last() =~= Seq::<u8>::empty());
    assert(digit_value(line[0], 16) == Some(0nat));
    assert(all_digits(line, 16));
    assert(digits_value(line.drop_last(), 16) == 0);
    assert(line.last() == line[0]);
    assert(digits_value(line, 16) == 0);
    assert(spec_parse_unsigned(line, 16) == Some(0nat));
}

/// Decoding from the frame of chunk `j` on, with the chunks before it read.
proof fn lemma_scan_frames(cs: Seq<Seq<u8>>, j: nat, clear: int)
    requires
        j <= cs.len(),
        forall|i: int| 0 <= i < cs.len() ==> 0 < #[trigger] cs[i].len() <= usize::MAX,
    ensures
        chunk_scan(
            frames(cs) + last_chunk_bytes(),
            frames(cs.take(j as int)).len(),
            joined(cs.take(j as int)),
            clear,
        ) == Ok::<(Seq<u8>, int, bool), HeaderFault>(
            (joined(cs), (frames(cs) + last_chunk_bytes()).len() as int, true),
        ),
    decreases cs.len() - j,
{
    let d = frames(cs) + last_chunk_bytes();
    let pre = cs.take(j as int);
    if j == cs.len() {
        assert(pre =~= cs);
        lemma_scan_last(cs, clear);
    } else {
        let c = cs[j as int];
        let rest = cs.skip(j as int + 1);
        assert(cs =~= pre + (seq![c] + rest));
        lemma_frames_append(pre, seq![c] + rest);
        lemma_frames_append(seq![c], rest);
        lemma_frames_one(c);
        let t = frames(rest) + last_chunk_bytes();
        assert(d =~= frames(pre) + chunk_frame_bytes(c) + t);
        lemma_frame_at(d, frames(pre), c, t);
        let p: int = frames(pre).len() as int;
        let hl: int = hex_digits(c.len()).len() as int;
        let end = p + hl + 2 + c.len();
        let next = pre.push(c);
        assert(cs.take((j + 1) as int) =~= next);
        assert(next.drop_last() =~= pre);
        assert(frames(next) == frames(pre) + chunk_frame_bytes(c));
        assert(joined(next) == joined(pre) + c);
        assert(frames(next).len() == p + hl + 4 + c.len());
        lemma_scan_frames(cs, (j + 1) as nat, end);
    }
}

/// Decoding the frames of non-empty chunks followed by the final frame gives
/// back the chunks joined, takes all of the bytes, and completes the body.
pub proof fn law_chunked_round_trip(cs: Seq<Seq<u8>>)
    requires
        forall|i: int| 0 <= i < cs.len() ==> 0 < #[trigger] cs[i].len() <= usize::MAX,
    ensures
        decode_chunked_spec(frames(cs) + last_chunk_bytes()) == Ok::<(Seq<u8>, int, bool), HeaderFault>(
            (joined(cs), (frames(cs) + last_chunk_bytes()).len() as int, true),
        ),
{
    assert(cs.take(0) =~= Seq::<Seq<u8>>::empty());
    lemma_scan_frames(cs, 0, 0);
}

} // verus!
