//! WebSocket framing (RFC 6455): encoding messages into frames, decoding
//! frame headers, and assembling the messages a byte buffer holds.
use crate::error::{CoreErrorKind, ErrKind, Error};
use crate::text::{decimal, to_decimal};
use crate::ser::{be_bytes, be_read, be_value, push_be, lemma_be_roundtrip, lemma_be_value_bound, lemma_pow256_values, pow256};
use base64::Engine;
use rand::RngCore;
use sha1::Digest;
use vstd::prelude::*;

verus! {

/// The kind of a frame, from its opcode.
#[derive(Clone, Copy, Debug, PartialEq, Eq, Structural)]
pub enum FrameType {
    Continuation,
    Text,
    Binary,
    Close,
    Ping,
    Pong,
}

/// The kind of a message.
#[derive(Clone, Copy, Debug, PartialEq, Eq, Structural)]
pub enum WebSocketMessageType {
    Text,
    Binary,
    Close,
    Ping,
    Pong,
}

/// The decoded header of one frame.
#[derive(Clone, Copy, Debug, PartialEq, Eq, Structural)]
pub struct FrameHeader {
    pub ftype: FrameType,
    pub mask: bool,
    pub fin: bool,
    pub payload_len: usize,
    pub masking_key: u32,
    pub start_content: usize,
}

/// A message: its kind and its (unmasked) payload.
#[derive(Clone, Debug, PartialEq, Eq)]
pub struct WebSocketMessage {
    pub mtype: WebSocketMessageType,
    pub payload: Vec<u8>,
}

/// The mathematical value of a message.
pub type MessageView = (WebSocketMessageType, Seq<u8>);

impl View for WebSocketMessage {
    type V = MessageView;

    open spec fn view(&self) -> MessageView {
        (self.mtype, self.payload@)
    }
}

/// What the bytes at the start of a buffer say about a frame.
pub enum FrameScan {
    /// Not all of the frame is there yet.
    Incomplete,
    /// The opcode is not one of the supported ones.
    BadOpcode,
    /// The declared payload cannot be addressed in memory.
    TooLong,
    /// A whole frame is there.
    Header(FrameHeader),
}

/// Why a buffer could not be turned into messages.
pub enum FrameError {
    BadOpcode,
    TooLong,
    UnfinishedPing,
}

/// The frame type of the opcode `n` (the low four bits of the first byte).
pub open spec fn opcode_frame_type(n: u8) -> Option<FrameType> {
    if n == 0 {
        Some(FrameType::Continuation)
    } else if n == 1 {
        Some(FrameType::Text)
    } else if n == 2 {
        Some(FrameType::Binary)
    } else if n == 8 {
        Some(FrameType::Close)
    } else if n == 9 {
        Some(FrameType::Ping)
    } else if n == 10 {
        Some(FrameType::Pong)
    } else {
        None
    }
}

/// The opcode of a message kind.
pub open spec fn opcode_of(t: WebSocketMessageType) -> u8 {
    match t {
        WebSocketMessageType::Text => 1,
        WebSocketMessageType::Binary => 2,
        WebSocketMessageType::Close => 8,
        WebSocketMessageType::Ping => 9,
        WebSocketMessageType::Pong => 10,
    }
}

/// The message kind a frame type gives (continuation frames give text).
pub open spec fn message_type_of(t: FrameType) -> WebSocketMessageType {
    match t {
        FrameType::Text => WebSocketMessageType::Text,
        FrameType::Binary => WebSocketMessageType::Binary,
        FrameType::Ping => WebSocketMessageType::Ping,
        FrameType::Pong => WebSocketMessageType::Pong,
        FrameType::Close => WebSocketMessageType::Close,
        FrameType::Continuation => WebSocketMessageType::Text,
    }
}

/// Number of extended payload length bytes for the 7-bit length field `p`.
pub open spec fn ext_len(p: u8) -> int {
    if p == 126 {
        2
    } else if p == 127 {
        8
    } else {
        0
    }
}

/// The frame header at the start of `buf`.
pub open spec fn spec_frame_header(buf: Seq<u8>) -> FrameScan {
    if buf.len() < 2 {
        FrameScan::Incomplete
    } else {
        match opcode_frame_type(buf[0] % 16) {
            None => FrameScan::BadOpcode,
            Some(ft) => {
                let fin = buf[0] >= 128;
                let mask = buf[1] >= 128;
                let p = buf[1] % 128;
                let ext = ext_len(p);
                if buf.len() < 2 + ext {
                    FrameScan::Incomplete
                } else {
                    let plen: nat = if ext > 0 {
                        be_value(buf.subrange(2, 2 + ext))
                    } else {
                        p as nat
                    };
                    let start: int = 2 + ext + if mask {
                        4int
                    } else {
                        0int
                    };
                    if plen + start > usize::MAX {
                        FrameScan::TooLong
                    } else if buf.len() < start + plen {
                        FrameScan::Incomplete
                    } else {
                        FrameScan::Header(
                            FrameHeader {
                                ftype: ft,
                                mask,
                                fin,
                                payload_len: plen as usize,
                                masking_key: if mask {
                                    be_value(buf.subrange(2 + ext, 6 + ext)) as u32
                                } else {
                                    0u32
                                },
                                start_content: start as usize,
                            },
                        )
                    }
                }
            },
        }
    }
}

/// The four masking bytes of a masking key, most significant first.
pub open spec fn mask_bytes(key: u32) -> Seq<u8> {
    be_bytes(key as nat, 4)
}

/// `data` xor-ed byte by byte with the repeated masking bytes of `key`.
pub open spec fn apply_mask(data: Seq<u8>, key: u32) -> Seq<u8> {
    Seq::new(data.len(), |i: int| data[i] ^ mask_bytes(key)[i % 4])
}

/// The unmasked payload of a frame found at `offset` of `buf`.
pub open spec fn frame_payload(h: FrameHeader, offset: nat, buf: Seq<u8>) -> Seq<u8> {
    let start = offset + h.start_content;
    apply_mask(buf.subrange(start, start + h.payload_len), h.masking_key)
}

/// The payloads of `frames`, one after the other.
pub open spec fn frames_payload(frames: Seq<(FrameHeader, nat)>, buf: Seq<u8>) -> Seq<u8>
    decreases frames.len(),
{
    if frames.len() == 0 {
        Seq::empty()
    } else {
        frames_payload(frames.drop_last(), buf) + frame_payload(
            frames.last().0,
            frames.last().1,
            buf,
        )
    }
}

/// The message the frames of one message make: the kind of the first frame,
/// and the concatenated payloads.
pub open spec fn spec_build_message(frames: Seq<(FrameHeader, nat)>, buf: Seq<u8>) -> MessageView {
    (
        if frames.len() == 0 {
            WebSocketMessageType::Text
        } else {
            message_type_of(frames[0].0.ftype)
        },
        frames_payload(frames, buf),
    )
}

pub proof fn lemma_header_fits(buf: Seq<u8>)
    ensures
        spec_frame_header(buf) matches FrameScan::Header(h) ==> 2 <= h.start_content
            && h.start_content + h.payload_len <= buf.len(),
{
}

/// The messages of `buf` from `offset` on, given the frames of an unfinished
/// message seen so far (`pending`) and the messages assembled so far
/// (`done`): the messages and the offset just after the last whole frame.
pub open spec fn spec_build_from(
    buf: Seq<u8>,
    offset: nat,
    pending: Seq<(FrameHeader, nat)>,
    done: Seq<MessageView>,
) -> Result<(Seq<MessageView>, nat), FrameError>
    decreases buf.len() - offset,
{
    if offset > buf.len() {
        Ok((done, offset))
    } else {
        match spec_frame_header(buf.skip(offset as int)) {
            FrameScan::Incomplete => Ok((done, offset)),
            FrameScan::BadOpcode => Err(FrameError::BadOpcode),
            FrameScan::TooLong => Err(FrameError::TooLong),
            FrameScan::Header(h) => {
                proof {
                    lemma_header_fits(buf.skip(offset as int));
                }
                let end = (offset + h.start_content + h.payload_len) as nat;
                if h.fin {
                    spec_build_from(
                        buf,
                        end,
                        Seq::empty(),
                        done.push(spec_build_message(pending.push((h, offset)), buf)),
                    )
                } else if h.ftype == FrameType::Ping {
                    Err(FrameError::UnfinishedPing)
                } else {
                    spec_build_from(buf, end, pending.push((h, offset)), done)
                }
            },
        }
    }
}

/// The messages a buffer holds and the offset up to which it was consumed.
pub open spec fn spec_build_messages(buf: Seq<u8>) -> Result<(Seq<MessageView>, nat), FrameError> {
    spec_build_from(buf, 0, Seq::empty(), Seq::empty())
}

/// The frame of a message: final, with the opcode of its kind, masked with
/// `key` when there is one.
pub open spec fn spec_encode(m: MessageView, key: Option<u32>) -> Seq<u8> {
    let len = m.1.len();
    let b0 = (128 + opcode_of(m.0)) as u8;
    let mbit: nat = if key is Some {
        128
    } else {
        0
    };
    let head = if len < 126 {
        seq![b0, (mbit + len) as u8]
    } else if len <= 65535 {
        seq![b0, (mbit + 126) as u8] + be_bytes(len, 2)
    } else {
        seq![b0, (mbit + 127) as u8] + be_bytes(len, 8)
    };
    match key {
        Some(k) => head + mask_bytes(k) + apply_mask(m.1, k),
        None => head + m.1,
    }
}

/// The error a failed frame scan is reported with.
pub open spec fn frame_error_matches(e: Error, f: FrameError) -> bool {
    match f {
        FrameError::BadOpcode => e.is_illegal_argument(),
        FrameError::UnfinishedPing => e.is_illegal_argument(),
        FrameError::TooLong => e.spec_kind() matches ErrKind::Core(CoreErrorKind::TryFrom(_)),
    }
}

/// Decodes the frame header that starts at `offset` of `buffer`.
pub fn frame_header_at(buffer: &[u8], offset: usize) -> (r: Result<Option<FrameHeader>, Error>)
    requires
        offset <= buffer@.len(),
    ensures
        match spec_frame_header(buffer@.skip(offset as int)) {
            FrameScan::Incomplete => r == Ok::<Option<FrameHeader>, Error>(None),
            FrameScan::BadOpcode => r matches Err(e) && e.is_illegal_argument(),
            FrameScan::TooLong => r matches Err(e) && frame_error_matches(e, FrameError::TooLong),
            FrameScan::Header(h) => r == Ok::<Option<FrameHeader>, Error>(Some(h)),
        },
{
    let ghost s = buffer@.skip(offset as int);
    let len = buffer.len() - offset;
    if len < 2 {
        return Ok(None);
    }
    let b0 = buffer[offset];
    let b1 = buffer[offset + 1];
    let fin = b0 >= 128;
    let n = b0 % 16;
    let ftype = if n == 0 {
        FrameType::Continuation
    } else if n == 1 {
        FrameType::Text
    } else if n == 2 {
        FrameType::Binary
    } else if n == 8 {
        FrameType::Close
    } else if n == 9 {
        FrameType::Ping
    } else if n == 10 {
        FrameType::Pong
    } else {
        return Err(Error::new(ErrKind::IllegalArgument(String::from_str("invalid websocket opcode"))));
    };
    let mask = b1 >= 128;
    let p = b1 % 128;
    let ext: usize = if p == 126 {
        2
    } else if p == 127 {
        8
    } else {
        0
    };
    if len < 2 + ext {
        return Ok(None);
    }
    proof {
        lemma_pow256_values();
        if ext > 0 {
            lemma_be_value_bound(buffer@.subrange(offset + 2, offset + 2 + ext));
        }
        assert(buffer@.subrange(offset + 2, offset + 2 + ext) =~= s.subrange(2, 2 + ext));
    }
    let plen: u128 = if ext > 0 {
        be_read(buffer, offset + 2, ext)
    } else {
        p as u128
    };
    let start: usize = 2 + ext + if mask {
        4
    } else {
        0
    };
    if plen > (usize::MAX - start) as u128 {
        return Err(Error::base(CoreErrorKind::TryFrom(String::from_str("out of range integral type conversion attempted"))));
    }
    let payload_len = plen as usize;
    if len < start + payload_len {
        return Ok(None);
    }
    let masking_key: u32 = if mask {
        proof {
            lemma_be_value_bound(buffer@.subrange(offset + 2 + ext, offset + 6 + ext));
            assert(buffer@.subrange(offset + 2 + ext, offset + 6 + ext) =~= s.subrange(
                2 + ext,
                6 + ext,
            ));
        }
        be_read(buffer, offset + 2 + ext, 4) as u32
    } else {
        0
    };
    Ok(Some(FrameHeader { ftype, mask, fin, payload_len, masking_key, start_content: start }))
}

/// Decodes the frame header at the start of `buffer`: `None` when the frame
/// is not all there yet.
pub fn get_frame_header_info(buffer: &[u8]) -> (r: Result<Option<FrameHeader>, Error>)
    ensures
        match spec_frame_header(buffer@) {
            FrameScan::Incomplete => r == Ok::<Option<FrameHeader>, Error>(None),
            FrameScan::BadOpcode => r matches Err(e) && e.is_illegal_argument(),
            FrameScan::TooLong => r matches Err(e) && frame_error_matches(e, FrameError::TooLong),
            FrameScan::Header(h) => r == Ok::<Option<FrameHeader>, Error>(Some(h)),
        },
{
    assert(buffer@.skip(0) =~= buffer@);
    frame_header_at(buffer, 0)
}

/// The four masking bytes of `key`.
fn masking_bytes(key: u32) -> (r: Vec<u8>)
    ensures
        r@ == mask_bytes(key),
{
    let mut r = Vec::new();
    push_be(&mut r, key as u128, 4);
    assert(r@ =~= mask_bytes(key));
    r
}

/// Appends `data` xor-ed with the repeated masking bytes of `key`.
fn push_masked(out: &mut Vec<u8>, buffer: &[u8], start: usize, end: usize, key: u32)
    requires
        start <= end <= buffer@.len(),
    ensures
        final(out)@ == old(out)@ + apply_mask(buffer@.subrange(start as int, end as int), key),
{
    let kb = masking_bytes(key);
    proof {
        crate::ser::lemma_be_bytes_len(key as nat, 4);
    }
    let ghost data = buffer@.subrange(start as int, end as int);
    let ghost base = out@;
    let mut i: usize = start;
    while i < end
        invariant
            start <= i <= end <= buffer@.len(),
            kb@ == mask_bytes(key),
            kb@.len() == 4,
            data == buffer@.subrange(start as int, end as int),
            out@ == base + apply_mask(data, key).take(i - start),
        decreases end - i,
    {
        let j = (i - start) % 4;
        out.push(buffer[i] ^ kb[j]);
        i = i + 1;
        assert(out@ =~= base + apply_mask(data, key).take(i - start));
    }
    assert(apply_mask(data, key).take(end - start) =~= apply_mask(data, key));
}

/// Assembles the message of `frames`, frames found in `buffer` at the given
/// offsets.
pub fn build_message(frames: &Vec<(FrameHeader, usize)>, buffer: &[u8]) -> (r: Result<WebSocketMessage, Error>)
    requires
        forall|i: int|
            0 <= i < frames@.len() ==> frames@[i].1 + frames@[i].0.start_content
                + frames@[i].0.payload_len <= buffer@.len(),
    ensures
        r matches Ok(m) && m@ == spec_build_message(
            frames@.map_values(|f: (FrameHeader, usize)| (f.0, f.1 as nat)),
            buffer@,
        ),
{
    let ghost fs = frames@.map_values(|f: (FrameHeader, usize)| (f.0, f.1 as nat));
    let mut payload: Vec<u8> = Vec::new();
    let mut mtype = WebSocketMessageType::Text;
    let blen = buffer.len();
    let mut k: usize = 0;
    while k < frames.len()
        invariant
            blen == buffer@.len(),
            k <= frames@.len(),
            fs == frames@.map_values(|f: (FrameHeader, usize)| (f.0, f.1 as nat)),
            forall|i: int|
                0 <= i < frames@.len() ==> frames@[i].1 + frames@[i].0.start_content
                    + frames@[i].0.payload_len <= buffer@.len(),
            payload@ == frames_payload(fs.take(k as int), buffer@),
            mtype == (if k == 0 {
                WebSocketMessageType::Text
            } else {
                message_type_of(fs[0].0.ftype)
            }),
        decreases frames@.len() - k,
    {
        let (header, offset) = frames[k];
        let start = header.start_content + offset;
        let end = header.payload_len + start;
        push_masked(&mut payload, buffer, start, end, header.masking_key);
        if k == 0 {
            mtype = match header.ftype {
                FrameType::Text => WebSocketMessageType::Text,
                FrameType::Binary => WebSocketMessageType::Binary,
                FrameType::Ping => WebSocketMessageType::Ping,
                FrameType::Pong => WebSocketMessageType::Pong,
                FrameType::Close => WebSocketMessageType::Close,
                FrameType::Continuation => WebSocketMessageType::Text,
            };
        }
        proof {
            assert(fs.take(k + 1).drop_last() =~= fs.take(k as int));
            assert(fs.take(k + 1).last() == fs[k as int]);
        }
        k = k + 1;
    }
    assert(fs.take(frames@.len() as int) =~= fs);
    Ok(WebSocketMessage { mtype, payload })
}

/// Splits `buffer` into the messages it holds. Returns the messages and the
/// offset just after the last whole frame; the frames of a message whose
/// final frame has not arrived yet are passed over.
pub fn build_messages(buffer: &[u8]) -> (r: Result<(Vec<WebSocketMessage>, usize), Error>)
    ensures
        match spec_build_messages(buffer@) {
            Ok((msgs, off)) => r matches Ok((v, o)) && v@.map_values(|m: WebSocketMessage| m@)
                == msgs && o == off,
            Err(f) => r matches Err(e) && frame_error_matches(e, f),
        },
{
    let mut ret: Vec<WebSocketMessage> = Vec::new();
    let mut headers: Vec<(FrameHeader, usize)> = Vec::new();
    let mut offset: usize = 0;
    let blen = buffer.len();
    assert(headers@.map_values(|f: (FrameHeader, usize)| (f.0, f.1 as nat)) =~= Seq::<
        (FrameHeader, nat),
    >::empty());
    assert(ret@.map_values(|m: WebSocketMessage| m@) =~= Seq::<MessageView>::empty());
    loop
        invariant
            blen == buffer@.len(),
            offset <= buffer@.len(),
            forall|i: int|
                0 <= i < headers@.len() ==> headers@[i].1 + headers@[i].0.start_content
                    + headers@[i].0.payload_len <= buffer@.len(),
            spec_build_messages(buffer@) == spec_build_from(
                buffer@,
                offset as nat,
                headers@.map_values(|f: (FrameHeader, usize)| (f.0, f.1 as nat)),
                ret@.map_values(|m: WebSocketMessage| m@),
            ),
        decreases buffer@.len() - offset,
    {
        let ghost pend = headers@.map_values(|f: (FrameHeader, usize)| (f.0, f.1 as nat));
        let ghost done = ret@.map_values(|m: WebSocketMessage| m@);
        let header = frame_header_at(buffer, offset);
        proof {
            lemma_header_fits(buffer@.skip(offset as int));
        }
        match header {
            Err(e) => {
                return Err(e);
            },
            Ok(None) => {
                return Ok((ret, offset));
            },
            Ok(Some(header)) => {
                let end_content = header.start_content + header.payload_len;
                if header.fin {
                    headers.push((header, offset));
                    proof {
                        assert(headers@.map_values(|f: (FrameHeader, usize)| (f.0, f.1 as nat))
                            =~= pend.push((header, offset as nat)));
                    }
                    let message = build_message(&headers, buffer)?;
                    ret.push(message);
                    headers = Vec::new();
                    proof {
                        assert(headers@.map_values(|f: (FrameHeader, usize)| (f.0, f.1 as nat))
                            =~= Seq::<(FrameHeader, nat)>::empty());
                        assert(ret@.map_values(|m: WebSocketMessage| m@) =~= done.push(
                            message@,
                        ));
                    }
                } else {
                    if header.ftype == FrameType::Ping {
                        return Err(Error::new(ErrKind::IllegalArgument(String::from_str("frametype 'Ping' must set fin = true."))));
                    }
                    headers.push((header, offset));
                    proof {
                        assert(headers@.map_values(|f: (FrameHeader, usize)| (f.0, f.1 as nat))
                            =~= pend.push((header, offset as nat)));
                    }
                }
                offset = offset + end_content;
            },
        }
    }
}

/// The frame of `ws`, masked with `masking_key` when there is one.
pub fn encode_message(ws: &WebSocketMessage, masking_key: Option<u32>) -> (r: Vec<u8>)
    ensures
        r@ == spec_encode(ws@, masking_key),
{
    let payload_len = ws.payload.len();
    let op: u8 = match ws.mtype {
        WebSocketMessageType::Text => 1,
        WebSocketMessageType::Binary => 2,
        WebSocketMessageType::Close => 8,
        WebSocketMessageType::Ping => 9,
        WebSocketMessageType::Pong => 10,
    };
    let mbit: u8 = if masking_key.is_some() {
        128
    } else {
        0
    };
    let mut ret: Vec<u8> = Vec::new();
    ret.push(128 + op);
    if payload_len < 126 {
        ret.push(mbit + payload_len as u8);
    } else if payload_len <= 65535 {
        ret.push(mbit + 126);
        push_be(&mut ret, payload_len as u128, 2);
    } else {
        ret.push(mbit + 127);
        push_be(&mut ret, payload_len as u128, 8);
    }
    let ghost head = ret@;
    match masking_key {
        Some(k) => {
            let kb = masking_bytes(k);
            proof {
                crate::ser::lemma_be_bytes_len(k as nat, 4);
            }
            let mut i: usize = 0;
            while i < 4
                invariant
                    i <= 4,
                    kb@ == mask_bytes(k),
                    kb@.len() == 4,
                    ret@ == head + kb@.take(i as int),
                decreases 4 - i,
            {
                ret.push(kb[i]);
                i = i + 1;
                assert(ret@ =~= head + kb@.take(i as int));
            }
            assert(kb@.take(4) =~= kb@);
            push_masked(&mut ret, ws.payload.as_slice(), 0, payload_len, k);
            assert(ws.payload@.subrange(0, payload_len as int) =~= ws.payload@);
        },
        None => {
            let mut i: usize = 0;
            while i < payload_len
                invariant
                    i <= payload_len == ws.payload@.len(),
                    ret@ == head + ws.payload@.take(i as int),
                decreases payload_len - i,
            {
                ret.push(ws.payload[i]);
                i = i + 1;
                assert(ret@ =~= head + ws.payload@.take(i as int));
            }
            assert(ws.payload@.take(payload_len as int) =~= ws.payload@);
        },
    }
    assert(ret@ =~= spec_encode(ws@, masking_key));
    ret
}


/// The frame type of a message kind.
pub open spec fn frame_type_of(t: WebSocketMessageType) -> FrameType {
    match t {
        WebSocketMessageType::Text => FrameType::Text,
        WebSocketMessageType::Binary => FrameType::Binary,
        WebSocketMessageType::Close => FrameType::Close,
        WebSocketMessageType::Ping => FrameType::Ping,
        WebSocketMessageType::Pong => FrameType::Pong,
    }
}

/// The header the frame of a message carries.
pub open spec fn encoded_header(m: MessageView, key: Option<u32>) -> FrameHeader {
    let len = m.1.len();
    let ext: int = if len < 126 {
        0
    } else if len <= 65535 {
        2
    } else {
        8
    };
    FrameHeader {
        ftype: frame_type_of(m.0),
        mask: key is Some,
        fin: true,
        payload_len: len as usize,
        masking_key: match key {
            Some(k) => k,
            None => 0u32,
        },
        start_content: (2 + ext + if key is Some {
            4int
        } else {
            0int
        }) as usize,
    }
}

pub proof fn lemma_xor_twice(a: u8, b: u8)
    ensures
        (a ^ b) ^ b == a,
        a ^ 0u8 == a,
{
    assert((a ^ b) ^ b == a) by (bit_vector);
    assert(a ^ 0u8 == a) by (bit_vector);
}

/// Masking twice with the same key gives the data back.
pub proof fn lemma_mask_twice(data: Seq<u8>, key: u32)
    ensures
        apply_mask(apply_mask(data, key), key) == data,
{
    assert forall|i: int| 0 <= i < data.len() implies #[trigger] apply_mask(
        apply_mask(data, key),
        key,
    )[i] == data[i] by {
        lemma_xor_twice(data[i], mask_bytes(key)[i % 4]);
    }
    assert(apply_mask(apply_mask(data, key), key) =~= data);
}

/// The zero key leaves the data as it is.
pub proof fn lemma_mask_zero(data: Seq<u8>)
    ensures
        apply_mask(data, 0u32) == data,
{
    reveal_with_fuel(be_bytes, 5);
    assert(mask_bytes(0u32) =~= seq![0u8, 0u8, 0u8, 0u8]);
    assert forall|i: int| 0 <= i < data.len() implies #[trigger] apply_mask(data, 0u32)[i]
        == data[i] by {
        lemma_xor_twice(data[i], 0u8);
    }
    assert(apply_mask(data, 0u32) =~= data);
}

/// The frame of a message decodes to the header it was made with, and the
/// frame is exactly as long as the header says.
pub proof fn lemma_encode_header(m: MessageView, key: Option<u32>)
    requires
        m.1.len() + 14 <= usize::MAX,
    ensures
        spec_frame_header(spec_encode(m, key)) == FrameScan::Header(encoded_header(m, key)),
        encoded_header(m, key).start_content + m.1.len() == spec_encode(m, key).len(),
        spec_encode(m, key).subrange(
            encoded_header(m, key).start_content as int,
            spec_encode(m, key).len() as int,
        ) == match key {
            Some(k) => apply_mask(m.1, k),
            None => m.1,
        },
{
    let e = spec_encode(m, key);
    let len = m.1.len();
    let h = encoded_header(m, key);
    lemma_pow256_values();
    crate::ser::lemma_be_bytes_len(len, 2);
    crate::ser::lemma_be_bytes_len(len, 8);
    let ext: int = if len < 126 {
        0
    } else if len <= 65535 {
        2
    } else {
        8
    };
    let head = if len < 126 {
        seq![(128 + opcode_of(m.0)) as u8, ((if key is Some { 128nat } else { 0nat }) + len) as u8]
    } else if len <= 65535 {
        seq![(128 + opcode_of(m.0)) as u8, ((if key is Some { 128nat } else { 0nat }) + 126) as u8] + be_bytes(len, 2)
    } else {
        seq![(128 + opcode_of(m.0)) as u8, ((if key is Some { 128nat } else { 0nat }) + 127) as u8] + be_bytes(len, 8)
    };
    assert(head.len() == 2 + ext);
    if ext == 2 {
        lemma_be_roundtrip(len, 2);
        assert(e.subrange(2, 4) =~= be_bytes(len, 2));
    } else if ext == 8 {
        lemma_be_roundtrip(len, 8);
        assert(e.subrange(2, 10) =~= be_bytes(len, 8));
    }
    match key {
        Some(k) => {
            lemma_be_roundtrip(k as nat, 4);
            assert(e.subrange(2 + ext, 6 + ext) =~= mask_bytes(k));
            assert(e.subrange(h.start_content as int, e.len() as int) =~= apply_mask(m.1, k));
        },
        None => {
            assert(e.subrange(h.start_content as int, e.len() as int) =~= m.1);
        },
    }
    assert(e[0] == head[0]);
    assert(e[1] == head[1]);
}

/// A message survives framing: the buffer made of the frame of a message
/// (masked or not) holds that one message, and it is consumed entirely.
pub proof fn law_frame_round_trip(m: MessageView, key: Option<u32>)
    requires
        m.1.len() + 14 <= usize::MAX,
    ensures
        spec_build_messages(spec_encode(m, key)) == Ok::<(Seq<MessageView>, nat), FrameError>(
            (seq![m], spec_encode(m, key).len()),
        ),
{
    let e = spec_encode(m, key);
    let h = encoded_header(m, key);
    lemma_encode_header(m, key);
    assert(e.skip(0) =~= e);
    let fs = Seq::<(FrameHeader, nat)>::empty().push((h, 0nat));
    let msg = spec_build_message(fs, e);
    assert(fs.drop_last() =~= Seq::<(FrameHeader, nat)>::empty());
    match key {
        Some(k) => {
            lemma_mask_twice(m.1, k);
        },
        None => {
            lemma_mask_zero(m.1);
        },
    }
    assert(h.payload_len == m.1.len());
    assert(e.subrange(h.start_content as int, h.start_content + h.payload_len) == e.subrange(
        h.start_content as int,
        e.len() as int,
    ));
    assert(frame_payload(h, 0, e) == m.1);
    assert(frames_payload(fs, e) == frames_payload(fs.drop_last(), e) + frame_payload(h, 0, e));
    assert(frames_payload(fs, e) =~= m.1);
    assert(msg == m);
    assert(e.skip(e.len() as int) =~= Seq::<u8>::empty());
    assert(spec_build_from(e, e.len(), Seq::empty(), Seq::empty().push(msg)) == Ok::<
        (Seq<MessageView>, nat),
        FrameError,
    >((Seq::empty().push(msg), e.len())));
    assert(seq![m] =~= Seq::empty().push(msg));
}

/// A frame header read from the start of a buffer stays the same when more
/// bytes follow.
proof fn lemma_header_prefix(e: Seq<u8>, r: Seq<u8>)
    requires
        spec_frame_header(e) is Header,
    ensures
        spec_frame_header(e + r) == spec_frame_header(e),
{
    let b = e + r;
    assert(b[0] == e[0] && b[1] == e[1]);
    let ext = ext_len(e[1] % 128);
    assert(b.subrange(2, 2 + ext) =~= e.subrange(2, 2 + ext));
    if e[1] >= 128 {
        assert(b.subrange(2 + ext, 6 + ext) =~= e.subrange(2 + ext, 6 + ext));
    }
}

/// The message the frame of `m`, found at `offset` of `buf`, decodes to is `m`.
proof fn lemma_frame_message_at(m: MessageView, key: Option<u32>, buf: Seq<u8>, offset: nat)
    requires
        m.1.len() + 14 <= usize::MAX,
        offset + spec_encode(m, key).len() <= buf.len(),
        buf.subrange(offset as int, (offset + spec_encode(m, key).len()) as int) == spec_encode(m, key),
    ensures
        spec_build_message(Seq::empty().push((encoded_header(m, key), offset)), buf) == m,
{
    let e = spec_encode(m, key);
    let h = encoded_header(m, key);
    lemma_encode_header(m, key);
    let fs = Seq::<(FrameHeader, nat)>::empty().push((h, offset));
    assert(fs.drop_last() =~= Seq::<(FrameHeader, nat)>::empty());
    assert(buf.subrange(offset + h.start_content, offset + h.start_content + h.payload_len) =~= e.subrange(
        h.start_content as int,
        e.len() as int,
    ));
    match key {
        Some(k) => {
            lemma_mask_twice(m.1, k);
        },
        None => {
            lemma_mask_zero(m.1);
        },
    }
    assert(frame_payload(h, offset, buf) == m.1);
    assert(frames_payload(fs, buf) == frames_payload(fs.drop_last(), buf) + frame_payload(h, offset, buf));
    assert(frames_payload(fs, buf) =~= m.1);
}

/// Two messages survive framing one after the other: the buffer made of
/// their frames holds both messages, in order, and is consumed entirely.
pub proof fn law_two_frames_round_trip(m1: MessageView, key1: Option<u32>, m2: MessageView, key2: Option<u32>)
    requires
        m1.1.len() + 14 <= usize::MAX,
        m2.1.len() + 14 <= usize::MAX,
    ensures
        spec_build_messages(spec_encode(m1, key1) + spec_encode(m2, key2)) == Ok::<
            (Seq<MessageView>, nat),
            FrameError,
        >((seq![m1, m2], spec_encode(m1, key1).len() + spec_encode(m2, key2).len())),
{
    let e1 = spec_encode(m1, key1);
    let e2 = spec_encode(m2, key2);
    let buf = e1 + e2;
    let h1 = encoded_header(m1, key1);
    let h2 = encoded_header(m2, key2);
    lemma_encode_header(m1, key1);
    lemma_encode_header(m2, key2);
    lemma_header_prefix(e1, e2);
    assert(buf.skip(0) =~= buf);
    assert(buf.subrange(0, e1.len() as int) =~= e1);
    lemma_frame_message_at(m1, key1, buf, 0);
    assert(buf.skip(e1.len() as int) =~= e2);
    assert(buf.subrange(e1.len() as int, (e1.len() + e2.len()) as int) =~= e2);
    lemma_frame_message_at(m2, key2, buf, e1.len());
    let n = buf.len();
    assert(buf.skip(n as int) =~= Seq::<u8>::empty());
    let done1 = Seq::<MessageView>::empty().push(m1);
    let done2 = done1.push(m2);
    assert(spec_build_from(buf, n, Seq::empty(), done2) == Ok::<(Seq<MessageView>, nat), FrameError>(
        (done2, n),
    ));
    assert(spec_build_from(buf, e1.len(), Seq::empty(), done1) == spec_build_from(
        buf,
        n,
        Seq::empty(),
        done2,
    ));
    assert(spec_build_from(buf, 0, Seq::empty(), Seq::empty()) == spec_build_from(
        buf,
        e1.len(),
        Seq::empty(),
        done1,
    ));
    assert(seq![m1, m2] =~= done2);
}

/// An unmasked frame with a short payload (under 126 bytes): its first
/// byte (the final bit and the opcode), its length, and its payload.
pub open spec fn short_frame(first: u8, payload: Seq<u8>) -> Seq<u8> {
    seq![first, payload.len() as u8] + payload
}

/// The header a short unmasked frame decodes to.
proof fn lemma_short_frame_header(b: Seq<u8>, first: u8, payload: Seq<u8>)
    requires
        payload.len() < 126,
        opcode_frame_type(first % 16) is Some,
        b.len() >= 2 + payload.len(),
        b.subrange(0, 2 + payload.len() as int) == short_frame(first, payload),
    ensures
        spec_frame_header(b) == FrameScan::Header(
            FrameHeader {
                ftype: opcode_frame_type(first % 16)->0,
                mask: false,
                fin: first >= 128,
                payload_len: payload.len() as usize,
                masking_key: 0u32,
                start_content: 2,
            },
        ),
{
    assert(b[0] == short_frame(first, payload)[0]);
    assert(b[1] == short_frame(first, payload)[1]);
    assert(b[1] == payload.len() as u8);
}

/// A message sent in two fragments decodes to one message: a first frame of
/// opcode `op` (text or binary) without the final bit, then a final
/// continuation frame, give one message of the kind of `op`, whose payload
/// is the two payloads one after the other, and the buffer is consumed.
pub proof fn law_fragmented_message(op: u8, p1: Seq<u8>, p2: Seq<u8>)
    requires
        op == 1 || op == 2,
        p1.len() < 126,
        p2.len() < 126,
    ensures
        spec_build_messages(short_frame(op, p1) + short_frame(128u8, p2)) == Ok::<
            (Seq<MessageView>, nat),
            FrameError,
        >(
            (
                seq![
                    (if op == 1 {
                        WebSocketMessageType::Text
                    } else {
                        WebSocketMessageType::Binary
                    }, p1 + p2),
                ],
                short_frame(op, p1).len() + short_frame(128u8, p2).len(),
            ),
        ),
{
    let f1 = short_frame(op, p1);
    let f2 = short_frame(128u8, p2);
    let buf = f1 + f2;
    let n1 = f1.len();
    let n = buf.len();
    assert(buf.skip(0) =~= buf);
    assert(buf.subrange(0, 2 + p1.len() as int) =~= f1);
    lemma_short_frame_header(buf, op, p1);
    let h1 = FrameHeader {
        ftype: opcode_frame_type(op % 16)->0,
        mask: false,
        fin: false,
        payload_len: p1.len() as usize,
        masking_key: 0u32,
        start_content: 2,
    };
    assert(buf.skip(n1 as int) =~= f2);
    assert(f2.subrange(0, 2 + p2.len() as int) =~= f2);
    lemma_short_frame_header(f2, 128u8, p2);
    let h2 = FrameHeader {
        ftype: FrameType::Continuation,
        mask: false,
        fin: true,
        payload_len: p2.len() as usize,
        masking_key: 0u32,
        start_content: 2,
    };
    assert(buf.skip(n as int) =~= Seq::<u8>::empty());
    let fs = Seq::<(FrameHeader, nat)>::empty().push((h1, 0nat)).push((h2, n1));
    assert(fs.drop_last() =~= Seq::<(FrameHeader, nat)>::empty().push((h1, 0nat)));
    assert(fs.drop_last().drop_last() =~= Seq::<(FrameHeader, nat)>::empty());
    lemma_mask_zero(p1);
    lemma_mask_zero(p2);
    assert(buf.subrange(2, 2 + p1.len() as int) =~= p1);
    assert(buf.subrange(n1 as int + 2, n1 as int + 2 + p2.len() as int) =~= p2);
    assert(frame_payload(h1, 0, buf) == p1);
    assert(frame_payload(h2, n1, buf) == p2);
    assert(frames_payload(fs, buf) =~= p1 + p2) by {
        assert(frames_payload(fs.drop_last(), buf) == frames_payload(fs.drop_last().drop_last(), buf)
            + frame_payload(h1, 0, buf));
    }
    let msg = spec_build_message(fs, buf);
    assert(fs[0].0 == h1);
    assert(msg == (
        if op == 1 {
            WebSocketMessageType::Text
        } else {
            WebSocketMessageType::Binary
        },
        p1 + p2,
    ));
    let done = Seq::<MessageView>::empty().push(msg);
    assert(spec_build_from(buf, n, Seq::empty(), done) == Ok::<(Seq<MessageView>, nat), FrameError>((done, n)));
    assert(spec_build_from(buf, n1, Seq::empty().push((h1, 0nat)), Seq::empty()) == spec_build_from(
        buf,
        n,
        Seq::empty(),
        done,
    ));
    assert(spec_build_from(buf, 0, Seq::empty(), Seq::empty()) == spec_build_from(
        buf,
        n1,
        Seq::empty().push((h1, 0nat)),
        Seq::empty(),
    ));
    assert(done =~= seq![msg]);
}

/// A fresh masking key from the operating system's random source
/// (`rand::rngs::OsRng::next_u32`). Nothing is claimed of the value.
#[verifier::external_body]
fn random_masking_key() -> u32 {
    rand::rngs::OsRng.next_u32()
}

/// The frame of `ws`, as sent on a connection: masked with a fresh random key
/// when `mask` is set, unmasked otherwise.
pub fn websocket_message_to_vec(ws: &WebSocketMessage, mask: bool) -> (r: Result<Vec<u8>, Error>)
    ensures
        r matches Ok(v) && (mask ==> exists|k: u32| v@ == spec_encode(ws@, Some(k))) && (!mask
            ==> v@ == spec_encode(ws@, None)),
{
    if mask {
        let k = random_masking_key();
        let v = encode_message(ws, Some(k));
        assert(v@ == spec_encode(ws@, Some(k)));
        Ok(v)
    } else {
        Ok(encode_message(ws, None))
    }
}

/// The close message a client sends before closing its connection.
pub fn close_message() -> (m: WebSocketMessage)
    ensures
        m@ == (WebSocketMessageType::Close, Seq::<u8>::empty()),
{
    WebSocketMessage { mtype: WebSocketMessageType::Close, payload: Vec::new() }
}

/// The GUID that RFC 6455 appends to a client key before hashing it.
pub const WEBSOCKET_GUID: &'static str = "258EAFA5-E914-47DA-95CA-C5AB0DC85B11";

/// What SHA-1 gives for `data`.
pub uninterp spec fn sha1_of(data: Seq<u8>) -> Seq<u8>;

/// The character of the 6-bit value `v` in the standard base64 alphabet.
pub open spec fn base64_char(v: nat) -> char {
    if v < 26 {
        (65 + v) as char
    } else if v < 52 {
        (71 + v) as char
    } else if v < 62 {
        (v - 4) as char
    } else if v == 62 {
        '+'
    } else {
        '/'
    }
}

/// Standard base64 with padding (RFC 4648): each group of three bytes gives
/// four characters of six bits each; a last group of one or two bytes gives
/// two or three characters followed by `=` to make four.
pub open spec fn base64_of(data: Seq<u8>) -> Seq<char>
    decreases data.len(),
{
    if data.len() == 0 {
        Seq::empty()
    } else if data.len() == 1 {
        seq![base64_char(data[0] as nat / 4), base64_char((data[0] as nat % 4) * 16), '=', '=']
    } else if data.len() == 2 {
        seq![
            base64_char(data[0] as nat / 4),
            base64_char((data[0] as nat % 4) * 16 + data[1] as nat / 16),
            base64_char((data[1] as nat % 16) * 4),
            '=',
        ]
    } else {
        seq![
            base64_char(data[0] as nat / 4),
            base64_char((data[0] as nat % 4) * 16 + data[1] as nat / 16),
            base64_char((data[1] as nat % 16) * 4 + data[2] as nat / 64),
            base64_char(data[2] as nat % 64),
        ] + base64_of(data.skip(3))
    }
}

/// SHA-1 of `data` (`sha1::Sha1::digest`): the digest is named by `sha1_of`
/// and is 20 bytes long.
#[verifier::external_body]
fn sha1_digest(data: &[u8]) -> (r: Vec<u8>)
    ensures
        r@ == sha1_of(data@),
        r@.len() == 20,
{
    sha1::Sha1::digest(data).to_vec()
}

/// Standard base64 with padding (`base64::engine::general_purpose::STANDARD`):
/// the text is `base64_of` of the bytes. The crate panics when the length of the
/// text would overflow `usize`, which the bound on `data` rules out.
#[verifier::external_body]
fn base64_encode(data: &[u8]) -> (r: String)
    requires
        data@.len() <= usize::MAX / 2,
    ensures
        r@ == base64_of(data@),
{
    base64::engine::general_purpose::STANDARD.encode(data)
}

/// The `Sec-WebSocket-Accept` value answering the client key `key`: the
/// base64 of the SHA-1 of the key followed by the GUID.
pub fn websocket_accept_key(key: &str) -> (r: String)
    requires
        key@.len() + 36 <= usize::MAX / 8,
    ensures
        r@ == base64_of(sha1_of(vstd::utf8::encode_utf8(key@ + WEBSOCKET_GUID@))),
{
    let mut text = String::from_str(key);
    text.append(WEBSOCKET_GUID);
    let digest = sha1_digest(text.as_str().as_bytes());
    base64_encode(digest.as_slice())
}

/// The server's answer to an upgrade request with client key `key`. A
/// `Sec-WebSocket-Protocol` line names the chosen protocol, or `nomatches`
/// when a protocol is required and none was chosen.
pub fn handshake_response(key: &str, proto: Option<String>, proto_required: bool) -> (r: String)
    requires
        key@.len() + 36 <= usize::MAX / 8,
    ensures
        r@ == "HTTP/1.1 101 Switching Protocols\r\nUpgrade: websocket\r\nConnection: Upgrade\r\n"@
            + match proto {
            Some(p) => "Sec-WebSocket-Protocol: "@ + p@ + "\r\n"@,
            None => if proto_required {
                "Sec-WebSocket-Protocol: nomatches\r\n"@
            } else {
                Seq::<char>::empty()
            },
        } + "Sec-WebSocket-Accept: "@ + base64_of(
            sha1_of(vstd::utf8::encode_utf8(key@ + WEBSOCKET_GUID@)),
        ) + "\r\n\r\n"@,
{
    let accept = websocket_accept_key(key);
    let mut r = String::from_str(
        "HTTP/1.1 101 Switching Protocols\r\nUpgrade: websocket\r\nConnection: Upgrade\r\n",
    );
    match proto {
        Some(p) => {
            r.append("Sec-WebSocket-Protocol: ");
            r.append(p.as_str());
            r.append("\r\n");
        },
        None => {
            if proto_required {
                r.append("Sec-WebSocket-Protocol: nomatches\r\n");
            }
        },
    }
    r.append("Sec-WebSocket-Accept: ");
    r.append(accept.as_str());
    r.append("\r\n\r\n");
    r
}

/// The upgrade request a client sends for `path` on `host`, port `port`
/// (its decimal digits), with the client key `key`.
pub open spec fn upgrade_request_spec(path: Seq<char>, host: Seq<char>, port: Seq<char>, key: Seq<char>) -> Seq<char> {
    "GET "@ + path + " HTTP/1.1\r\nHost: "@ + host + ":"@ + port + "\r\nSec-WebSocket-Key: "@ + key
        + "\r\nUpgrade: websocket\r\nConnection: Upgrade\r\n\r\n"@
}

/// The upgrade request for `path` on `host`:`port` with the client key `key`.
pub fn upgrade_request(path: &str, host: &str, port: u16, key: &str) -> (r: String)
    ensures
        r@ == upgrade_request_spec(path@, host@, decimal(port as nat), key@),
{
    let p = to_decimal(port as u64);
    let mut r = String::from_str("GET ");
    r.append(path);
    r.append(" HTTP/1.1\r\nHost: ");
    r.append(host);
    r.append(":");
    r.append(p.as_str());
    r.append("\r\nSec-WebSocket-Key: ");
    r.append(key);
    r.append("\r\nUpgrade: websocket\r\nConnection: Upgrade\r\n\r\n");
    r
}

/// `rand::rngs::OsRng::fill_bytes` on 16 bytes: a random client key. Only
/// its length is stated.
#[verifier::external_body]
fn random_key_bytes() -> (r: Vec<u8>)
    ensures
        r@.len() == 16,
{
    let mut b = vec![0u8; 16];
    rand::rngs::OsRng.fill_bytes(&mut b);
    b
}

/// The upgrade request a client opens a connection with: its key is the
/// base64 of 16 fresh random bytes.
pub fn client_upgrade_request(path: &str, host: &str, port: u16) -> (r: String)
    ensures
        exists|bytes: Seq<u8>|
            bytes.len() == 16 && r@ == upgrade_request_spec(path@, host@, decimal(port as nat), base64_of(bytes)),
{
    let bytes = random_key_bytes();
    let key = base64_encode(bytes.as_slice());
    let r = upgrade_request(path, host, port, key.as_str());
    assert(bytes@.len() == 16 && r@ == upgrade_request_spec(path@, host@, decimal(port as nat), base64_of(bytes@)));
    r
}

/// `b` has the blank line `\r\n\r\n` ending at index `i`.
pub open spec fn blank_line_ends_at(b: Seq<u8>, i: int) -> bool {
    3 <= i < b.len() && b[i - 3] == 13u8 && b[i - 2] == 10u8 && b[i - 1] == 13u8 && b[i]
        == 10u8
}

/// The offset just after the last blank line of `buffer`, or 0 when there is
/// none: where the answer to an upgrade request ends.
pub fn handshake_end(buffer: &[u8]) -> (r: usize)
    ensures
        r == 0 ==> forall|i: int| !blank_line_ends_at(buffer@, i),
        r > 0 ==> blank_line_ends_at(buffer@, r - 1) && forall|i: int|
            r - 1 < i ==> !blank_line_ends_at(buffer@, i),
{
    let len = buffer.len();
    let mut end_point: usize = 0;
    let mut i: usize = 3;
    while i < len
        invariant
            len == buffer@.len(),
            3 <= i,
            end_point == 0 ==> forall|k: int| k < i ==> !blank_line_ends_at(buffer@, k),
            end_point > 0 ==> end_point < i + 1 && blank_line_ends_at(buffer@, end_point - 1)
                && forall|k: int| end_point - 1 < k < i ==> !blank_line_ends_at(buffer@, k),
        decreases len - i,
    {
        if buffer[i - 3] == 13 && buffer[i - 2] == 10 && buffer[i - 1] == 13 && buffer[i] == 10 {
            end_point = i + 1;
        }
        i = i + 1;
    }
    end_point
}

/// Whether `b` is valid UTF-8.
fn utf8_valid(b: &[u8]) -> (r: bool)
    ensures
        r == vstd::utf8::valid_utf8(b@),
{
    crate::text::utf8_str(b).is_some()
}

/// The bytes of `v` from `start` on.
fn tail_of(v: &Vec<u8>, start: usize) -> (r: Vec<u8>)
    requires
        start <= v@.len(),
    ensures
        r@ == v@.skip(start as int),
{
    let mut r: Vec<u8> = Vec::new();
    let mut i = start;
    while i < v.len()
        invariant
            start <= i <= v@.len(),
            r@ == v@.subrange(start as int, i as int),
        decreases v@.len() - i,
    {
        r.push(v[i]);
        i = i + 1;
        assert(r@ =~= v@.subrange(start as int, i as int));
    }
    assert(v@.skip(start as int) =~= v@.subrange(start as int, v@.len() as int));
    r
}

/// The state of a client connection: whether the upgrade answer has been
/// read, and the bytes received but not consumed yet.
pub struct WebSocketConnectionState {
    pub switched: bool,
    pub buffer: Vec<u8>,
}

impl WebSocketConnectionState {
    /// A connection that has not seen the upgrade answer yet.
    pub fn new() -> (s: WebSocketConnectionState)
        ensures
            !s.switched,
            s.buffer@ == Seq::<u8>::empty(),
    {
        WebSocketConnectionState { switched: false, buffer: Vec::new() }
    }

    /// Looks for the end of the upgrade answer. The received bytes must be
    /// UTF-8; when a blank line is found, everything up to the last one is
    /// dropped and the connection counts as switched.
    pub fn process_non_switched(&mut self) -> (r: Result<(), Error>)
        ensures
            r is Err <==> !vstd::utf8::valid_utf8(old(self).buffer@),
            r matches Err(e) ==> e.spec_kind() matches ErrKind::Core(CoreErrorKind::Utf8(_))
                && *final(self) == *old(self),
            r is Ok ==> match spec_after_handshake(old(self).buffer@) {
                Some(rest) => final(self).switched && final(self).buffer@ == rest,
                None => *final(self) == *old(self),
            },
    {
        if !utf8_valid(self.buffer.as_slice()) {
            return Err(Error::base(CoreErrorKind::Utf8(String::from_str("invalid utf-8 sequence"))));
        }
        let end_point = handshake_end(self.buffer.as_slice());
        proof {
            let b = self.buffer@;
            if end_point > 0 {
                let i = (end_point - 1) as int;
                assert(blank_line_ends_at(b, i));
                let c = choose|c: int|
                    blank_line_ends_at(b, c) && forall|k: int| c < k ==> !blank_line_ends_at(b, k);
                assert(c == i);
            }
        }
        if end_point > 0 {
            self.buffer = tail_of(&self.buffer, end_point);
            self.switched = true;
        }
        Ok(())
    }

    /// Takes the whole messages out of the received bytes; what follows the
    /// last whole frame stays for later.
    pub fn process_switched(&mut self) -> (r: Result<Vec<WebSocketMessage>, Error>)
        ensures
            final(self).switched == old(self).switched,
            match spec_build_messages(old(self).buffer@) {
                Ok((msgs, off)) => r matches Ok(v) && v@.map_values(|m: WebSocketMessage| m@)
                    == msgs && final(self).buffer@ == old(self).buffer@.skip(off as int),
                Err(f) => r matches Err(e) && frame_error_matches(e, f) && *final(self) == *old(
                    self,
                ),
            },
    {
        let (messages, off) = build_messages(self.buffer.as_slice())?;
        proof {
            lemma_build_offset_bound(self.buffer@);
        }
        self.buffer = tail_of(&self.buffer, off);
        Ok(messages)
    }

    /// Handles bytes received on the connection: appends them, completes the
    /// upgrade if it is still pending, and returns the messages now whole.
    pub fn receive(&mut self, data: &[u8]) -> (r: Result<Vec<WebSocketMessage>, Error>)
        ensures
            ({
                let b = old(self).buffer@ + data@;
                if !old(self).switched && !vstd::utf8::valid_utf8(b) {
                    r matches Err(e) && e.spec_kind() matches ErrKind::Core(CoreErrorKind::Utf8(_))
                } else {
                    let (sw, b2) = if old(self).switched {
                        (true, b)
                    } else {
                        match spec_after_handshake(b) {
                            Some(rest) => (true, rest),
                            None => (false, b),
                        }
                    };
                    match spec_build_messages(b2) {
                        Ok((msgs, off)) => r matches Ok(v) && v@.map_values(
                            |m: WebSocketMessage| m@,
                        ) == msgs && final(self).switched == sw && final(self).buffer@ == b2.skip(
                            off as int,
                        ),
                        Err(f) => r matches Err(e) && frame_error_matches(e, f),
                    }
                }
            }),
    {
        let ghost start = self.buffer@;
        let mut i: usize = 0;
        while i < data.len()
            invariant
                i <= data@.len(),
                self.switched == old(self).switched,
                self.buffer@ == start + data@.take(i as int),
            decreases data@.len() - i,
        {
            self.buffer.push(data[i]);
            i = i + 1;
            assert(self.buffer@ =~= start + data@.take(i as int));
        }
        assert(data@.take(data@.len() as int) =~= data@);
        if !self.switched {
            self.process_non_switched()?;
        }
        self.process_switched()
    }
}

/// The bytes that follow the last blank line of `b`, if it has one.
pub open spec fn spec_after_handshake(b: Seq<u8>) -> Option<Seq<u8>> {
    if exists|i: int| blank_line_ends_at(b, i) {
        let i = choose|i: int|
            blank_line_ends_at(b, i) && forall|k: int| i < k ==> !blank_line_ends_at(b, k);
        Some(b.skip(i + 1))
    } else {
        None
    }
}

/// The offset `spec_build_from` ends at is within the buffer.
pub proof fn lemma_build_from_offset_bound(
    buf: Seq<u8>,
    offset: nat,
    pending: Seq<(FrameHeader, nat)>,
    done: Seq<MessageView>,
)
    requires
        offset <= buf.len(),
    ensures
        spec_build_from(buf, offset, pending, done) matches Ok((_, off)) ==> offset <= off
            <= buf.len(),
    decreases buf.len() - offset,
{
    lemma_header_fits(buf.skip(offset as int));
    match spec_frame_header(buf.skip(offset as int)) {
        FrameScan::Header(h) => {
            let end = (offset + h.start_content + h.payload_len) as nat;
            if h.fin {
                lemma_build_from_offset_bound(
                    buf,
                    end,
                    Seq::empty(),
                    done.push(spec_build_message(pending.push((h, offset)), buf)),
                );
            } else if h.ftype != FrameType::Ping {
                lemma_build_from_offset_bound(buf, end, pending.push((h, offset)), done);
            }
        },
        _ => {},
    }
}

pub proof fn lemma_build_offset_bound(buf: Seq<u8>)
    ensures
        spec_build_messages(buf) matches Ok((_, off)) ==> off <= buf.len(),
{
    lemma_build_from_offset_bound(buf, 0, Seq::empty(), Seq::empty());
}
} // verus!
