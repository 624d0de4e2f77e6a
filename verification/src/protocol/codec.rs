//! Frames: a 4-byte big-endian length, and that many bytes of message.

use vstd::prelude::*;
use vstd::string::*;

use crate::text;
use crate::text::push_decimal;

verus! {

/// Error type for protocol encoding/decoding failures.
#[derive(Debug)]
pub enum ProtocolError {
    /// Received frame exceeds [`MAX_FRAME_SIZE`].
    FrameTooLarge { size: usize, max: usize },
    /// Serialized message is too large to fit in a u32 length prefix.
    EncodeTooLarge { size: usize },
    /// Deserialization or I/O error, with what it says.
    Deserialize(String),
}

impl ProtocolError {
    /// The error as text.
    pub open spec fn text(self) -> Seq<char> {
        match self {
            ProtocolError::FrameTooLarge { size, max } => "frame too large: "@ + text::decimal_text(
                size as nat,
            ) + " bytes (max "@ + text::decimal_text(max as nat) + ")"@,
            ProtocolError::EncodeTooLarge { size } => "message too large to encode: "@
                + text::decimal_text(size as nat) + " bytes exceeds u32 max"@,
            ProtocolError::Deserialize(what) => "deserialization failed: "@ + what@,
        }
    }

    /// The error as text.
    pub fn to_text(&self) -> (res: String)
        ensures
            res@ == self.text(),
    {
        match self {
            ProtocolError::FrameTooLarge { size, max } => {
                let mut res: String = "frame too large: ".to_owned();
                push_decimal(&mut res, *size as u64);
                res.append(" bytes (max ");
                push_decimal(&mut res, *max as u64);
                res.append(")");
                res
            },
            ProtocolError::EncodeTooLarge { size } => {
                let mut res: String = "message too large to encode: ".to_owned();
                push_decimal(&mut res, *size as u64);
                res.append(" bytes exceeds u32 max");
                res
            },
            ProtocolError::Deserialize(what) => {
                let mut res: String = "deserialization failed: ".to_owned();
                res.append(what.as_str());
                res
            },
        }
    }
}

/// Maximum frame size: 16 MiB. A corrupt length cannot ask for more memory.
pub const MAX_FRAME_SIZE: usize = 16 * 1024 * 1024;

/// A length as four bytes, most significant first.
pub open spec fn be_bytes(n: int) -> Seq<u8> {
    seq![
        (n / 0x100_0000) as u8,
        (n / 0x1_0000 % 0x100) as u8,
        (n / 0x100 % 0x100) as u8,
        (n % 0x100) as u8,
    ]
}

/// The length that the first four bytes of a buffer give.
pub open spec fn be_value(buf: Seq<u8>) -> int {
    buf[0] * 0x100_0000 + buf[1] * 0x1_0000 + buf[2] * 0x100 + buf[3]
}

/// A message in its frame.
pub open spec fn frame(data: Seq<u8>) -> Seq<u8> {
    be_bytes(data.len() as int) + data
}

/// What stands at the start of a buffer.
pub enum Head {
    /// Not all of a frame has arrived.
    Incomplete,
    /// A frame that is larger than any frame may be.
    TooLarge(int),
    /// A frame with its message, and what follows it.
    Frame(Seq<u8>, Seq<u8>),
}

/// What stands at the start of a buffer.
pub open spec fn head(buf: Seq<u8>) -> Head {
    if buf.len() < 4 {
        Head::Incomplete
    } else if be_value(buf) > MAX_FRAME_SIZE {
        Head::TooLarge(be_value(buf))
    } else if buf.len() < 4 + be_value(buf) {
        Head::Incomplete
    } else {
        Head::Frame(buf.subrange(4, 4 + be_value(buf)), buf.skip(4 + be_value(buf)))
    }
}

/// All the messages at the start of a buffer.
pub open spec fn messages(buf: Seq<u8>) -> Seq<Seq<u8>>
    decreases buf.len(),
{
    match head(buf) {
        Head::Frame(data, rest) => if rest.len() < buf.len() {
            seq![data] + messages(rest)
        } else {
            seq![]
        },
        _ => seq![],
    }
}

/// Messages in their frames, one after the other.
pub open spec fn frames(list: Seq<Seq<u8>>) -> Seq<u8>
    decreases list.len(),
{
    if list.len() == 0 {
        seq![]
    } else {
        frame(list[0]) + frames(list.skip(1))
    }
}

proof fn lemma_be_round_trip(n: int, rest: Seq<u8>)
    requires
        0 <= n <= u32::MAX,
    ensures
        be_value(be_bytes(n) + rest) == n,
{
    let b = be_bytes(n);
    assert((b + rest)[0] == b[0]);
    assert((b + rest)[1] == b[1]);
    assert((b + rest)[2] == b[2]);
    assert((b + rest)[3] == b[3]);
}

/// Length-prefixed message encoding.
pub fn encode(data: &[u8]) -> (res: Result<Vec<u8>, ProtocolError>)
    ensures
        res is Ok <==> data@.len() <= u32::MAX,
        res matches Ok(buf) ==> buf@ == frame(data@),
        res matches Err(e) ==> e == (ProtocolError::EncodeTooLarge { size: data@.len() as usize }),
{
    let len: usize = data.len();
    if len as u64 > 0xffff_ffff {
        return Err(ProtocolError::EncodeTooLarge { size: len });
    }
    let mut buf: Vec<u8> = Vec::new();
    buf.push((len / 0x100_0000) as u8);
    buf.push((len / 0x1_0000 % 0x100) as u8);
    buf.push((len / 0x100 % 0x100) as u8);
    buf.push((len % 0x100) as u8);
    buf.extend_from_slice(data);
    assert(buf@ =~= frame(data@));
    Ok(buf)
}

/// Decode a length-prefixed frame from a buffer.
/// Returns (message_bytes, bytes_consumed) or an error.
/// Returns Ok(None) if the buffer is incomplete.
pub fn decode_frame(buf: &[u8]) -> (res: Result<Option<(&[u8], usize)>, ProtocolError>)
    ensures
        match head(buf@) {
            Head::Incomplete => res == Ok::<Option<(&[u8], usize)>, ProtocolError>(None),
            Head::TooLarge(size) => res == Err::<Option<(&[u8], usize)>, ProtocolError>(
                (ProtocolError::FrameTooLarge { size: size as usize, max: MAX_FRAME_SIZE }),
            ),
            Head::Frame(data, rest) => res matches Ok(Some((d, n))) && d@ == data && n == 4
                + data.len() && rest == buf@.skip(n as int),
        },
{
    if buf.len() < 4 {
        return Ok(None);
    }
    let len: u64 = buf[0] as u64 * 0x100_0000 + buf[1] as u64 * 0x1_0000 + buf[2] as u64 * 0x100
        + buf[3] as u64;
    if len > MAX_FRAME_SIZE as u64 {
        return Err(ProtocolError::FrameTooLarge { size: len as usize, max: MAX_FRAME_SIZE });
    }
    let len: usize = len as usize;
    if buf.len() - 4 < len {
        return Ok(None);
    }
    Ok(Some((&buf[4..4 + len], 4 + len)))
}

/// Collects received bytes and gives out the messages in them.
pub struct FrameReader {
    pub buf: Vec<u8>,
}

impl View for FrameReader {
    type V = Seq<u8>;

    open spec fn view(&self) -> Seq<u8> {
        self.buf@
    }
}

impl FrameReader {
    /// A reader that nothing was received for.
    pub fn new() -> (res: Self)
        ensures
            res@ == Seq::<u8>::empty(),
    {
        FrameReader { buf: Vec::new() }
    }

    /// A reader that goes on with bytes received before.
    pub fn with_leftover(leftover: Vec<u8>) -> (res: Self)
        ensures
            res@ == leftover@,
    {
        FrameReader { buf: leftover }
    }

    /// Add received bytes.
    pub fn feed(&mut self, received: &[u8])
        ensures
            final(self)@ == old(self)@ + received@,
    {
        self.buf.extend_from_slice(received);
    }

    /// Take out the next message, if all of it was received.
    pub fn next_frame(&mut self) -> (res: Result<Option<Vec<u8>>, ProtocolError>)
        ensures
            match head(old(self)@) {
                Head::Incomplete => {
                    &&& res == Ok::<Option<Vec<u8>>, ProtocolError>(None)
                    &&& final(self)@ == old(self)@
                },
                Head::TooLarge(size) => {
                    &&& res == Err::<Option<Vec<u8>>, ProtocolError>(
                        (ProtocolError::FrameTooLarge { size: size as usize, max: MAX_FRAME_SIZE }),
                    )
                    &&& final(self)@ == old(self)@
                },
                Head::Frame(data, rest) => {
                    &&& res matches Ok(Some(d)) && d@ == data
                    &&& final(self)@ == rest
                },
            },
    {
        let (data, consumed): (Vec<u8>, usize) = match decode_frame(self.buf.as_slice()) {
            Err(e) => {
                return Err(e);
            },
            Ok(None) => {
                return Ok(None);
            },
            Ok(Some((data, consumed))) => {
                let mut owned: Vec<u8> = Vec::new();
                owned.extend_from_slice(data);
                assert(owned@ =~= data@);
                (owned, consumed)
            },
        };
        let rest: Vec<u8> = self.buf.split_off(consumed);
        assert(rest@ =~= old(self)@.skip(consumed as int));
        self.buf = rest;
        Ok(Some(data))
    }

    /// Take in what one read gave and take out the next message, if all of it was
    /// received. A read that gives nothing means that the connection was closed.
    pub fn receive(&mut self, received: &[u8]) -> (res: Result<Option<Vec<u8>>, ProtocolError>)
        ensures
            received@.len() == 0 ==> {
                &&& res matches Err(ProtocolError::Deserialize(what)) && what@
                    == "connection closed"@
                &&& final(self)@ == old(self)@
            },
            received@.len() > 0 ==> match head(old(self)@ + received@) {
                Head::Incomplete => {
                    &&& res == Ok::<Option<Vec<u8>>, ProtocolError>(None)
                    &&& final(self)@ == old(self)@ + received@
                },
                Head::TooLarge(size) => {
                    &&& res == Err::<Option<Vec<u8>>, ProtocolError>(
                        (ProtocolError::FrameTooLarge { size: size as usize, max: MAX_FRAME_SIZE }),
                    )
                    &&& final(self)@ == old(self)@ + received@
                },
                Head::Frame(data, rest) => {
                    &&& res matches Ok(Some(d)) && d@ == data
                    &&& final(self)@ == rest
                },
            },
    {
        if received.len() == 0 {
            return Err(ProtocolError::Deserialize("connection closed".to_owned()));
        }
        self.feed(received);
        self.next_frame()
    }

    /// The bytes that are left once messages were taken out.
    pub fn into_leftover(self) -> (res: Vec<u8>)
        ensures
            res@ == self@,
    {
        self.buf
    }
}

/// A message comes out of its frame as it went in, whatever follows it.
pub proof fn law_frame_round_trip(data: Seq<u8>, rest: Seq<u8>)
    requires
        data.len() <= MAX_FRAME_SIZE,
    ensures
        head(frame(data) + rest) == Head::Frame(data, rest),
{
    let buf = frame(data) + rest;
    assert(buf =~= be_bytes(data.len() as int) + (data + rest));
    lemma_be_round_trip(data.len() as int, data + rest);
    assert(buf.subrange(4, 4 + data.len() as int) =~= data);
    assert(buf.skip(4 + data.len() as int) =~= rest);
}

/// A part of a frame is never taken for a message.
pub proof fn law_partial_frame_is_incomplete(data: Seq<u8>, n: int)
    requires
        data.len() <= MAX_FRAME_SIZE,
        0 <= n < frame(data).len(),
    ensures
        head(frame(data).take(n)) == Head::Incomplete,
{
    if n >= 4 {
        let part = frame(data).take(n);
        assert(part =~= be_bytes(data.len() as int) + data.take(n - 4));
        lemma_be_round_trip(data.len() as int, data.take(n - 4));
    }
}

/// A length above the maximum is refused as soon as it is there.
pub proof fn law_oversized_frame_is_refused(len: int, rest: Seq<u8>)
    requires
        MAX_FRAME_SIZE < len <= u32::MAX,
    ensures
        head(be_bytes(len) + rest) == Head::TooLarge(len),
{
    lemma_be_round_trip(len, rest);
}

/// Messages sent one after the other come out in order and whole, and a part of
/// another frame behind them waits for the rest of it.
pub proof fn law_stream_round_trip(list: Seq<Seq<u8>>, partial: Seq<u8>)
    requires
        forall|i: int| 0 <= i < list.len() ==> #[trigger] list[i].len() <= MAX_FRAME_SIZE,
        head(partial) == Head::Incomplete,
    ensures
        messages(frames(list) + partial) == list,
    decreases list.len(),
{
    if list.len() == 0 {
        assert(frames(list) + partial =~= partial);
        assert(messages(partial) =~= list);
    } else {
        let tail = list.skip(1);
        let rest = frames(tail) + partial;
        assert(frames(list) + partial =~= frame(list[0]) + rest);
        law_frame_round_trip(list[0], rest);
        assert forall|i: int| 0 <= i < tail.len() implies #[trigger] tail[i].len()
            <= MAX_FRAME_SIZE by {
            assert(tail[i] == list[i + 1]);
        }
        law_stream_round_trip(tail, partial);
        assert(seq![list[0]] + tail =~= list);
    }
}

/// A frame is four bytes that give the length of the message, most significant first, and
/// the message.
pub proof fn law_frame_layout(data: Seq<u8>)
    requires
        data.len() <= u32::MAX,
    ensures
        ({
            let f = frame(data);
            &&& f.len() == 4 + data.len()
            &&& f[0] * 0x100_0000 + f[1] * 0x1_0000 + f[2] * 0x100 + f[3] == data.len()
            &&& f.skip(4) == data
        }),
{
    lemma_be_round_trip(data.len() as int, data);
    assert(frame(data).skip(4) =~= data);
}

/// What stands at the start of a buffer, by the length that its first four bytes give:
/// more than sixteen megabytes are refused, and a message is there once all of its bytes
/// are.
pub proof fn law_head(buf: Seq<u8>)
    ensures
        ({
            let len = buf[0] * 0x100_0000 + buf[1] * 0x1_0000 + buf[2] * 0x100 + buf[3];
            &&& buf.len() < 4 ==> head(buf) == Head::Incomplete
            &&& buf.len() >= 4 && len > 16_777_216 ==> head(buf) == Head::TooLarge(len)
            &&& buf.len() >= 4 && len <= 16_777_216 && buf.len() < 4 + len ==> head(buf)
                == Head::Incomplete
            &&& buf.len() >= 4 && len <= 16_777_216 && buf.len() >= 4 + len ==> head(buf)
                == Head::Frame(buf.subrange(4, 4 + len), buf.skip(4 + len))
        }),
{
}

/// What the errors say.
pub proof fn law_error_texts(size: usize, max: usize, what: String)
    ensures
        (ProtocolError::FrameTooLarge { size, max }).text() == "frame too large: "@
            + text::decimal_text(size as nat) + " bytes (max "@ + text::decimal_text(max as nat)
            + ")"@,
        (ProtocolError::EncodeTooLarge { size }).text() == "message too large to encode: "@
            + text::decimal_text(size as nat) + " bytes exceeds u32 max"@,
        ProtocolError::Deserialize(what).text() == "deserialization failed: "@ + what@,
{
}

} // verus!
