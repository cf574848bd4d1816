//! Versioned binary framing shared by the Linux server and its clients.
//!
//! Once a client is authenticated, this frame format is the stable transport
//! boundary for video, audio and input channels. A frame is a fixed 12-byte
//! header (magic, version, kind, payload length, all big-endian) followed by
//! the payload.
use vstd::prelude::*;

verus! {

/// Largest payload a frame may carry.
pub const MAX_PAYLOAD: usize = 16777216;

/// Protocol version written into, and required of, every frame header.
pub const VERSION: u16 = 1;

/// Length of the fixed frame header.
pub const HEADER_LEN: usize = 12;

/// Largest evdev key code accepted in a key event.
pub const MAX_EVDEV_CODE: u16 = 0x02ff;

/// Smallest evdev pointer-button code.
pub const MIN_POINTER_BUTTON: u16 = 0x0110;

/// Largest evdev pointer-button code.
pub const MAX_POINTER_BUTTON: u16 = 0x0117;

/// The frame magic, "MDES".
pub open spec fn magic() -> Seq<u8> {
    seq![0x4du8, 0x44u8, 0x45u8, 0x53u8]
}

/// Big-endian bytes of a 16-bit value.
pub open spec fn be16(v: u16) -> Seq<u8> {
    seq![(v / 256) as u8, (v % 256) as u8]
}

/// Big-endian bytes of a 32-bit value.
pub open spec fn be32(v: u32) -> Seq<u8> {
    seq![
        (v / 16777216) as u8,
        ((v / 65536) % 256) as u8,
        ((v / 256) % 256) as u8,
        (v % 256) as u8,
    ]
}

/// The 16-bit value whose big-endian bytes are `hi`, `lo`.
pub open spec fn from_be16(hi: u8, lo: u8) -> u16 {
    (hi * 256 + lo) as u16
}

/// The 32-bit value whose big-endian bytes are `b0`..`b3`.
pub open spec fn from_be32(b0: u8, b1: u8, b2: u8, b3: u8) -> u32 {
    (b0 * 16777216 + b1 * 65536 + b2 * 256 + b3) as u32
}

/// Two's-complement bit pattern of a signed 16-bit value.
pub open spec fn i16_bits(x: i16) -> u16 {
    if x < 0 { (x + 65536) as u16 } else { x as u16 }
}

/// The signed 16-bit value with the given two's-complement bit pattern.
pub open spec fn i16_from_bits(u: u16) -> i16 {
    if u >= 32768 { (u - 65536) as i16 } else { u as i16 }
}

/// Kind of a frame. Each kind has a fixed 16-bit wire code.
#[derive(Clone, Copy, Debug, PartialEq, Eq, Structural)]
pub enum FrameKind {
    Hello,
    Authenticate,
    DesktopList,
    SelectDesktop,
    VideoConfig,
    VideoData,
    AudioConfig,
    AudioData,
    Input,
    Ping,
    Error,
}

/// The wire code of a frame kind.
pub open spec fn kind_code(kind: FrameKind) -> u16 {
    match kind {
        FrameKind::Hello => 1,
        FrameKind::Authenticate => 2,
        FrameKind::DesktopList => 3,
        FrameKind::SelectDesktop => 4,
        FrameKind::VideoConfig => 10,
        FrameKind::VideoData => 11,
        FrameKind::AudioConfig => 20,
        FrameKind::AudioData => 21,
        FrameKind::Input => 30,
        FrameKind::Ping => 40,
        FrameKind::Error => 255,
    }
}

/// The frame kind that has wire code `code`, if any.
pub open spec fn kind_from_code(code: u16) -> Option<FrameKind> {
    if code == 1 {
        Some(FrameKind::Hello)
    } else if code == 2 {
        Some(FrameKind::Authenticate)
    } else if code == 3 {
        Some(FrameKind::DesktopList)
    } else if code == 4 {
        Some(FrameKind::SelectDesktop)
    } else if code == 10 {
        Some(FrameKind::VideoConfig)
    } else if code == 11 {
        Some(FrameKind::VideoData)
    } else if code == 20 {
        Some(FrameKind::AudioConfig)
    } else if code == 21 {
        Some(FrameKind::AudioData)
    } else if code == 30 {
        Some(FrameKind::Input)
    } else if code == 40 {
        Some(FrameKind::Ping)
    } else if code == 255 {
        Some(FrameKind::Error)
    } else {
        None
    }
}

impl FrameKind {
    /// Returns the wire code of this kind.
    pub fn code(self) -> (code: u16)
        ensures
            code == kind_code(self),
    {
        match self {
            FrameKind::Hello => 1,
            FrameKind::Authenticate => 2,
            FrameKind::DesktopList => 3,
            FrameKind::SelectDesktop => 4,
            FrameKind::VideoConfig => 10,
            FrameKind::VideoData => 11,
            FrameKind::AudioConfig => 20,
            FrameKind::AudioData => 21,
            FrameKind::Input => 30,
            FrameKind::Ping => 40,
            FrameKind::Error => 255,
        }
    }

    /// Returns the kind with wire code `value`; an unknown code is rejected.
    pub fn try_from_code(value: u16) -> (res: Result<FrameKind, TransportError>)
        ensures
            match kind_from_code(value) {
                Some(kind) => res == Ok::<FrameKind, TransportError>(kind),
                None => res == Err::<FrameKind, TransportError>(TransportError::UnknownFrameKind),
            },
    {
        match value {
            1 => Ok(FrameKind::Hello),
            2 => Ok(FrameKind::Authenticate),
            3 => Ok(FrameKind::DesktopList),
            4 => Ok(FrameKind::SelectDesktop),
            10 => Ok(FrameKind::VideoConfig),
            11 => Ok(FrameKind::VideoData),
            20 => Ok(FrameKind::AudioConfig),
            21 => Ok(FrameKind::AudioData),
            30 => Ok(FrameKind::Input),
            40 => Ok(FrameKind::Ping),
            255 => Ok(FrameKind::Error),
            _ => Err(TransportError::UnknownFrameKind),
        }
    }
}

/// Every frame kind survives the trip through its wire code, and a code
/// names at most one kind.
pub proof fn lemma_kind_code_round_trip(kind: FrameKind, code: u16)
    ensures
        kind_from_code(kind_code(kind)) == Some(kind),
        kind_from_code(code) == Some(kind) ==> kind_code(kind) == code,
{
}

/// Reasons a frame or an input event is rejected.
#[derive(Clone, Copy, Debug, PartialEq, Eq, Structural)]
pub enum TransportError {
    /// The input ended before a whole frame was available.
    UnexpectedEof,
    /// The header does not start with the frame magic.
    InvalidMagic,
    /// The header carries another protocol version.
    UnsupportedVersion,
    /// The header carries an unknown frame kind.
    UnknownFrameKind,
    /// The declared payload length exceeds the limit.
    PayloadTooLarge,
    /// A frame to be written exceeds the payload limit.
    FrameExceedsLimit,
    /// An input payload has an invalid shape or code.
    InvalidInputEvent,
    /// A frame other than an input frame arrived on the input channel.
    UnexpectedFrame,
}


/// The text of each rejection.
pub open spec fn transport_error_text(e: TransportError) -> Seq<char> {
    match e {
        TransportError::UnexpectedEof => "failed to fill whole buffer"@,
        TransportError::InvalidMagic => "invalid frame magic"@,
        TransportError::UnsupportedVersion => "unsupported protocol version"@,
        TransportError::UnknownFrameKind => "unknown frame type"@,
        TransportError::PayloadTooLarge => "declared payload exceeds limit"@,
        TransportError::FrameExceedsLimit => "frame exceeds payload limit"@,
        TransportError::InvalidInputEvent => "invalid input event"@,
        TransportError::UnexpectedFrame => "unexpected frame on input channel"@,
    }
}

impl TransportError {
    /// The text of the rejection.
    pub fn message(&self) -> (m: &'static str)
        ensures
            m@ == transport_error_text(*self),
    {
        match self {
            TransportError::UnexpectedEof => "failed to fill whole buffer",
            TransportError::InvalidMagic => "invalid frame magic",
            TransportError::UnsupportedVersion => "unsupported protocol version",
            TransportError::UnknownFrameKind => "unknown frame type",
            TransportError::PayloadTooLarge => "declared payload exceeds limit",
            TransportError::FrameExceedsLimit => "frame exceeds payload limit",
            TransportError::InvalidInputEvent => "invalid input event",
            TransportError::UnexpectedFrame => "unexpected frame on input channel",
        }
    }
}

/// Bytes of a frame of `kind` carrying `payload`.
pub open spec fn frame_bytes(kind: FrameKind, payload: Seq<u8>) -> Seq<u8> {
    magic() + be16(VERSION) + be16(kind_code(kind)) + be32(payload.len() as u32) + payload
}

/// The payload length declared by a frame header.
pub open spec fn declared_len(input: Seq<u8>) -> nat {
    from_be32(input[8], input[9], input[10], input[11]) as nat
}

/// Reading one frame from the start of `input`, accepting a payload of at
/// most `max_payload` bytes: the kind and payload of the frame, or why it is
/// rejected. Bytes after the frame are left unread.
pub open spec fn parse_frame(input: Seq<u8>, max_payload: nat) -> Result<(FrameKind, Seq<u8>), TransportError> {
    if input.len() < HEADER_LEN {
        Err(TransportError::UnexpectedEof)
    } else if input.subrange(0, 4) != magic() {
        Err(TransportError::InvalidMagic)
    } else if from_be16(input[4], input[5]) != VERSION {
        Err(TransportError::UnsupportedVersion)
    } else {
        match kind_from_code(from_be16(input[6], input[7])) {
            None => Err(TransportError::UnknownFrameKind),
            Some(kind) => {
                let len = declared_len(input);
                if len > MAX_PAYLOAD || len > max_payload {
                    Err(TransportError::PayloadTooLarge)
                } else if input.len() < HEADER_LEN + len {
                    Err(TransportError::UnexpectedEof)
                } else {
                    Ok((kind, input.subrange(HEADER_LEN as int, HEADER_LEN + len)))
                }
            },
        }
    }
}

/// A typed frame: its kind and its payload.
#[derive(Debug, PartialEq, Eq)]
pub struct Frame {
    pub kind: FrameKind,
    pub payload: Vec<u8>,
}

/// Appends `input[start..end]` to `out`.
fn push_range(out: &mut Vec<u8>, input: &[u8], start: usize, end: usize)
    requires
        start <= end <= input@.len(),
    ensures
        final(out)@ == old(out)@ + input@.subrange(start as int, end as int),
{
    let mut i = start;
    while i < end
        invariant
            start <= i <= end <= input@.len(),
            out@ == old(out)@ + input@.subrange(start as int, i as int),
        decreases end - i,
    {
        out.push(input[i]);
        i = i + 1;
        assert(out@ =~= old(out)@ + input@.subrange(start as int, i as int));
    }
}

/// Appends the big-endian bytes of `v`.
fn push_be16(out: &mut Vec<u8>, v: u16)
    ensures
        final(out)@ == old(out)@ + be16(v),
{
    out.push((v / 256) as u8);
    out.push((v % 256) as u8);
    assert(out@ =~= old(out)@ + be16(v));
}

/// Appends the big-endian bytes of `v`.
fn push_be32(out: &mut Vec<u8>, v: u32)
    ensures
        final(out)@ == old(out)@ + be32(v),
{
    out.push((v / 16777216) as u8);
    out.push(((v / 65536) % 256) as u8);
    out.push(((v / 256) % 256) as u8);
    out.push((v % 256) as u8);
    assert(out@ =~= old(out)@ + be32(v));
}

impl Frame {
    /// Appends this frame's bytes to `writer`. A payload above
    /// [`MAX_PAYLOAD`] is refused and nothing is written.
    pub fn write_to(&self, writer: &mut Vec<u8>) -> (res: Result<(), TransportError>)
        ensures
            self.payload@.len() > MAX_PAYLOAD ==> res == Err::<(), TransportError>(
                TransportError::FrameExceedsLimit,
            ) && final(writer)@ == old(writer)@,
            self.payload@.len() <= MAX_PAYLOAD ==> res is Ok && final(writer)@ == old(writer)@
                + frame_bytes(self.kind, self.payload@),
    {
        if self.payload.len() > MAX_PAYLOAD {
            return Err(TransportError::FrameExceedsLimit);
        }
        writer.push(0x4d);
        writer.push(0x44);
        writer.push(0x45);
        writer.push(0x53);
        assert(writer@ =~= old(writer)@ + magic());
        push_be16(writer, VERSION);
        push_be16(writer, self.kind.code());
        push_be32(writer, self.payload.len() as u32);
        let ghost before = writer@;
        push_range(writer, self.payload.as_slice(), 0, self.payload.len());
        assert(self.payload@.subrange(0, self.payload@.len() as int) =~= self.payload@);
        assert(writer@ =~= old(writer)@ + frame_bytes(self.kind, self.payload@));
        Ok(())
    }

    /// Reads one frame from the start of `reader`, with the default payload limit.
    pub fn read_from(reader: &[u8]) -> (res: Result<Frame, TransportError>)
        ensures
            match parse_frame(reader@, MAX_PAYLOAD as nat) {
                Ok((kind, payload)) => res matches Ok(frame) && frame.kind == kind
                    && frame.payload@ == payload,
                Err(e) => res == Err::<Frame, TransportError>(e),
            },
    {
        Self::read_from_with_limit(reader, MAX_PAYLOAD)
    }

    /// Reads one frame from the start of `reader`, refusing a declared payload
    /// above `max_payload` (or above [`MAX_PAYLOAD`]) before reading it.
    pub fn read_from_with_limit(reader: &[u8], max_payload: usize) -> (res: Result<Frame, TransportError>)
        ensures
            match parse_frame(reader@, max_payload as nat) {
                Ok((kind, payload)) => res matches Ok(frame) && frame.kind == kind
                    && frame.payload@ == payload,
                Err(e) => res == Err::<Frame, TransportError>(e),
            },
    {
        match Self::read_prefix(reader, max_payload) {
            Ok((frame, _)) => Ok(frame),
            Err(e) => Err(e),
        }
    }

    /// Reads one frame that starts at `start` in `reader` and also returns how
    /// many bytes it took.
    pub fn read_prefix_at(reader: &[u8], start: usize, max_payload: usize) -> (res: Result<(Frame, usize), TransportError>)
        requires
            start <= reader@.len(),
        ensures
            match parse_frame(reader@.skip(start as int), max_payload as nat) {
                Ok((kind, payload)) => res matches Ok((frame, used)) && frame.kind == kind
                    && frame.payload@ == payload && used == HEADER_LEN + payload.len(),
                Err(e) => res == Err::<(Frame, usize), TransportError>(e),
            },
    {
        let ghost input = reader@.skip(start as int);
        if reader.len() - start < HEADER_LEN {
            return Err(TransportError::UnexpectedEof);
        }
        assert(forall|i: int| 0 <= i < input.len() ==> input[i] == reader@[start + i]);
        if !(reader[start] == 0x4d && reader[start + 1] == 0x44 && reader[start + 2] == 0x45
            && reader[start + 3] == 0x53) {
            assert(input.subrange(0, 4) != magic()) by {
                if input.subrange(0, 4) == magic() {
                    assert(input.subrange(0, 4)[0] == input[0]);
                    assert(input.subrange(0, 4)[1] == input[1]);
                    assert(input.subrange(0, 4)[2] == input[2]);
                    assert(input.subrange(0, 4)[3] == input[3]);
                }
            }
            return Err(TransportError::InvalidMagic);
        }
        assert(input.subrange(0, 4) =~= magic());
        let version: u16 = (reader[start + 4] as u16) * 256 + reader[start + 5] as u16;
        if version != VERSION {
            return Err(TransportError::UnsupportedVersion);
        }
        let code: u16 = (reader[start + 6] as u16) * 256 + reader[start + 7] as u16;
        let kind = match FrameKind::try_from_code(code) {
            Ok(kind) => kind,
            Err(e) => return Err(e),
        };
        let length: u32 = (reader[start + 8] as u32) * 16777216 + (reader[start + 9] as u32) * 65536
            + (reader[start + 10] as u32) * 256 + reader[start + 11] as u32;
        if length as usize > MAX_PAYLOAD || length as usize > max_payload {
            return Err(TransportError::PayloadTooLarge);
        }
        let length = length as usize;
        if reader.len() - start - HEADER_LEN < length {
            return Err(TransportError::UnexpectedEof);
        }
        let mut payload: Vec<u8> = Vec::new();
        push_range(&mut payload, reader, start + HEADER_LEN, start + HEADER_LEN + length);
        assert(payload@ =~= input.subrange(HEADER_LEN as int, HEADER_LEN + length));
        Ok((Frame { kind, payload }, HEADER_LEN + length))
    }

    /// Reads one frame from the start of `reader` and also returns how many
    /// bytes it took.
    pub fn read_prefix(reader: &[u8], max_payload: usize) -> (res: Result<(Frame, usize), TransportError>)
        ensures
            match parse_frame(reader@, max_payload as nat) {
                Ok((kind, payload)) => res matches Ok((frame, used)) && frame.kind == kind
                    && frame.payload@ == payload && used == HEADER_LEN + payload.len(),
                Err(e) => res == Err::<(Frame, usize), TransportError>(e),
            },
    {
        assert(reader@.skip(0) =~= reader@);
        Self::read_prefix_at(reader, 0, max_payload)
    }
}

/// The payload length that a frame header declares, once its magic,
/// version, kind and length are checked; a frame read over a stream takes
/// that many more bytes.
pub fn payload_len(header: &[u8], max_payload: usize) -> (r: Result<usize, TransportError>)
    requires
        header@.len() == HEADER_LEN,
    ensures
        match r {
            Ok(n) => n == declared_len(header@) && forall|p: Seq<u8>| p.len() == n ==> (#[trigger] parse_frame(header@ + p, max_payload as nat)) is Ok,
            Err(e) => e != TransportError::UnexpectedEof && forall|p: Seq<u8>| #[trigger] parse_frame(header@ + p, max_payload as nat) == Err::<(FrameKind, Seq<u8>), TransportError>(e),
        },
{
    let ghost h = header@;
    assert forall|p: Seq<u8>| #![trigger (h + p)] (h + p).subrange(0, 4) == h.subrange(0, 4) && (h + p)[4] == h[4]
        && (h + p)[5] == h[5] && (h + p)[6] == h[6] && (h + p)[7] == h[7] && (h + p)[8] == h[8]
        && (h + p)[9] == h[9] && (h + p)[10] == h[10] && (h + p)[11] == h[11] by {
        assert((h + p).subrange(0, 4) =~= h.subrange(0, 4));
    }
    if !(header[0] == 0x4d && header[1] == 0x44 && header[2] == 0x45 && header[3] == 0x53) {
        assert(h.subrange(0, 4) != magic()) by {
            if h.subrange(0, 4) == magic() {
                assert(h.subrange(0, 4)[0] == h[0]);
                assert(h.subrange(0, 4)[1] == h[1]);
                assert(h.subrange(0, 4)[2] == h[2]);
                assert(h.subrange(0, 4)[3] == h[3]);
            }
        }
        assert forall|p: Seq<u8>| #[trigger] parse_frame(h + p, max_payload as nat) == Err::<(FrameKind, Seq<u8>), TransportError>(TransportError::InvalidMagic) by {
            assert((h + p).subrange(0, 4) == h.subrange(0, 4));
        }
        return Err(TransportError::InvalidMagic);
    }
    assert(h.subrange(0, 4) =~= magic());
    let version: u16 = (header[4] as u16) * 256 + header[5] as u16;
    if version != VERSION {
        assert forall|p: Seq<u8>| #[trigger] parse_frame(h + p, max_payload as nat) == Err::<(FrameKind, Seq<u8>), TransportError>(TransportError::UnsupportedVersion) by {
            assert((h + p).subrange(0, 4) == h.subrange(0, 4));
        }
        return Err(TransportError::UnsupportedVersion);
    }
    let code: u16 = (header[6] as u16) * 256 + header[7] as u16;
    if let Err(e) = FrameKind::try_from_code(code) {
        assert forall|p: Seq<u8>| #[trigger] parse_frame(h + p, max_payload as nat) == Err::<(FrameKind, Seq<u8>), TransportError>(e) by {
            assert((h + p).subrange(0, 4) == h.subrange(0, 4));
        }
        return Err(e);
    }
    let length: u32 = (header[8] as u32) * 16777216 + (header[9] as u32) * 65536 + (header[10] as u32) * 256 + header[11] as u32;
    if length as usize > MAX_PAYLOAD || length as usize > max_payload {
        assert forall|p: Seq<u8>| #[trigger] parse_frame(h + p, max_payload as nat) == Err::<(FrameKind, Seq<u8>), TransportError>(TransportError::PayloadTooLarge) by {
            assert((h + p).subrange(0, 4) == h.subrange(0, 4));
        }
        return Err(TransportError::PayloadTooLarge);
    }
    assert forall|p: Seq<u8>| p.len() == length implies (#[trigger] parse_frame(h + p, max_payload as nat)) is Ok by {
        assert((h + p).subrange(0, 4) == h.subrange(0, 4));
    }
    Ok(length as usize)
}

/// A frame that is read successfully fits in its input.
pub proof fn lemma_parse_frame_len(input: Seq<u8>, max_payload: nat)
    requires
        parse_frame(input, max_payload) is Ok,
    ensures
        HEADER_LEN + parse_frame(input, max_payload)->Ok_0.1.len() <= input.len(),
        parse_frame(input, max_payload)->Ok_0.1.len() <= max_payload,
{
}

proof fn lemma_be16_round_trip(v: u16)
    ensures
        from_be16(be16(v)[0], be16(v)[1]) == v,
{
}

proof fn lemma_be32_round_trip(v: u32)
    ensures
        from_be32(be32(v)[0], be32(v)[1], be32(v)[2], be32(v)[3]) == v,
{
    let b0 = v / 16777216;
    let b1 = (v / 65536) % 256;
    let b2 = (v / 256) % 256;
    let b3 = v % 256;
    let x = v as int;
    let q1 = x / 256;
    let q2 = q1 / 256;
    let q3 = q2 / 256;
    assert(x == q1 * 256 + x % 256);
    assert(q1 == q2 * 256 + q1 % 256);
    assert(q2 == q3 * 256 + q2 % 256);
    assert(q2 == x / 65536) by {
        vstd::arithmetic::div_mod::lemma_div_denominator(x, 256, 256);
    }
    assert(q3 == x / 16777216) by {
        vstd::arithmetic::div_mod::lemma_div_denominator(x, 65536, 256);
    }
    assert(b0 * 16777216 + b1 * 65536 + b2 * 256 + b3 == v);
}

proof fn lemma_from_be16_bytes(hi: u8, lo: u8)
    ensures
        be16(from_be16(hi, lo)) == seq![hi, lo],
{
    assert(be16(from_be16(hi, lo)) =~= seq![hi, lo]);
}

proof fn lemma_from_be32_bytes(b0: u8, b1: u8, b2: u8, b3: u8)
    ensures
        be32(from_be32(b0, b1, b2, b3)) == seq![b0, b1, b2, b3],
{
    let v = b0 * 16777216 + b1 * 65536 + b2 * 256 + b3;
    assert(v / 16777216 == b0 && (v / 65536) % 256 == b1 && (v / 256) % 256 == b2 && v % 256 == b3)
        by (nonlinear_arith)
        requires
            v == b0 * 16777216 + b1 * 65536 + b2 * 256 + b3,
            0 <= b0 < 256,
            0 <= b1 < 256,
            0 <= b2 < 256,
            0 <= b3 < 256,
    ;
    assert(be32(from_be32(b0, b1, b2, b3)) =~= seq![b0, b1, b2, b3]);
}

/// A frame written with a payload within both limits is read back as the same
/// kind and payload, whatever bytes follow it.
pub proof fn lemma_frame_round_trip(kind: FrameKind, payload: Seq<u8>, rest: Seq<u8>, max_payload: nat)
    requires
        payload.len() <= MAX_PAYLOAD,
        payload.len() <= max_payload,
    ensures
        parse_frame(frame_bytes(kind, payload) + rest, max_payload) == Ok::<(FrameKind, Seq<u8>), TransportError>((kind, payload)),
{
    let bytes = frame_bytes(kind, payload) + rest;
    let len = payload.len() as u32;
    lemma_be16_round_trip(VERSION);
    lemma_be16_round_trip(kind_code(kind));
    lemma_be32_round_trip(len);
    lemma_kind_code_round_trip(kind, kind_code(kind));
    assert(bytes.subrange(0, 4) =~= magic());
    assert(bytes[4] == be16(VERSION)[0] && bytes[5] == be16(VERSION)[1]);
    assert(bytes[6] == be16(kind_code(kind))[0] && bytes[7] == be16(kind_code(kind))[1]);
    assert(bytes[8] == be32(len)[0] && bytes[9] == be32(len)[1] && bytes[10] == be32(len)[2]
        && bytes[11] == be32(len)[3]);
    assert(declared_len(bytes) == payload.len());
    assert(bytes.subrange(HEADER_LEN as int, HEADER_LEN + payload.len()) =~= payload);
}

/// A frame that is read successfully is exactly the bytes that writing its
/// kind and payload produces: the encoding is canonical.
pub proof fn lemma_frame_parse_canonical(input: Seq<u8>, max_payload: nat)
    requires
        parse_frame(input, max_payload) is Ok,
    ensures
        ({
            let (kind, payload) = parse_frame(input, max_payload)->Ok_0;
            input.subrange(0, HEADER_LEN + payload.len()) == frame_bytes(kind, payload)
        }),
{
    let (kind, payload) = parse_frame(input, max_payload)->Ok_0;
    lemma_from_be16_bytes(input[4], input[5]);
    lemma_from_be16_bytes(input[6], input[7]);
    lemma_from_be32_bytes(input[8], input[9], input[10], input[11]);
    lemma_kind_code_round_trip(kind, from_be16(input[6], input[7]));
    assert(input.subrange(0, 4) == magic());
    assert(payload.len() as u32 == from_be32(input[8], input[9], input[10], input[11]));
    assert(input.subrange(0, HEADER_LEN + payload.len()) =~= frame_bytes(kind, payload));
}


/// Input payload carried inside a [`FrameKind::Input`] frame. Key and button
/// values are Linux evdev codes; pointer and scroll deltas are signed logical
/// units. The compact fixed-width forms make partial or oversized packets easy
/// to reject before they reach the session input agent.
#[derive(Clone, Copy, Debug, PartialEq, Eq, Structural)]
pub enum InputEvent {
    Key { code: u16, pressed: bool },
    PointerMotion { x: i16, y: i16 },
    PointerButton { code: u16, pressed: bool },
    Scroll { x: i16, y: i16 },
    Reset,
}

/// Bytes of a tagged pair of signed 16-bit values.
pub open spec fn pair_bytes(tag: u8, x: i16, y: i16) -> Seq<u8> {
    seq![tag] + be16(i16_bits(x)) + be16(i16_bits(y))
}

/// Bytes of a tagged code with a press flag.
pub open spec fn code_bytes(tag: u8, code: u16, pressed: bool) -> Seq<u8> {
    seq![tag, if pressed { 1u8 } else { 0u8 }] + be16(code)
}

/// The encoding of an input event.
pub open spec fn encode_event(event: InputEvent) -> Seq<u8> {
    match event {
        InputEvent::Key { code, pressed } => code_bytes(1, code, pressed),
        InputEvent::PointerMotion { x, y } => pair_bytes(2, x, y),
        InputEvent::PointerButton { code, pressed } => code_bytes(3, code, pressed),
        InputEvent::Scroll { x, y } => pair_bytes(4, x, y),
        InputEvent::Reset => seq![5u8],
    }
}

/// An event whose codes lie in the accepted ranges: key codes in
/// `1..=MAX_EVDEV_CODE`, button codes in `MIN_POINTER_BUTTON..=MAX_POINTER_BUTTON`.
pub open spec fn valid_event(event: InputEvent) -> bool {
    match event {
        InputEvent::Key { code, .. } => 1 <= code <= MAX_EVDEV_CODE,
        InputEvent::PointerButton { code, .. } => MIN_POINTER_BUTTON <= code <= MAX_POINTER_BUTTON,
        _ => true,
    }
}

/// The event encoded by `payload`, if the payload is one of the accepted shapes
/// with accepted codes.
pub open spec fn decode_event(p: Seq<u8>) -> Option<InputEvent> {
    if p.len() == 4 && p[0] == 1 && p[1] <= 1 {
        let code = from_be16(p[2], p[3]);
        if code == 0 || code > MAX_EVDEV_CODE {
            None
        } else {
            Some(InputEvent::Key { code, pressed: p[1] == 1 })
        }
    } else if p.len() == 5 && p[0] == 2 {
        Some(InputEvent::PointerMotion {
            x: i16_from_bits(from_be16(p[1], p[2])),
            y: i16_from_bits(from_be16(p[3], p[4])),
        })
    } else if p.len() == 4 && p[0] == 3 && p[1] <= 1 {
        let code = from_be16(p[2], p[3]);
        if MIN_POINTER_BUTTON <= code <= MAX_POINTER_BUTTON {
            Some(InputEvent::PointerButton { code, pressed: p[1] == 1 })
        } else {
            None
        }
    } else if p.len() == 5 && p[0] == 4 {
        Some(InputEvent::Scroll {
            x: i16_from_bits(from_be16(p[1], p[2])),
            y: i16_from_bits(from_be16(p[3], p[4])),
        })
    } else if p.len() == 1 && p[0] == 5 {
        Some(InputEvent::Reset)
    } else {
        None
    }
}

/// Encoded length of an event that starts with `tag`.
pub open spec fn len_for_tag(tag: u8) -> Option<usize> {
    if tag == 1 || tag == 3 {
        Some(4)
    } else if tag == 2 || tag == 4 {
        Some(5)
    } else if tag == 5 {
        Some(1)
    } else {
        None
    }
}

fn i16_to_bits(x: i16) -> (u: u16)
    ensures
        u == i16_bits(x),
{
    if x < 0 {
        (x as i32 + 65536) as u16
    } else {
        x as u16
    }
}

fn i16_of_bits(u: u16) -> (x: i16)
    ensures
        x == i16_from_bits(u),
{
    if u >= 32768 {
        (u as i32 - 65536) as i16
    } else {
        u as i16
    }
}

/// Encodes a tag followed by two signed big-endian values.
fn encode_pair(tag: u8, x: i16, y: i16) -> (bytes: Vec<u8>)
    ensures
        bytes@ == pair_bytes(tag, x, y),
{
    let mut bytes: Vec<u8> = Vec::new();
    bytes.push(tag);
    push_be16(&mut bytes, i16_to_bits(x));
    push_be16(&mut bytes, i16_to_bits(y));
    assert(bytes@ =~= pair_bytes(tag, x, y));
    bytes
}

fn encode_code(tag: u8, code: u16, pressed: bool) -> (bytes: Vec<u8>)
    ensures
        bytes@ == code_bytes(tag, code, pressed),
{
    let mut bytes: Vec<u8> = Vec::new();
    bytes.push(tag);
    bytes.push(if pressed { 1u8 } else { 0u8 });
    push_be16(&mut bytes, code);
    assert(bytes@ =~= code_bytes(tag, code, pressed));
    bytes
}

impl InputEvent {
    /// Longest encoding of any input event.
    pub const MAX_ENCODED_LEN: usize = 5;

    /// The compact fixed-width encoding of this event.
    pub fn encode(self) -> (bytes: Vec<u8>)
        ensures
            bytes@ == encode_event(self),
    {
        match self {
            InputEvent::Key { code, pressed } => encode_code(1, code, pressed),
            InputEvent::PointerMotion { x, y } => encode_pair(2, x, y),
            InputEvent::PointerButton { code, pressed } => encode_code(3, code, pressed),
            InputEvent::Scroll { x, y } => encode_pair(4, x, y),
            InputEvent::Reset => {
                let mut bytes: Vec<u8> = Vec::new();
                bytes.push(5);
                assert(bytes@ =~= seq![5u8]);
                bytes
            },
        }
    }

    /// Decodes one event; a payload of any other shape, or with a key or button
    /// code outside its range, is rejected.
    pub fn decode(payload: &[u8]) -> (res: Result<InputEvent, TransportError>)
        ensures
            match decode_event(payload@) {
                Some(event) => res == Ok::<InputEvent, TransportError>(event),
                None => res == Err::<InputEvent, TransportError>(TransportError::InvalidInputEvent),
            },
    {
        let n = payload.len();
        if n == 4 && payload[0] == 1 && payload[1] <= 1 {
            let code: u16 = (payload[2] as u16) * 256 + payload[3] as u16;
            if code == 0 || code > MAX_EVDEV_CODE {
                return Err(TransportError::InvalidInputEvent);
            }
            Ok(InputEvent::Key { code, pressed: payload[1] == 1 })
        } else if n == 5 && payload[0] == 2 {
            let x = i16_of_bits((payload[1] as u16) * 256 + payload[2] as u16);
            let y = i16_of_bits((payload[3] as u16) * 256 + payload[4] as u16);
            Ok(InputEvent::PointerMotion { x, y })
        } else if n == 4 && payload[0] == 3 && payload[1] <= 1 {
            let code: u16 = (payload[2] as u16) * 256 + payload[3] as u16;
            if !(MIN_POINTER_BUTTON <= code && code <= MAX_POINTER_BUTTON) {
                return Err(TransportError::InvalidInputEvent);
            }
            Ok(InputEvent::PointerButton { code, pressed: payload[1] == 1 })
        } else if n == 5 && payload[0] == 4 {
            let x = i16_of_bits((payload[1] as u16) * 256 + payload[2] as u16);
            let y = i16_of_bits((payload[3] as u16) * 256 + payload[4] as u16);
            Ok(InputEvent::Scroll { x, y })
        } else if n == 1 && payload[0] == 5 {
            Ok(InputEvent::Reset)
        } else {
            Err(TransportError::InvalidInputEvent)
        }
    }

    /// Encoded length of an event starting with `tag`; `None` for an unknown tag.
    pub fn encoded_len_for_tag(tag: u8) -> (len: Option<usize>)
        ensures
            len == len_for_tag(tag),
    {
        match tag {
            1 | 3 => Some(4),
            2 | 4 => Some(5),
            5 => Some(1),
            _ => None,
        }
    }
}

proof fn lemma_i16_bits_round_trip(x: i16, u: u16)
    ensures
        i16_from_bits(i16_bits(x)) == x,
        i16_bits(i16_from_bits(u)) == u,
{
}

/// Every valid event decodes back from its own encoding.
pub proof fn lemma_event_round_trip(event: InputEvent)
    requires
        valid_event(event),
    ensures
        decode_event(encode_event(event)) == Some(event),
{
    match event {
        InputEvent::Key { code, pressed } => {
            lemma_be16_round_trip(code);
        },
        InputEvent::PointerButton { code, pressed } => {
            lemma_be16_round_trip(code);
        },
        InputEvent::PointerMotion { x, y } => {
            lemma_be16_round_trip(i16_bits(x));
            lemma_be16_round_trip(i16_bits(y));
            lemma_i16_bits_round_trip(x, 0);
            lemma_i16_bits_round_trip(y, 0);
        },
        InputEvent::Scroll { x, y } => {
            lemma_be16_round_trip(i16_bits(x));
            lemma_be16_round_trip(i16_bits(y));
            lemma_i16_bits_round_trip(x, 0);
            lemma_i16_bits_round_trip(y, 0);
        },
        InputEvent::Reset => {},
    }
}

/// A payload that decodes is exactly the encoding of the decoded event, the
/// event is valid, and its length is the one announced by its tag.
pub proof fn lemma_event_decode_canonical(payload: Seq<u8>)
    requires
        decode_event(payload) is Some,
    ensures
        encode_event(decode_event(payload)->Some_0) == payload,
        valid_event(decode_event(payload)->Some_0),
        len_for_tag(payload[0]) == Some(payload.len() as usize),
{
    let event = decode_event(payload)->Some_0;
    if payload.len() >= 3 {
        lemma_from_be16_bytes(payload[1], payload[2]);
        lemma_i16_bits_round_trip(0, from_be16(payload[1], payload[2]));
    }
    if payload.len() >= 4 {
        lemma_from_be16_bytes(payload[2], payload[3]);
    }
    if payload.len() >= 5 {
        lemma_from_be16_bytes(payload[3], payload[4]);
        lemma_i16_bits_round_trip(0, from_be16(payload[3], payload[4]));
    }
    assert(encode_event(event) =~= payload);
}

/// The tag of every encoding announces that encoding's length.
pub proof fn lemma_event_len_for_tag(event: InputEvent)
    ensures
        len_for_tag(encode_event(event)[0]) == Some(encode_event(event).len() as usize),
        encode_event(event).len() <= 5,
{
}

} // verus!
