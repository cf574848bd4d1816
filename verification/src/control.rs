//! The line layer of the control protocol: bounded UTF-8 lines.
use vstd::prelude::*;

verus! {

/// The protocol identification sent first on every control connection.
pub const BANNER: &'static str = "MULTIDESKTOP/1";

/// The authentication prompt sent after the banner.
pub const AUTH_PROMPT: &'static str = "AUTH <token>";

/// The reply that opens a video stream.
pub const VIDEO_REPLY: &'static str = "OK video;codec=h264;framing=annex-b";

/// The configuration carried by the first frame of a video stream.
pub const VIDEO_CONFIG: &'static str = "codec=h264;framing=annex-b";

/// The reply that opens an audio stream.
pub const AUDIO_REPLY: &'static str = "OK audio;codec=opus;container=ogg;rate=48000;channels=2";

/// The configuration carried by the first frame of an audio stream.
pub const AUDIO_CONFIG: &'static str = "codec=opus;container=ogg;rate=48000;channels=2";

/// The reply that opens an input stream.
pub const INPUT_REPLY: &'static str = "OK input;framing=mdes;events=key,pointer,button,scroll";

/// The longest control line, terminator included, in bytes.
pub const MAX_LINE_BYTES: u64 = 4096;

/// Why a control line was refused.
#[derive(Clone, Copy, Debug, PartialEq, Eq, Structural)]
pub enum LineError {
    /// More than [`MAX_LINE_BYTES`] bytes came before the end of the line.
    TooLong,
    /// The line is not UTF-8.
    NotUtf8,
}

/// The text of each refusal.
pub open spec fn line_error_text(e: LineError) -> Seq<char> {
    match e {
        LineError::TooLong => "protocol line exceeds 4096 bytes"@,
        LineError::NotUtf8 => "protocol line is not UTF-8"@,
    }
}

impl LineError {
    /// The text of the refusal.
    pub fn message(&self) -> (m: &'static str)
        ensures
            m@ == line_error_text(*self),
    {
        match self {
            LineError::TooLong => "protocol line exceeds 4096 bytes",
            LineError::NotUtf8 => "protocol line is not UTF-8",
        }
    }
}

/// Index of the first `\n` in `input` at or after `i`, or its length.
pub open spec fn newline_from(input: Seq<u8>, i: int) -> int
    decreases input.len() - i,
{
    if 0 <= i < input.len() && input[i] != 10 {
        newline_from(input, i + 1)
    } else {
        i
    }
}

/// How many bytes a line read takes from `input`: up to and including the
/// first `\n`, or all of it, and never more than one byte past the limit.
pub open spec fn line_extent(input: Seq<u8>) -> int {
    let k = newline_from(input, 0);
    let end = if k < input.len() { k + 1 } else { input.len() as int };
    if end > MAX_LINE_BYTES + 1 {
        MAX_LINE_BYTES + 1
    } else {
        end
    }
}

proof fn lemma_newline_from(input: Seq<u8>, i: int)
    requires
        0 <= i <= input.len(),
    ensures
        i <= newline_from(input, i) <= input.len(),
    decreases input.len() - i,
{
    if i < input.len() && input[i] != 10 {
        lemma_newline_from(input, i + 1);
    }
}

/// Calls `String::from_utf8`. Claimed: it succeeds exactly on valid UTF-8,
/// and then holds the characters that the bytes encode.
#[verifier::external_body]
fn utf8_text(bytes: &[u8]) -> (r: Option<String>)
    ensures
        match r {
            Some(s) => vstd::utf8::valid_utf8(bytes@) && s@ == vstd::utf8::decode_utf8(bytes@),
            None => !vstd::utf8::valid_utf8(bytes@),
        },
{
    String::from_utf8(bytes.to_vec()).ok()
}

/// Reads one control line from the bytes `input` that a peer sent: the
/// bytes up to and including the first `\n` (or all of them), at most
/// [`MAX_LINE_BYTES`]. On success `line` holds the line, terminator
/// included, and the count of bytes taken is returned; on failure `line` is
/// left as it was.
pub fn read_line(input: &[u8], line: &mut String) -> (r: Result<usize, LineError>)
    ensures
        ({
            let n = line_extent(input@);
            let bytes = input@.take(n);
            &&& n > MAX_LINE_BYTES ==> r == Err::<usize, LineError>(LineError::TooLong) && final(line)@ == old(line)@
            &&& n <= MAX_LINE_BYTES && !vstd::utf8::valid_utf8(bytes) ==> r == Err::<usize, LineError>(LineError::NotUtf8)
                && final(line)@ == old(line)@
            &&& n <= MAX_LINE_BYTES && vstd::utf8::valid_utf8(bytes) ==> r == Ok::<usize, LineError>(n as usize)
                && final(line)@ == vstd::utf8::decode_utf8(bytes)
        }),
{
    let limit: usize = 4097;
    let mut i: usize = 0;
    proof { lemma_newline_from(input@, 0); }
    while i < input.len() && input[i] != 10
        invariant
            i <= input@.len(),
            limit == MAX_LINE_BYTES + 1,
            newline_from(input@, 0) == newline_from(input@, i as int),
        decreases input@.len() - i,
    {
        if i >= limit {
            proof {
                lemma_newline_from(input@, i + 1);
                assert(newline_from(input@, i as int) == newline_from(input@, i + 1));
            }
            return Err(LineError::TooLong);
        }
        i = i + 1;
    }
    assert(newline_from(input@, i as int) == i);
    let end = if i < input.len() { i + 1 } else { input.len() };
    if end > limit - 1 {
        return Err(LineError::TooLong);
    }
    let bytes = vstd::slice::slice_subrange(input, 0, end);
    assert(bytes@ =~= input@.take(end as int));
    match utf8_text(bytes) {
        Some(text) => {
            *line = text;
            Ok(end)
        },
        None => Err(LineError::NotUtf8),
    }
}

} // verus!
