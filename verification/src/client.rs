//! The control client: what it sends and how it judges the server's
//! answers, as a session that the program drives with the lines and frames
//! it reads.
use crate::control::{AUDIO_CONFIG, AUDIO_REPLY, AUTH_PROMPT, BANNER, INPUT_REPLY, VIDEO_CONFIG, VIDEO_REPLY};
use crate::number::{parse_radix, parse_unsigned};
use crate::pairing::has_prefix;
use crate::protocol::{
    concat, control_step, lemma_verbs_route_to_their_kinds, may_manage, ActionView, EventView, LimiterEffect,
    PhaseView, PrincipalView, RouteKind,
};
use crate::text::{is_word, lemma_two_word_tokens, chars_of, find, find_char, lemma_find_char, slice_to_vec, starts_with, strip_prefix, string_from, trim, trim_chars, chars_eq_str};
use crate::transport::{
    encode_event, frame_bytes, lemma_event_len_for_tag, transport_error_text, valid_event, Frame,
    FrameKind, InputEvent, TransportError, MAX_EVDEV_CODE, MAX_POINTER_BUTTON, MIN_POINTER_BUTTON,
};
use rustls::pki_types::ServerName;
use vstd::prelude::*;

verus! {

/// Whether rustls takes `name` as a server name: a DNS name or an IP
/// address.
pub uninterp spec fn server_name_valid(name: Seq<char>) -> bool;

/// Calls `ServerName::try_from` on `name`. Claimed: whether it succeeds
/// depends on `name` alone, and is named; the name itself is left opaque.
#[verifier::external_body]
fn parse_server_name(name: String) -> (r: Option<ServerName<'static>>)
    ensures
        r is Some <==> server_name_valid(name@),
{
    ServerName::try_from(name).ok()
}

/// The name the client checks the server's certificate against: the one
/// given, else the address up to its first `:`.
pub open spec fn tls_name_text(address: Seq<char>, server_name: Option<Seq<char>>) -> Seq<char> {
    match server_name {
        Some(name) => name,
        None => address.take(find_char(address, ':', 0)),
    }
}

/// The text of the name the client checks the server's certificate
/// against.
pub fn tls_name(address: &str, server_name: Option<&str>) -> (r: String)
    ensures
        r@ == tls_name_text(address@, match server_name { Some(n) => Some(n@), None => None }),
{
    match server_name {
        Some(name) => {
            let chars = chars_of(name);
            string_from(chars.as_slice())
        },
        None => {
            let chars = chars_of(address);
            proof { lemma_find_char(chars@, ':', 0); }
            let end = find(chars.as_slice(), ':', 0);
            let host = slice_to_vec(chars.as_slice(), 0, end);
            assert(host@ =~= address@.take(end as int));
            string_from(host.as_slice())
        },
    }
}

/// The server name for a TLS connection to `address`: `server_name` when
/// given, else the address up to its first `:`; `None` when rustls does not
/// take that text as a DNS name or an IP address.
pub fn tls_server_name(address: &str, server_name: Option<&str>) -> (r: Option<ServerName<'static>>)
    ensures
        r is Some <==> server_name_valid(
            tls_name_text(address@, match server_name { Some(n) => Some(n@), None => None }),
        ),
{
    let name = tls_name(address, server_name);
    parse_server_name(name)
}

/// What a server's answer to a command means: success with the trimmed line
/// when it starts with `OK`, else failure with the trimmed line.
pub open spec fn command_outcome(line: Seq<char>) -> Result<Seq<char>, Seq<char>> {
    if has_prefix(line, "OK"@) {
        Ok(trim(line))
    } else {
        Err(trim(line))
    }
}

/// Judges the server's answer to a command.
pub fn command_response(line: &str) -> (r: Result<String, String>)
    ensures
        match command_outcome(line@) {
            Ok(t) => r matches Ok(s) && s@ == t,
            Err(t) => r matches Err(s) && s@ == t,
        },
{
    let chars = chars_of(line);
    let t = trim_chars(chars.as_slice());
    if starts_with(chars.as_slice(), "OK") {
        Ok(string_from(t.as_slice()))
    } else {
        Err(string_from(t.as_slice()))
    }
}

/// A number that did not parse.
#[derive(Clone, Copy, Debug, PartialEq, Eq, Structural)]
pub struct ParseIntError;

/// An evdev code as the client reads it: hexadecimal after `0x`, else
/// decimal, as `u16::from_str_radix` reads each.
pub open spec fn evdev_code(value: Seq<char>) -> Option<int> {
    if has_prefix(value, "0x"@) {
        parse_unsigned(value.skip(2), 16, u16::MAX as int)
    } else {
        parse_unsigned(value, 10, u16::MAX as int)
    }
}

/// Reads an evdev code: `0x` and hexadecimal digits, or decimal digits.
pub fn parse_u16(value: &str) -> (r: Result<u16, ParseIntError>)
    ensures
        match evdev_code(value@) {
            Some(v) => r == Ok::<u16, ParseIntError>(v as u16),
            None => r == Err::<u16, ParseIntError>(ParseIntError),
        },
{
    let chars = chars_of(value);
    proof { reveal_strlit("0x"); }
    let parsed = match strip_prefix(chars.as_slice(), "0x") {
        Some(hex) => {
            assert(hex@ == value@.skip(2));
            parse_radix(hex.as_slice(), 16, 0xffff)
        },
        None => parse_radix(chars.as_slice(), 10, 0xffff),
    };
    match parsed {
        Some(v) => {
            assert(evdev_code(value@) is Some);
            assert(evdev_code(value@)->Some_0 <= 0xffff);
            assert(v == evdev_code(value@)->Some_0);
            Ok(v as u16)
        },
        None => Err(ParseIntError),
    }
}

/// Whether `event` carries codes in the accepted ranges.
pub fn event_is_valid(event: InputEvent) -> (r: bool)
    ensures
        r == valid_event(event),
{
    match event {
        InputEvent::Key { code, .. } => 1 <= code && code <= MAX_EVDEV_CODE,
        InputEvent::PointerButton { code, .. } => MIN_POINTER_BUTTON <= code && code <= MAX_POINTER_BUTTON,
        _ => true,
    }
}

/// Checks the events a client is about to send, before it connects.
pub fn check_events(events: &[InputEvent]) -> (r: Result<(), TransportError>)
    ensures
        r is Ok <==> forall|i: int| 0 <= i < events@.len() ==> valid_event(#[trigger] events@[i]),
        r is Err ==> r == Err::<(), TransportError>(TransportError::InvalidInputEvent),
{
    let mut i: usize = 0;
    while i < events.len()
        invariant
            i <= events@.len(),
            forall|k: int| 0 <= k < i ==> valid_event(#[trigger] events@[k]),
        decreases events@.len() - i,
    {
        if !event_is_valid(events[i]) {
            return Err(TransportError::InvalidInputEvent);
        }
        i = i + 1;
    }
    Ok(())
}

/// The input frames a client sends for `events`: one frame per event, then
/// a reset.
pub open spec fn input_frames(events: Seq<InputEvent>) -> Seq<u8>
    decreases events.len(),
{
    if events.len() == 0 {
        frame_bytes(FrameKind::Input, encode_event(InputEvent::Reset))
    } else {
        frame_bytes(FrameKind::Input, encode_event(events[0])) + input_frames(events.drop_first())
    }
}

/// The bytes of the input frames for `events`.
pub fn encode_input_frames(events: &[InputEvent]) -> (r: Vec<u8>)
    ensures
        r@ == input_frames(events@),
{
    let mut out: Vec<u8> = Vec::new();
    let mut i: usize = events.len();
    let reset = Frame { kind: FrameKind::Input, payload: InputEvent::Reset.encode() };
    proof { lemma_event_len_for_tag(InputEvent::Reset); }
    let _ = reset.write_to(&mut out);
    assert(events@.skip(events@.len() as int) =~= Seq::<InputEvent>::empty());
    while i > 0
        invariant
            i <= events@.len(),
            out@ == input_frames(events@.skip(i as int)),
        decreases i,
    {
        i = i - 1;
        let mut head: Vec<u8> = Vec::new();
        let frame = Frame { kind: FrameKind::Input, payload: events[i].encode() };
        proof { lemma_event_len_for_tag(events@[i as int]); }
        let _ = frame.write_to(&mut head);
        let ghost tail = out@;
        head.append(&mut out);
        out = head;
        assert(events@.skip(i as int).drop_first() =~= events@.skip(i + 1));
        assert(events@.skip(i as int)[0] == events@[i as int]);
        assert(out@ =~= input_frames(events@.skip(i as int)));
    }
    assert(events@.skip(0) =~= events@);
    out
}

/// What a client connection asks of the server.
#[derive(Debug)]
pub enum ClientRequest {
    /// Redeem this pairing code.
    Pair(String),
    /// Send this command line and report the answer.
    Command(String),
    /// Receive the video stream of this desktop.
    Video(String),
    /// Receive the audio stream of this desktop.
    Audio(String),
    /// Send these input events to this desktop.
    Input(String, Vec<InputEvent>),
}

pub enum RequestView {
    Pair(Seq<char>),
    Command(Seq<char>),
    Video(Seq<char>),
    Audio(Seq<char>),
    Input(Seq<char>, Seq<InputEvent>),
}

impl View for ClientRequest {
    type V = RequestView;

    open spec fn view(&self) -> RequestView {
        match self {
            ClientRequest::Pair(c) => RequestView::Pair(c@),
            ClientRequest::Command(q) => RequestView::Command(q@),
            ClientRequest::Video(d) => RequestView::Video(d@),
            ClientRequest::Audio(d) => RequestView::Audio(d@),
            ClientRequest::Input(d, es) => RequestView::Input(d@, es@),
        }
    }
}

/// Where a client connection stands.
#[derive(Clone, Copy, Debug, PartialEq, Eq, Structural)]
pub enum ClientPhase {
    /// Waiting for the banner line.
    Banner,
    /// Waiting for the authentication prompt.
    Prompt,
    /// Credentials sent; waiting for their answer.
    AuthReply,
    /// Request sent; waiting for its answer.
    RequestReply,
    /// Waiting for the frame that configures the stream.
    StreamConfig,
    /// Receiving stream data; this many payload bytes so far.
    Streaming(u64),
    /// Finished.
    Done,
}

/// What the client read.
#[derive(Debug)]
pub enum ClientEvent {
    /// A line (empty when the input has ended).
    Line(String),
    /// A frame.
    Frame(Frame),
    /// The input ended where a frame would begin.
    End,
}

pub enum ClientEventView {
    Line(Seq<char>),
    Frame(FrameKind, Seq<u8>),
    End,
}

impl View for ClientEvent {
    type V = ClientEventView;

    open spec fn view(&self) -> ClientEventView {
        match self {
            ClientEvent::Line(l) => ClientEventView::Line(l@),
            ClientEvent::Frame(f) => ClientEventView::Frame(f.kind, f.payload@),
            ClientEvent::End => ClientEventView::End,
        }
    }
}

/// The class of a client failure.
#[derive(Clone, Copy, Debug, PartialEq, Eq, Structural)]
pub enum FailureKind {
    InvalidData,
    PermissionDenied,
    UnexpectedEof,
    Other,
}

/// Why a client request failed: its class and message.
#[derive(Clone, Debug)]
pub struct ClientFailure {
    pub kind: FailureKind,
    pub message: String,
}

/// What a finished request gives.
#[derive(Clone, Debug)]
pub enum ClientOutcome {
    /// The server's answer line, trimmed.
    Response(String),
    /// The stream ended after this many payload bytes.
    Received(u64),
    /// The input frames were sent.
    Sent,
}

pub enum OutcomeView {
    Response(Seq<char>),
    Received(u64),
    Sent,
}

/// What the client does next.
#[derive(Debug)]
pub enum ClientAction {
    /// Read the next line or frame.
    Continue,
    /// Send this text, then read the next line.
    Send(String),
    /// Write this payload to the output, then read the next frame.
    Write(Vec<u8>),
    /// Send these bytes, flush, and finish with [`ClientOutcome::Sent`].
    SendAndFinish(Vec<u8>),
    /// Finish with this result.
    Finish(Result<ClientOutcome, ClientFailure>),
}

pub enum ClientActionView {
    Continue,
    Send(Seq<char>),
    Write(Seq<u8>),
    SendAndFinish(Seq<u8>),
    Finish(Result<OutcomeView, (FailureKind, Seq<char>)>),
}

impl View for ClientAction {
    type V = ClientActionView;

    open spec fn view(&self) -> ClientActionView {
        match self {
            ClientAction::Continue => ClientActionView::Continue,
            ClientAction::Send(t) => ClientActionView::Send(t@),
            ClientAction::Write(p) => ClientActionView::Write(p@),
            ClientAction::SendAndFinish(b) => ClientActionView::SendAndFinish(b@),
            ClientAction::Finish(Ok(o)) => ClientActionView::Finish(Ok(match o {
                ClientOutcome::Response(t) => OutcomeView::Response(t@),
                ClientOutcome::Received(n) => OutcomeView::Received(*n),
                ClientOutcome::Sent => OutcomeView::Sent,
            })),
            ClientAction::Finish(Err(f)) => ClientActionView::Finish(Err((f.kind, f.message@))),
        }
    }
}

/// The failure for a banner that is not ours.
pub open spec fn banner_error(r: RequestView) -> Seq<char> {
    match r {
        RequestView::Command(_) => "server is not a compatible Multi-Desktop control endpoint"@,
        _ => "incompatible server"@,
    }
}

/// The failure for a prompt that is not ours.
pub open spec fn prompt_error(r: RequestView) -> Seq<char> {
    match r {
        RequestView::Pair(_) => "invalid pairing prompt"@,
        RequestView::Command(_) => "server sent an invalid authentication prompt"@,
        _ => "invalid authentication prompt"@,
    }
}

/// The line that presents the client's credentials.
pub open spec fn credential_line(r: RequestView, token: Seq<char>) -> Seq<char> {
    match r {
        RequestView::Pair(code) => "PAIR "@ + code + "\n"@,
        _ => "AUTH "@ + token + "\n"@,
    }
}

/// The line that makes the request once authenticated.
pub open spec fn request_text(r: RequestView) -> Seq<char> {
    match r {
        RequestView::Command(q) => q + "\n"@,
        RequestView::Video(d) => "VIDEO "@ + d + "\n"@,
        RequestView::Audio(d) => "AUDIO "@ + d + "\n"@,
        RequestView::Input(d, _) => "INPUT-STREAM "@ + d + "\n"@,
        RequestView::Pair(_) => Seq::empty(),
    }
}

/// Finishing with a failure.
pub open spec fn fail(kind: FailureKind, message: Seq<char>) -> ClientActionView {
    ClientActionView::Finish(Err((kind, message)))
}

/// The failure for an event that the phase does not read.
pub open spec fn out_of_turn() -> ClientActionView {
    fail(FailureKind::InvalidData, "unexpected protocol event"@)
}

/// One step of a client connection for request `r` with credential `token`:
/// the next phase and what to do.
pub open spec fn client_step(r: RequestView, token: Seq<char>, phase: ClientPhase, ev: ClientEventView) -> (ClientPhase, ClientActionView) {
    match phase {
        ClientPhase::Banner => match ev {
            ClientEventView::Line(l) => if trim(l) == BANNER@ {
                (ClientPhase::Prompt, ClientActionView::Continue)
            } else {
                (ClientPhase::Done, fail(FailureKind::InvalidData, banner_error(r)))
            },
            _ => (ClientPhase::Done, out_of_turn()),
        },
        ClientPhase::Prompt => match ev {
            ClientEventView::Line(l) => if trim(l) == AUTH_PROMPT@ {
                (ClientPhase::AuthReply, ClientActionView::Send(credential_line(r, token)))
            } else {
                (ClientPhase::Done, fail(FailureKind::InvalidData, prompt_error(r)))
            },
            _ => (ClientPhase::Done, out_of_turn()),
        },
        ClientPhase::AuthReply => match ev {
            ClientEventView::Line(l) => match r {
                RequestView::Pair(_) => if has_prefix(l, "OK paired "@) {
                    (ClientPhase::Done, ClientActionView::Finish(Ok(OutcomeView::Response(trim(l)))))
                } else {
                    (ClientPhase::Done, fail(FailureKind::PermissionDenied, trim(l)))
                },
                _ => if has_prefix(l, "OK"@) {
                    (ClientPhase::RequestReply, ClientActionView::Send(request_text(r)))
                } else {
                    (ClientPhase::Done, fail(FailureKind::PermissionDenied, trim(l)))
                },
            },
            _ => (ClientPhase::Done, out_of_turn()),
        },
        ClientPhase::RequestReply => match ev {
            ClientEventView::Line(l) => match r {
                RequestView::Command(_) => if has_prefix(l, "OK"@) {
                    (ClientPhase::Done, ClientActionView::Finish(Ok(OutcomeView::Response(trim(l)))))
                } else {
                    (ClientPhase::Done, fail(FailureKind::PermissionDenied, trim(l)))
                },
                RequestView::Video(_) => if has_prefix(l, VIDEO_REPLY@) {
                    (ClientPhase::StreamConfig, ClientActionView::Continue)
                } else {
                    (ClientPhase::Done, fail(FailureKind::Other, trim(l)))
                },
                RequestView::Audio(_) => if trim(l) == AUDIO_REPLY@ {
                    (ClientPhase::StreamConfig, ClientActionView::Continue)
                } else {
                    (ClientPhase::Done, fail(FailureKind::Other, trim(l)))
                },
                RequestView::Input(_, es) => if trim(l) == INPUT_REPLY@ {
                    (ClientPhase::Done, ClientActionView::SendAndFinish(input_frames(es)))
                } else {
                    (ClientPhase::Done, fail(FailureKind::Other, trim(l)))
                },
                RequestView::Pair(_) => (ClientPhase::Done, out_of_turn()),
            },
            _ => (ClientPhase::Done, out_of_turn()),
        },
        ClientPhase::StreamConfig => match ev {
            ClientEventView::Frame(k, p) => match r {
                RequestView::Video(_) => if k == FrameKind::VideoConfig && p == vstd::utf8::encode_utf8(VIDEO_CONFIG@) {
                    (ClientPhase::Streaming(0), ClientActionView::Continue)
                } else {
                    (ClientPhase::Done, fail(FailureKind::InvalidData, "unexpected video configuration"@))
                },
                RequestView::Audio(_) => if k == FrameKind::AudioConfig && p == vstd::utf8::encode_utf8(AUDIO_CONFIG@) {
                    (ClientPhase::Streaming(0), ClientActionView::Continue)
                } else {
                    (ClientPhase::Done, fail(FailureKind::InvalidData, "unexpected audio configuration"@))
                },
                _ => (ClientPhase::Done, out_of_turn()),
            },
            ClientEventView::End => (ClientPhase::Done, fail(FailureKind::UnexpectedEof, transport_error_text(TransportError::UnexpectedEof))),
            _ => (ClientPhase::Done, out_of_turn()),
        },
        ClientPhase::Streaming(n) => match ev {
            ClientEventView::Frame(k, p) => match r {
                RequestView::Video(_) => if k == FrameKind::VideoData {
                    (ClientPhase::Streaming((n + p.len()) as u64), ClientActionView::Write(p))
                } else {
                    (ClientPhase::Done, fail(FailureKind::InvalidData, "unexpected video frame"@))
                },
                RequestView::Audio(_) => if k == FrameKind::AudioData {
                    (ClientPhase::Streaming((n + p.len()) as u64), ClientActionView::Write(p))
                } else {
                    (ClientPhase::Done, fail(FailureKind::InvalidData, "unexpected audio frame"@))
                },
                _ => (ClientPhase::Done, out_of_turn()),
            },
            ClientEventView::End => (ClientPhase::Done, ClientActionView::Finish(Ok(OutcomeView::Received(n)))),
            _ => (ClientPhase::Done, out_of_turn()),
        },
        ClientPhase::Done => (ClientPhase::Done, out_of_turn()),
    }
}

/// One client connection: its request, its credential and its phase.
#[derive(Debug)]
pub struct ClientSession {
    pub request: ClientRequest,
    pub token: String,
    pub phase: ClientPhase,
}

fn failure(kind: FailureKind, message: &str) -> (a: ClientAction)
    ensures
        a@ == fail(kind, message@),
{
    ClientAction::Finish(Err(ClientFailure { kind, message: message.to_string() }))
}

fn failure_owned(kind: FailureKind, message: String) -> (a: ClientAction)
    ensures
        a@ == fail(kind, message@),
{
    ClientAction::Finish(Err(ClientFailure { kind, message }))
}

fn bytes_eq(a: &[u8], b: &[u8]) -> (r: bool)
    ensures
        r == (a@ == b@),
{
    if a.len() != b.len() {
        return false;
    }
    let mut i: usize = 0;
    while i < a.len()
        invariant
            i <= a@.len(),
            a@.len() == b@.len(),
            a@.take(i as int) == b@.take(i as int),
        decreases a@.len() - i,
    {
        if a[i] != b[i] {
            return false;
        }
        assert(a@.take(i + 1) =~= a@.take(i as int).push(a@[i as int]));
        assert(b@.take(i + 1) =~= b@.take(i as int).push(b@[i as int]));
        i = i + 1;
    }
    assert(a@.take(i as int) =~= a@);
    assert(b@.take(i as int) =~= b@);
    true
}

impl ClientSession {
    /// A connection for `request`, presenting `token` unless it pairs.
    pub fn new(request: ClientRequest, token: String) -> (s: Self)
        ensures
            s.request@ == request@,
            s.token@ == token@,
            s.phase == ClientPhase::Banner,
    {
        ClientSession { request, token, phase: ClientPhase::Banner }
    }

    /// Whether the next item to read is a frame rather than a line.
    pub fn expects_frame(&self) -> (r: bool)
        ensures
            r == (self.phase == ClientPhase::StreamConfig || self.phase is Streaming),
    {
        match self.phase {
            ClientPhase::StreamConfig | ClientPhase::Streaming(_) => true,
            _ => false,
        }
    }

    fn credentials(&self) -> (t: String)
        ensures
            t@ == credential_line(self.request@, self.token@),
    {
        match &self.request {
            ClientRequest::Pair(code) => {
                let a = concat("PAIR ", code.as_str());
                concat(a.as_str(), "\n")
            },
            _ => {
                let a = concat("AUTH ", self.token.as_str());
                concat(a.as_str(), "\n")
            },
        }
    }

    fn request_line(&self) -> (t: String)
        ensures
            t@ == request_text(self.request@),
    {
        match &self.request {
            ClientRequest::Command(q) => concat(q.as_str(), "\n"),
            ClientRequest::Video(d) => {
                let a = concat("VIDEO ", d.as_str());
                concat(a.as_str(), "\n")
            },
            ClientRequest::Audio(d) => {
                let a = concat("AUDIO ", d.as_str());
                concat(a.as_str(), "\n")
            },
            ClientRequest::Input(d, _) => {
                let a = concat("INPUT-STREAM ", d.as_str());
                concat(a.as_str(), "\n")
            },
            ClientRequest::Pair(_) => String::new(),
        }
    }

    /// Advances the connection by what was read, and says what to do next.
    pub fn step(&mut self, event: ClientEvent) -> (action: ClientAction)
        requires
            old(self).phase is Streaming && event is Frame ==> old(self).phase->Streaming_0 + event->Frame_0.payload@.len() <= u64::MAX,
        ensures
            final(self).request@ == old(self).request@,
            final(self).token@ == old(self).token@,
            (final(self).phase, action@) == client_step(old(self).request@, old(self).token@, old(self).phase, event@),
    {
        let (next, action) = match self.phase {
            ClientPhase::Banner => match event {
                ClientEvent::Line(l) => {
                    let chars = chars_of(l.as_str());
                    let t = trim_chars(chars.as_slice());
                    if chars_eq_str(t.as_slice(), BANNER) {
                        (ClientPhase::Prompt, ClientAction::Continue)
                    } else {
                        match &self.request {
                            ClientRequest::Command(_) => (ClientPhase::Done, failure(FailureKind::InvalidData, "server is not a compatible Multi-Desktop control endpoint")),
                            _ => (ClientPhase::Done, failure(FailureKind::InvalidData, "incompatible server")),
                        }
                    }
                },
                _ => (ClientPhase::Done, failure(FailureKind::InvalidData, "unexpected protocol event")),
            },
            ClientPhase::Prompt => match event {
                ClientEvent::Line(l) => {
                    let chars = chars_of(l.as_str());
                    let t = trim_chars(chars.as_slice());
                    if chars_eq_str(t.as_slice(), AUTH_PROMPT) {
                        (ClientPhase::AuthReply, ClientAction::Send(self.credentials()))
                    } else {
                        match &self.request {
                            ClientRequest::Pair(_) => (ClientPhase::Done, failure(FailureKind::InvalidData, "invalid pairing prompt")),
                            ClientRequest::Command(_) => (ClientPhase::Done, failure(FailureKind::InvalidData, "server sent an invalid authentication prompt")),
                            _ => (ClientPhase::Done, failure(FailureKind::InvalidData, "invalid authentication prompt")),
                        }
                    }
                },
                _ => (ClientPhase::Done, failure(FailureKind::InvalidData, "unexpected protocol event")),
            },
            ClientPhase::AuthReply => match event {
                ClientEvent::Line(l) => {
                    let chars = chars_of(l.as_str());
                    let t = string_from(trim_chars(chars.as_slice()).as_slice());
                    match &self.request {
                        ClientRequest::Pair(_) => {
                            if starts_with(chars.as_slice(), "OK paired ") {
                                (ClientPhase::Done, ClientAction::Finish(Ok(ClientOutcome::Response(t))))
                            } else {
                                (ClientPhase::Done, failure_owned(FailureKind::PermissionDenied, t))
                            }
                        },
                        _ => {
                            if starts_with(chars.as_slice(), "OK") {
                                (ClientPhase::RequestReply, ClientAction::Send(self.request_line()))
                            } else {
                                (ClientPhase::Done, failure_owned(FailureKind::PermissionDenied, t))
                            }
                        },
                    }
                },
                _ => (ClientPhase::Done, failure(FailureKind::InvalidData, "unexpected protocol event")),
            },
            ClientPhase::RequestReply => match event {
                ClientEvent::Line(l) => {
                    let chars = chars_of(l.as_str());
                    let tv = trim_chars(chars.as_slice());
                    match &self.request {
                        ClientRequest::Command(_) => {
                            let t = string_from(tv.as_slice());
                            if starts_with(chars.as_slice(), "OK") {
                                (ClientPhase::Done, ClientAction::Finish(Ok(ClientOutcome::Response(t))))
                            } else {
                                (ClientPhase::Done, failure_owned(FailureKind::PermissionDenied, t))
                            }
                        },
                        ClientRequest::Video(_) => {
                            if starts_with(chars.as_slice(), VIDEO_REPLY) {
                                (ClientPhase::StreamConfig, ClientAction::Continue)
                            } else {
                                (ClientPhase::Done, failure_owned(FailureKind::Other, string_from(tv.as_slice())))
                            }
                        },
                        ClientRequest::Audio(_) => {
                            if chars_eq_str(tv.as_slice(), AUDIO_REPLY) {
                                (ClientPhase::StreamConfig, ClientAction::Continue)
                            } else {
                                (ClientPhase::Done, failure_owned(FailureKind::Other, string_from(tv.as_slice())))
                            }
                        },
                        ClientRequest::Input(_, events) => {
                            if chars_eq_str(tv.as_slice(), INPUT_REPLY) {
                                (ClientPhase::Done, ClientAction::SendAndFinish(encode_input_frames(events.as_slice())))
                            } else {
                                (ClientPhase::Done, failure_owned(FailureKind::Other, string_from(tv.as_slice())))
                            }
                        },
                        ClientRequest::Pair(_) => (ClientPhase::Done, failure(FailureKind::InvalidData, "unexpected protocol event")),
                    }
                },
                _ => (ClientPhase::Done, failure(FailureKind::InvalidData, "unexpected protocol event")),
            },
            ClientPhase::StreamConfig => match event {
                ClientEvent::Frame(f) => match &self.request {
                    ClientRequest::Video(_) => {
                        if f.kind == FrameKind::VideoConfig && bytes_eq(f.payload.as_slice(), VIDEO_CONFIG.as_bytes()) {
                            (ClientPhase::Streaming(0), ClientAction::Continue)
                        } else {
                            (ClientPhase::Done, failure(FailureKind::InvalidData, "unexpected video configuration"))
                        }
                    },
                    ClientRequest::Audio(_) => {
                        if f.kind == FrameKind::AudioConfig && bytes_eq(f.payload.as_slice(), AUDIO_CONFIG.as_bytes()) {
                            (ClientPhase::Streaming(0), ClientAction::Continue)
                        } else {
                            (ClientPhase::Done, failure(FailureKind::InvalidData, "unexpected audio configuration"))
                        }
                    },
                    _ => (ClientPhase::Done, failure(FailureKind::InvalidData, "unexpected protocol event")),
                },
                ClientEvent::End => (ClientPhase::Done, failure(FailureKind::UnexpectedEof, TransportError::UnexpectedEof.message())),
                _ => (ClientPhase::Done, failure(FailureKind::InvalidData, "unexpected protocol event")),
            },
            ClientPhase::Streaming(n) => match event {
                ClientEvent::Frame(f) => match &self.request {
                    ClientRequest::Video(_) => {
                        if f.kind == FrameKind::VideoData {
                            let total = n + f.payload.len() as u64;
                            (ClientPhase::Streaming(total), ClientAction::Write(f.payload))
                        } else {
                            (ClientPhase::Done, failure(FailureKind::InvalidData, "unexpected video frame"))
                        }
                    },
                    ClientRequest::Audio(_) => {
                        if f.kind == FrameKind::AudioData {
                            let total = n + f.payload.len() as u64;
                            (ClientPhase::Streaming(total), ClientAction::Write(f.payload))
                        } else {
                            (ClientPhase::Done, failure(FailureKind::InvalidData, "unexpected audio frame"))
                        }
                    },
                    _ => (ClientPhase::Done, failure(FailureKind::InvalidData, "unexpected protocol event")),
                },
                ClientEvent::End => (ClientPhase::Done, ClientAction::Finish(Ok(ClientOutcome::Received(n)))),
                _ => (ClientPhase::Done, failure(FailureKind::InvalidData, "unexpected protocol event")),
            },
            ClientPhase::Done => (ClientPhase::Done, failure(FailureKind::InvalidData, "unexpected protocol event")),
        };
        self.phase = next;
        action
    }
}

/// The client presents its token or pairing code only after the server has
/// sent the banner and then the authentication prompt: no step from the
/// banner sends anything, and the step from the prompt sends the
/// credentials exactly when the line is the prompt.
pub proof fn lemma_credentials_follow_greeting(r: RequestView, token: Seq<char>, ev: ClientEventView)
    ensures
        !(client_step(r, token, ClientPhase::Banner, ev).1 is Send),
        client_step(r, token, ClientPhase::Banner, ev).0 == ClientPhase::Prompt ==> (ev matches ClientEventView::Line(l) && trim(l) == BANNER@),
        client_step(r, token, ClientPhase::Prompt, ev).1 is Send <==> (ev matches ClientEventView::Line(l) && trim(l) == AUTH_PROMPT@),
        client_step(r, token, ClientPhase::Prompt, ev).1 is Send ==> client_step(r, token, ClientPhase::Prompt, ev).1 == ClientActionView::Send(credential_line(r, token)),
{
}

/// A command is judged by its answer: an answer starting with `OK` finishes
/// with that answer, trimmed; any other answer finishes as a refusal
/// (`PermissionDenied`) carrying the answer, trimmed, so a refused command is
/// never reported as answered. The same holds of the answer to the
/// credentials: only `OK` lets the request be sent.
pub proof fn lemma_command_answer_judged(command: Seq<char>, token: Seq<char>, l: Seq<char>)
    ensures
        ({
            let ok = l.len() >= 2 && l[0] == 'O' && l[1] == 'K';
            let step = client_step(RequestView::Command(command), token, ClientPhase::RequestReply, ClientEventView::Line(l));
            &&& ok ==> step == (ClientPhase::Done, ClientActionView::Finish(Ok(OutcomeView::Response(trim(l)))))
            &&& !ok ==> step == (ClientPhase::Done, ClientActionView::Finish(Err((FailureKind::PermissionDenied, trim(l)))))
            &&& !ok ==> client_step(RequestView::Command(command), token, ClientPhase::AuthReply, ClientEventView::Line(l))
                == (ClientPhase::Done, ClientActionView::Finish(Err((FailureKind::PermissionDenied, trim(l)))))
        }),
{
    reveal_strlit("OK");
    if l.len() >= 2 && l[0] == 'O' && l[1] == 'K' {
        assert(l.take(2) =~= "OK"@);
    } else if l.len() >= 2 {
        assert(l.take(2)[0] == l[0] && l.take(2)[1] == l[1]);
    }
}

/// The client and the daemon speak the same protocol: the daemon takes the
/// client's credential line as the token, or the pairing code, that it
/// carries; it takes the client's stream request for desktop `d` as that
/// stream of that desktop, when the principal may manage it; and the client
/// takes the daemon's answer to a failed command as a refusal, and its answer
/// to a completed one as the command's answer.
pub proof fn lemma_client_and_daemon_agree(
    q: Seq<char>,
    token: Seq<char>,
    code: Seq<char>,
    d: Seq<char>,
    es: Seq<InputEvent>,
    p: PrincipalView,
    v: Seq<char>,
    e: Seq<char>,
    limited: bool,
)
    requires
        is_word(token),
        is_word(code),
        is_word(d),
        may_manage(p, d),
    ensures
        control_step(PhaseView::Greeting, EventView::Line(credential_line(RequestView::Command(q), token)), limited)
            == (PhaseView::Authenticating, ActionView::Authenticate(token), LimiterEffect::Keep),
        control_step(PhaseView::Greeting, EventView::Line(credential_line(RequestView::Pair(code), token)), limited)
            == (PhaseView::Pairing, ActionView::RedeemPairing(code), LimiterEffect::Keep),
        control_step(PhaseView::Ready(p), EventView::Line(request_text(RequestView::Video(d))), limited)
            == (PhaseView::Streaming(p), ActionView::Stream((RouteKind::Video, Some(d), None)), LimiterEffect::Keep),
        control_step(PhaseView::Ready(p), EventView::Line(request_text(RequestView::Audio(d))), limited)
            == (PhaseView::Streaming(p), ActionView::Stream((RouteKind::Audio, Some(d), None)), LimiterEffect::Keep),
        control_step(PhaseView::Ready(p), EventView::Line(request_text(RequestView::Input(d, es))), limited)
            == (PhaseView::Streaming(p), ActionView::Stream((RouteKind::InputStream, Some(d), None)), LimiterEffect::Keep),
        client_step(RequestView::Command(q), token, ClientPhase::RequestReply, ClientEventView::Line("ERR "@ + e + "\n"@))
            == (ClientPhase::Done, ClientActionView::Finish(Err((FailureKind::PermissionDenied, trim("ERR "@ + e + "\n"@))))),
        client_step(RequestView::Command(q), token, ClientPhase::RequestReply, ClientEventView::Line("OK "@ + v + "\n"@))
            == (ClientPhase::Done, ClientActionView::Finish(Ok(OutcomeView::Response(trim("OK "@ + v + "\n"@))))),
{
    reveal_strlit("AUTH ");
    reveal_strlit("AUTH");
    reveal_strlit("PAIR ");
    reveal_strlit("PAIR");
    reveal_strlit(" ");
    reveal_strlit("VIDEO ");
    reveal_strlit("VIDEO");
    reveal_strlit("AUDIO ");
    reveal_strlit("AUDIO");
    reveal_strlit("INPUT-STREAM ");
    reveal_strlit("INPUT-STREAM");
    reveal_strlit("ERR ");
    reveal_strlit("OK ");
    assert("AUTH "@ =~= "AUTH"@ + " "@);
    assert("PAIR "@ =~= "PAIR"@ + " "@);
    assert("VIDEO "@ =~= "VIDEO"@ + " "@);
    assert("AUDIO "@ =~= "AUDIO"@ + " "@);
    assert("INPUT-STREAM "@ =~= "INPUT-STREAM"@ + " "@);
    assert(is_word("AUTH"@) && is_word("PAIR"@) && is_word("VIDEO"@) && is_word("AUDIO"@) && is_word("INPUT-STREAM"@));
    lemma_two_word_tokens("AUTH"@, token);
    lemma_two_word_tokens("PAIR"@, code);
    lemma_two_word_tokens("VIDEO"@, d);
    lemma_two_word_tokens("AUDIO"@, d);
    lemma_two_word_tokens("INPUT-STREAM"@, d);
    let auth = "AUTH"@ + " "@ + token;
    assert(auth.take(5) =~= "AUTH "@);
    assert(auth.skip(5) =~= token);
    let pair = "PAIR"@ + " "@ + code;
    assert(pair.take(5) =~= "PAIR "@);
    assert(pair.skip(5) =~= code);
    assert(pair.take(5) != "AUTH "@) by {
        assert(pair.take(5)[0] == 'P');
    }
    lemma_verbs_route_to_their_kinds(p, d, Seq::empty());
    lemma_command_answer_judged(q, token, "ERR "@ + e + "\n"@);
    lemma_command_answer_judged(q, token, "OK "@ + v + "\n"@);
    assert(("ERR "@ + e + "\n"@)[0] == 'E');
    assert(("OK "@ + v + "\n"@)[0] == 'O' && ("OK "@ + v + "\n"@)[1] == 'K');
}

} // verus!
