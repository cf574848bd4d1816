//! Control-protocol decisions of the host daemon: who may do what, how a
//! request line is routed, the per-peer authentication rate limit and the
//! relaying of validated input frames.
use crate::transport::{
    decode_event, encode_event, lemma_parse_frame_len, parse_frame, Frame, FrameKind, InputEvent,
    TransportError, HEADER_LEN,
};
use crate::text::{
    chars_eq, chars_eq_str, chars_of, slice_to_vec, split_whitespace, string_from, strip_prefix,
    tokens, trim, trim_chars,
};
use crate::control::{AUDIO_CONFIG, AUDIO_REPLY, AUTH_PROMPT, BANNER, INPUT_REPLY, VIDEO_CONFIG, VIDEO_REPLY};
use std::collections::VecDeque;
use vstd::std_specs::vecdeque::VecDequeAdditionalSpecFns;
use vstd::prelude::*;

verus! {

/// Who a connection authenticated as: the host administrator (the configured
/// token) or a paired device, which is bound to one desktop.
#[derive(Clone, Debug)]
pub enum Principal {
    Admin,
    Device(String),
}

/// A principal with its desktop id as characters.
pub enum PrincipalView {
    Admin,
    Device(Seq<char>),
}

impl View for Principal {
    type V = PrincipalView;

    open spec fn view(&self) -> PrincipalView {
        match self {
            Principal::Admin => PrincipalView::Admin,
            Principal::Device(d) => PrincipalView::Device(d@),
        }
    }
}

/// The administrator may manage every desktop; a device only its own.
pub open spec fn may_manage(principal: PrincipalView, id: Seq<char>) -> bool {
    match principal {
        PrincipalView::Admin => true,
        PrincipalView::Device(d) => d == id,
    }
}

/// Whether `principal` may manage the desktop `id`.
pub fn can_manage(principal: &Principal, id: &[char]) -> (r: bool)
    ensures
        r == may_manage(principal@, id@),
{
    match principal {
        Principal::Admin => true,
        Principal::Device(d) => {
            let dv = chars_of(d.as_str());
            chars_eq(dv.as_slice(), id)
        },
    }
}

/// What an authenticated request line asks for.
#[derive(Clone, Copy, Debug, PartialEq, Eq, Structural)]
pub enum RouteKind {
    Info,
    Ping,
    List,
    Provision,
    Devices,
    Revoke,
    RevokeDevice,
    Status,
    Details,
    Capture,
    Media,
    AudioStatus,
    InputStatus,
    Start,
    Restart,
    Stop,
    Video,
    Audio,
    InputStream,
    Forbidden,
    Quit,
    Unknown,
}

/// A routed request: its kind, the desktop it names and, for `RevokeDevice`,
/// the device it names.
#[derive(Debug)]
pub struct Route {
    pub kind: RouteKind,
    pub desktop: Option<String>,
    pub device: Option<String>,
}

/// The kinds that upgrade the connection into a stream.
pub open spec fn stream_kind(verb: Seq<char>) -> Option<RouteKind> {
    if verb == "VIDEO"@ {
        Some(RouteKind::Video)
    } else if verb == "AUDIO"@ {
        Some(RouteKind::Audio)
    } else if verb == "INPUT-STREAM"@ {
        Some(RouteKind::InputStream)
    } else {
        None
    }
}

/// Requests only the administrator may make, with one desktop id.
pub open spec fn admin_kind(verb: Seq<char>) -> Option<RouteKind> {
    if verb == "PROVISION"@ {
        Some(RouteKind::Provision)
    } else if verb == "DEVICES"@ {
        Some(RouteKind::Devices)
    } else if verb == "REVOKE"@ {
        Some(RouteKind::Revoke)
    } else {
        None
    }
}

/// Requests about one desktop that its manager may make.
pub open spec fn managed_kind(verb: Seq<char>) -> Option<RouteKind> {
    if verb == "STATUS"@ {
        Some(RouteKind::Status)
    } else if verb == "DETAILS"@ {
        Some(RouteKind::Details)
    } else if verb == "CAPTURE"@ {
        Some(RouteKind::Capture)
    } else if verb == "MEDIA"@ {
        Some(RouteKind::Media)
    } else if verb == "AUDIO-STATUS"@ {
        Some(RouteKind::AudioStatus)
    } else if verb == "INPUT"@ {
        Some(RouteKind::InputStatus)
    } else if verb == "START"@ {
        Some(RouteKind::Start)
    } else if verb == "RESTART"@ {
        Some(RouteKind::Restart)
    } else if verb == "STOP"@ {
        Some(RouteKind::Stop)
    } else {
        None
    }
}

/// Verbs that are refused when their shape or the principal does not fit.
pub open spec fn restricted_verb(verb: Seq<char>) -> bool {
    verb == "LIST"@ || admin_kind(verb) is Some || verb == "REVOKE-DEVICE"@ || managed_kind(verb) is Some
        || stream_kind(verb) is Some
}

/// Token `i` of `t`, if present.
pub open spec fn nth(t: Seq<Seq<char>>, i: int) -> Option<Seq<char>> {
    if 0 <= i < t.len() {
        Some(t[i])
    } else {
        None
    }
}

/// The route of a request line, given as its whitespace-separated tokens:
/// the kind, and the desktop and device ids it carries.
pub open spec fn route_tokens(p: PrincipalView, t: Seq<Seq<char>>) -> (RouteKind, Option<Seq<char>>, Option<Seq<char>>) {
    let verb = if t.len() > 0 { t[0] } else { Seq::empty() };
    let id = nth(t, 1);
    let argument = nth(t, 2);
    let extra = nth(t, 3);
    let is_admin = p is Admin;
    if stream_kind(verb) is Some {
        if id is Some && argument is None && may_manage(p, id->0) {
            (stream_kind(verb)->0, id, None)
        } else {
            (RouteKind::Forbidden, None, None)
        }
    } else if verb == "INFO"@ && id is None {
        (RouteKind::Info, None, None)
    } else if verb == "PING"@ && id is None {
        (RouteKind::Ping, None, None)
    } else if verb == "LIST"@ && id is None && is_admin {
        (RouteKind::List, None, None)
    } else if admin_kind(verb) is Some && id is Some && argument is None && extra is None && is_admin {
        (admin_kind(verb)->0, id, None)
    } else if verb == "REVOKE-DEVICE"@ && id is Some && argument is Some && extra is None && is_admin {
        (RouteKind::RevokeDevice, id, argument)
    } else if managed_kind(verb) is Some && id is Some && argument is None && extra is None
        && may_manage(p, id->0) {
        (managed_kind(verb)->0, id, None)
    } else if restricted_verb(verb) {
        (RouteKind::Forbidden, None, None)
    } else if verb == "QUIT"@ && id is None {
        (RouteKind::Quit, None, None)
    } else {
        (RouteKind::Unknown, None, None)
    }
}

/// The route of a request line.
pub open spec fn route_line(p: PrincipalView, line: Seq<char>) -> (RouteKind, Option<Seq<char>>, Option<Seq<char>>) {
    route_tokens(p, tokens(line))
}

fn stream_kind_of(verb: &[char]) -> (r: Option<RouteKind>)
    ensures
        r == stream_kind(verb@),
{
    if chars_eq_str(verb, "VIDEO") {
        Some(RouteKind::Video)
    } else if chars_eq_str(verb, "AUDIO") {
        Some(RouteKind::Audio)
    } else if chars_eq_str(verb, "INPUT-STREAM") {
        Some(RouteKind::InputStream)
    } else {
        None
    }
}

fn admin_kind_of(verb: &[char]) -> (r: Option<RouteKind>)
    ensures
        r == admin_kind(verb@),
{
    if chars_eq_str(verb, "PROVISION") {
        Some(RouteKind::Provision)
    } else if chars_eq_str(verb, "DEVICES") {
        Some(RouteKind::Devices)
    } else if chars_eq_str(verb, "REVOKE") {
        Some(RouteKind::Revoke)
    } else {
        None
    }
}

fn managed_kind_of(verb: &[char]) -> (r: Option<RouteKind>)
    ensures
        r == managed_kind(verb@),
{
    if chars_eq_str(verb, "STATUS") {
        Some(RouteKind::Status)
    } else if chars_eq_str(verb, "DETAILS") {
        Some(RouteKind::Details)
    } else if chars_eq_str(verb, "CAPTURE") {
        Some(RouteKind::Capture)
    } else if chars_eq_str(verb, "MEDIA") {
        Some(RouteKind::Media)
    } else if chars_eq_str(verb, "AUDIO-STATUS") {
        Some(RouteKind::AudioStatus)
    } else if chars_eq_str(verb, "INPUT") {
        Some(RouteKind::InputStatus)
    } else if chars_eq_str(verb, "START") {
        Some(RouteKind::Start)
    } else if chars_eq_str(verb, "RESTART") {
        Some(RouteKind::Restart)
    } else if chars_eq_str(verb, "STOP") {
        Some(RouteKind::Stop)
    } else {
        None
    }
}

fn route(kind: RouteKind, desktop: Option<&Vec<char>>, device: Option<&Vec<char>>) -> (r: Route)
    ensures
        r.kind == kind,
        r.desktop.deep_view() == (match desktop { Some(d) => Some(d@), None => None }),
        r.device.deep_view() == (match device { Some(d) => Some(d@), None => None }),
{
    let desktop = match desktop {
        Some(d) => Some(string_from(d.as_slice())),
        None => None,
    };
    let device = match device {
        Some(d) => Some(string_from(d.as_slice())),
        None => None,
    };
    Route { kind, desktop, device }
}

/// Routes an authenticated request line for `principal`.
pub fn route_command(principal: &Principal, line: &str) -> (r: Route)
    ensures
        (r.kind, r.desktop.deep_view(), r.device.deep_view()) == route_line(principal@, line@),
{
    let chars = chars_of(line);
    let t = split_whitespace(chars.as_slice());
    let ghost tv = t@.map_values(|x: Vec<char>| x@);
    assert(tv == tokens(line@));
    assert(t@.len() == tv.len());
    let empty: Vec<char> = Vec::new();
    let verb: &Vec<char> = if t.len() > 0 { &t[0] } else { &empty };
    assert(verb@ == (if tv.len() > 0 { tv[0] } else { Seq::<char>::empty() }));
    let id: Option<&Vec<char>> = if t.len() > 1 { Some(&t[1]) } else { None };
    let argument: Option<&Vec<char>> = if t.len() > 2 { Some(&t[2]) } else { None };
    let has_extra = t.len() > 3;
    let is_admin = match principal {
        Principal::Admin => true,
        Principal::Device(_) => false,
    };
    proof {
        if t@.len() > 1 { assert(tv[1] == t@[1]@); }
        if t@.len() > 2 { assert(tv[2] == t@[2]@); }
    }
    if let Some(kind) = stream_kind_of(verb.as_slice()) {
        if let (Some(id), None) = (id, argument) {
            if can_manage(principal, id.as_slice()) {
                return route(kind, Some(id), None);
            }
        }
        return route(RouteKind::Forbidden, None, None);
    }
    if chars_eq_str(verb.as_slice(), "INFO") && id.is_none() {
        return route(RouteKind::Info, None, None);
    }
    if chars_eq_str(verb.as_slice(), "PING") && id.is_none() {
        return route(RouteKind::Ping, None, None);
    }
    if chars_eq_str(verb.as_slice(), "LIST") && id.is_none() && is_admin {
        return route(RouteKind::List, None, None);
    }
    let admin = admin_kind_of(verb.as_slice());
    if let (Some(kind), Some(id), None) = (admin, id, argument) {
        if !has_extra && is_admin {
            return route(kind, Some(id), None);
        }
    }
    let revoke_device = chars_eq_str(verb.as_slice(), "REVOKE-DEVICE");
    if let (true, Some(id), Some(device)) = (revoke_device, id, argument) {
        if !has_extra && is_admin {
            return route(RouteKind::RevokeDevice, Some(id), Some(device));
        }
    }
    let managed = managed_kind_of(verb.as_slice());
    if let (Some(kind), Some(id), None) = (managed, id, argument) {
        if !has_extra && can_manage(principal, id.as_slice()) {
            return route(kind, Some(id), None);
        }
    }
    if chars_eq_str(verb.as_slice(), "LIST") || admin.is_some() || revoke_device || managed.is_some() {
        return route(RouteKind::Forbidden, None, None);
    }
    if chars_eq_str(verb.as_slice(), "QUIT") && id.is_none() {
        return route(RouteKind::Quit, None, None);
    }
    route(RouteKind::Unknown, None, None)
}


/// A paired device reaches only its own desktop: none of its requests is an
/// administrator request, and every desktop a request of it names is its own.
pub proof fn lemma_device_scope(desktop: Seq<char>, line: Seq<char>)
    ensures
        ({
            let r = route_line(PrincipalView::Device(desktop), line);
            &&& r.0 != RouteKind::List
            &&& r.0 != RouteKind::Provision
            &&& r.0 != RouteKind::Devices
            &&& r.0 != RouteKind::Revoke
            &&& r.0 != RouteKind::RevokeDevice
            &&& (r.1 matches Some(id) ==> id == desktop)
        }),
{
}

/// Length and first and third characters: enough to tell the request verbs
/// apart.
spec fn literal_key(s: Seq<char>) -> (nat, char, char) {
    (s.len(), s[0], s[2])
}

/// A paired device that asks for an administrator request, or names a
/// desktop other than its own in a desktop or stream request, is answered
/// `ERR forbidden`: nothing is run or streamed, its failure record is left
/// alone, and the connection goes on reading requests.
pub proof fn lemma_device_refused(desktop: Seq<char>, line: Seq<char>, limited: bool)
    requires
        ({
            let t = tokens(line);
            &&& t.len() > 0
            &&& (t[0] == "LIST"@ || admin_kind(t[0]) is Some || t[0] == "REVOKE-DEVICE"@)
                || ((managed_kind(t[0]) is Some || stream_kind(t[0]) is Some) && t.len() > 1 && t[1] != desktop)
        }),
    ensures
        control_step(PhaseView::Ready(PrincipalView::Device(desktop)), EventView::Line(line), limited)
            == (PhaseView::Ready(PrincipalView::Device(desktop)), ActionView::Reply("ERR forbidden\n"@),
            LimiterEffect::Keep),
{
    reveal_strlit("LIST");
    assert(literal_key("LIST"@) == (4nat, 'L', 'S'));
    reveal_strlit("INFO");
    assert(literal_key("INFO"@) == (4nat, 'I', 'F'));
    reveal_strlit("PING");
    assert(literal_key("PING"@) == (4nat, 'P', 'N'));
    reveal_strlit("QUIT");
    assert(literal_key("QUIT"@) == (4nat, 'Q', 'I'));
    reveal_strlit("REVOKE-DEVICE");
    assert(literal_key("REVOKE-DEVICE"@) == (13nat, 'R', 'V'));
    reveal_strlit("VIDEO");
    assert(literal_key("VIDEO"@) == (5nat, 'V', 'D'));
    reveal_strlit("AUDIO");
    assert(literal_key("AUDIO"@) == (5nat, 'A', 'D'));
    reveal_strlit("INPUT-STREAM");
    assert(literal_key("INPUT-STREAM"@) == (12nat, 'I', 'P'));
    reveal_strlit("PROVISION");
    assert(literal_key("PROVISION"@) == (9nat, 'P', 'O'));
    reveal_strlit("DEVICES");
    assert(literal_key("DEVICES"@) == (7nat, 'D', 'V'));
    reveal_strlit("REVOKE");
    assert(literal_key("REVOKE"@) == (6nat, 'R', 'V'));
    reveal_strlit("STATUS");
    assert(literal_key("STATUS"@) == (6nat, 'S', 'A'));
    reveal_strlit("DETAILS");
    assert(literal_key("DETAILS"@) == (7nat, 'D', 'T'));
    reveal_strlit("CAPTURE");
    assert(literal_key("CAPTURE"@) == (7nat, 'C', 'P'));
    reveal_strlit("MEDIA");
    assert(literal_key("MEDIA"@) == (5nat, 'M', 'D'));
    reveal_strlit("AUDIO-STATUS");
    assert(literal_key("AUDIO-STATUS"@) == (12nat, 'A', 'D'));
    reveal_strlit("INPUT");
    assert(literal_key("INPUT"@) == (5nat, 'I', 'P'));
    reveal_strlit("START");
    assert(literal_key("START"@) == (5nat, 'S', 'A'));
    reveal_strlit("RESTART");
    assert(literal_key("RESTART"@) == (7nat, 'R', 'S'));
    reveal_strlit("STOP");
    assert(literal_key("STOP"@) == (4nat, 'S', 'O'));
    let t = tokens(line);
    let v = t[0];
    let p = PrincipalView::Device(desktop);
    assert(literal_key(v) == literal_key(v));
    if v == "LIST"@ || admin_kind(v) is Some || v == "REVOKE-DEVICE"@ {
        assert(stream_kind(v) is None);
        assert(managed_kind(v) is None);
        assert(v != "INFO"@ && v != "PING"@);
        assert(restricted_verb(v));
    } else if stream_kind(v) is Some {
        assert(!may_manage(p, t[1]));
    } else {
        assert(managed_kind(v) is Some);
        assert(v != "INFO"@ && v != "PING"@ && v != "LIST"@ && v != "REVOKE-DEVICE"@);
        assert(admin_kind(v) is None);
        assert(!may_manage(p, t[1]));
        assert(restricted_verb(v));
    }
    assert(route_tokens(p, t).0 == RouteKind::Forbidden);
}

/// Failed attempts from one origin that cause a temporary block.
pub const MAX_AUTH_FAILURES: usize = 5;

/// How long a failed attempt counts, in nanoseconds (60 seconds).
pub const AUTH_FAILURE_WINDOW: u64 = 60000000000;

/// Whether an attempt at time `attempt` no longer counts at time `now`
/// (the elapsed time saturates at zero, as `Instant::duration_since` does).
pub open spec fn expired(attempt: u64, now: u64) -> bool {
    now >= attempt && now - attempt >= AUTH_FAILURE_WINDOW
}

/// Recorded attempts after dropping the expired ones at the front.
pub open spec fn prune_spec(attempts: Seq<u64>, now: u64) -> Seq<u64>
    decreases attempts.len(),
{
    if attempts.len() > 0 && expired(attempts[0], now) {
        prune_spec(attempts.drop_first(), now)
    } else {
        attempts
    }
}

/// Failed attempts recorded for one origin.
pub struct PeerFailures {
    peer: Vec<char>,
    attempts: VecDeque<u64>,
}

/// Counts failed authentication and pairing attempts per origin and blocks an
/// origin once it reaches [`MAX_AUTH_FAILURES`] failures within
/// [`AUTH_FAILURE_WINDOW`]. Times are monotonic nanoseconds.
pub struct AuthRateLimiter {
    entries: Vec<PeerFailures>,
}

/// The failures recorded per origin in a list of entries.
pub closed spec fn entries_map(es: Seq<PeerFailures>) -> Map<Seq<char>, Seq<u64>>
    decreases es.len(),
{
    if es.len() == 0 {
        Map::empty()
    } else {
        entries_map(es.drop_last()).insert(es.last().peer@, es.last().attempts@)
    }
}

/// No origin has two entries.
pub closed spec fn distinct_peers(es: Seq<PeerFailures>) -> bool {
    forall|i: int, j: int| 0 <= i < j < es.len() ==> es[i].peer@ != es[j].peer@
}

proof fn lemma_entries_map(es: Seq<PeerFailures>, k: Seq<char>)
    requires
        distinct_peers(es),
    ensures
        entries_map(es).contains_key(k) <==> exists|i: int| 0 <= i < es.len() && es[i].peer@ == k,
        forall|i: int| 0 <= i < es.len() && es[i].peer@ == k ==> entries_map(es)[k] == es[i].attempts@,
    decreases es.len(),
{
    if es.len() > 0 {
        let init = es.drop_last();
        assert(distinct_peers(init));
        lemma_entries_map(init, k);
        if entries_map(es).contains_key(k) && es.last().peer@ != k {
            let i = choose|i: int| 0 <= i < init.len() && init[i].peer@ == k;
            assert(es[i].peer@ == k);
        }
        if exists|i: int| 0 <= i < es.len() && es[i].peer@ == k {
            let i = choose|i: int| 0 <= i < es.len() && es[i].peer@ == k;
            if i < es.len() - 1 {
                assert(init[i] == es[i]);
            }
        }
        assert forall|i: int| 0 <= i < es.len() && es[i].peer@ == k implies entries_map(es)[k]
            == es[i].attempts@ by {
            if i < es.len() - 1 {
                assert(es[i] == init[i]);
                assert(es[i].peer@ != es[es.len() - 1].peer@);
            }
        }
    }
}

impl View for AuthRateLimiter {
    type V = Map<Seq<char>, Seq<u64>>;

    closed spec fn view(&self) -> Map<Seq<char>, Seq<u64>> {
        entries_map(self.entries@)
    }
}

impl AuthRateLimiter {
    /// The limiter's invariant: one entry per origin.
    pub closed spec fn wf(&self) -> bool {
        distinct_peers(self.entries@)
    }

    /// An empty limiter.
    pub fn new() -> (r: Self)
        ensures
            r.wf(),
            r@ == Map::<Seq<char>, Seq<u64>>::empty(),
    {
        AuthRateLimiter { entries: Vec::new() }
    }

    fn find(&self, peer: &[char]) -> (r: Option<usize>)
        requires
            self.wf(),
        ensures
            match r {
                Some(i) => i < self.entries@.len() && self.entries@[i as int].peer@ == peer@,
                None => forall|i: int| 0 <= i < self.entries@.len() ==> self.entries@[i].peer@ != peer@,
            },
    {
        let mut i: usize = 0;
        while i < self.entries.len()
            invariant
                i <= self.entries@.len(),
                forall|j: int| 0 <= j < i ==> self.entries@[j].peer@ != peer@,
            decreases self.entries@.len() - i,
        {
            if chars_eq(self.entries[i].peer.as_slice(), peer) {
                return Some(i);
            }
            i = i + 1;
        }
        None
    }

    /// Index of the entry for `peer`, created empty if there was none.
    fn entry(&mut self, peer: &[char]) -> (i: usize)
        requires
            old(self).wf(),
        ensures
            final(self).wf(),
            i < final(self).entries@.len(),
            final(self).entries@[i as int].peer@ == peer@,
            final(self)@ == (if old(self)@.contains_key(peer@) {
                old(self)@
            } else {
                old(self)@.insert(peer@, Seq::empty())
            }),
    {
        proof { lemma_entries_map(self.entries@, peer@); }
        match self.find(peer) {
            Some(i) => i,
            None => {
                let ghost before = self.entries@;
                self.entries.push(PeerFailures { peer: slice_to_vec(peer, 0, peer.len()), attempts: VecDeque::new() });
                assert(self.entries@.drop_last() =~= before);
                assert(distinct_peers(self.entries@)) by {
                    let es = self.entries@;
                    assert forall|a: int, b: int| 0 <= a < b < es.len() implies es[a].peer@ != es[b].peer@ by {
                        assert(es[a] == before[a]);
                        if b < before.len() {
                            assert(es[b] == before[b]);
                        } else {
                            assert(es[b].peer@ == peer@);
                            assert(before[a].peer@ != peer@);
                        }
                    }
                }
                assert(self.entries@.last().attempts@ =~= Seq::<u64>::empty());
                assert(self.entries@.last().peer@ == peer@);
                assert(entries_map(self.entries@) == entries_map(self.entries@.drop_last()).insert(
                    self.entries@.last().peer@, self.entries@.last().attempts@));
                assert(self@ == entries_map(before).insert(peer@, Seq::<u64>::empty()));
                i_last(self)
            },
        }
    }

    fn set_attempts(&mut self, i: usize, attempts: VecDeque<u64>)
        requires
            old(self).wf(),
            i < old(self).entries@.len(),
        ensures
            final(self).wf(),
            final(self).entries@.len() == old(self).entries@.len(),
            final(self)@ == old(self)@.insert(old(self).entries@[i as int].peer@, attempts@),
    {
        let ghost old_es = self.entries@;
        let ghost key = old_es[i as int].peer@;
        let peer = self.entries[i].peer.clone();
        assert(peer@ == key);
        self.entries.set(i, PeerFailures { peer, attempts });
        let ghost new_es = self.entries@;
        assert(distinct_peers(new_es)) by {
            assert forall|a: int, b: int| 0 <= a < b < new_es.len() implies new_es[a].peer@ != new_es[b].peer@ by {
                assert(new_es[a].peer@ == old_es[a].peer@);
                assert(new_es[b].peer@ == old_es[b].peer@);
            }
        }
        assert forall|k: Seq<char>| #![trigger entries_map(new_es).contains_key(k)]
            entries_map(new_es).contains_key(k) == entries_map(old_es).insert(key, attempts@).contains_key(k)
            && (entries_map(new_es).contains_key(k) ==> entries_map(new_es)[k] == entries_map(old_es).insert(key, attempts@)[k]) by {
            lemma_entries_map(old_es, k);
            lemma_entries_map(new_es, k);
            if k == key {
                assert(new_es[i as int].peer@ == k);
            } else {
                if entries_map(old_es).contains_key(k) {
                    let j = choose|j: int| 0 <= j < old_es.len() && old_es[j].peer@ == k;
                    assert(new_es[j].peer@ == k);
                }
                if entries_map(new_es).contains_key(k) {
                    let j = choose|j: int| 0 <= j < new_es.len() && new_es[j].peer@ == k;
                    assert(j != i);
                    assert(old_es[j].peer@ == k);
                }
            }
        }
        assert(entries_map(new_es) =~= entries_map(old_es).insert(key, attempts@));
    }

    /// Whether `peer` is blocked at time `now`. Expired attempts of `peer` are
    /// forgotten on the way.
    pub fn limited(&mut self, peer: &str, now: u64) -> (blocked: bool)
        requires
            old(self).wf(),
        ensures
            final(self).wf(),
            blocked == (prune_spec(old(self).failures(peer@), now).len() >= MAX_AUTH_FAILURES),
            final(self)@ == old(self)@.insert(peer@, prune_spec(old(self).failures(peer@), now)),
    {
        let p = chars_of(peer);
        let i = self.entry(p.as_slice());
        proof { lemma_entries_map(self.entries@, peer@); }
        let mut pruned = copy_attempts(&self.entries[i].attempts);
        prune(&mut pruned, now);
        let blocked = pruned.len() >= MAX_AUTH_FAILURES;
        self.set_attempts(i, pruned);
        assert(self@ =~= old(self)@.insert(peer@, prune_spec(old(self).failures(peer@), now)));
        blocked
    }

    /// Records a failed attempt of `peer` at time `now`, after forgetting its
    /// expired attempts.
    pub fn record_failure(&mut self, peer: &str, now: u64)
        requires
            old(self).wf(),
        ensures
            final(self).wf(),
            final(self)@ == old(self)@.insert(peer@, prune_spec(old(self).failures(peer@), now).push(now)),
    {
        let p = chars_of(peer);
        let i = self.entry(p.as_slice());
        proof { lemma_entries_map(self.entries@, peer@); }
        let mut pruned = copy_attempts(&self.entries[i].attempts);
        prune(&mut pruned, now);
        pruned.push_back(now);
        self.set_attempts(i, pruned);
        assert(self@ =~= old(self)@.insert(peer@, prune_spec(old(self).failures(peer@), now).push(now)));
    }

    /// Forgets every failure of `peer`.
    pub fn clear(&mut self, peer: &str)
        requires
            old(self).wf(),
        ensures
            final(self).wf(),
            final(self)@ == old(self)@.remove(peer@),
    {
        let p = chars_of(peer);
        proof { lemma_entries_map(self.entries@, peer@); }
        match self.find(p.as_slice()) {
            None => {
                assert(self@ =~= old(self)@.remove(peer@));
            },
            Some(i) => {
                let ghost old_es = self.entries@;
                self.entries.remove(i);
                let ghost new_es = self.entries@;
                assert(distinct_peers(new_es)) by {
                    assert forall|a: int, b: int| 0 <= a < b < new_es.len() implies new_es[a].peer@ != new_es[b].peer@ by {
                        let oa = if a < i { a } else { a + 1 };
                        let ob = if b < i { b } else { b + 1 };
                        assert(new_es[a] == old_es[oa]);
                        assert(new_es[b] == old_es[ob]);
                    }
                }
                assert forall|k: Seq<char>| #![trigger entries_map(new_es).contains_key(k)]
                    entries_map(new_es).contains_key(k) == entries_map(old_es).remove(peer@).contains_key(k)
                    && (entries_map(new_es).contains_key(k) ==> entries_map(new_es)[k] == entries_map(old_es)[k]) by {
                    lemma_entries_map(old_es, k);
                    lemma_entries_map(new_es, k);
                    if entries_map(new_es).contains_key(k) {
                        let j = choose|j: int| 0 <= j < new_es.len() && new_es[j].peer@ == k;
                        let oj = if j < i { j } else { j + 1 };
                        assert(new_es[j] == old_es[oj]);
                        assert(k != peer@);
                    }
                    if entries_map(old_es).contains_key(k) && k != peer@ {
                        let j = choose|j: int| 0 <= j < old_es.len() && old_es[j].peer@ == k;
                        assert(j != i);
                        let nj = if j < i { j } else { j - 1 };
                        assert(new_es[nj] == old_es[j]);
                    }
                }
                assert(entries_map(new_es) =~= entries_map(old_es).remove(peer@));
            },
        }
    }

    /// The failures recorded for `peer` (none if it has no entry).
    pub open spec fn failures(&self, peer: Seq<char>) -> Seq<u64> {
        if self@.contains_key(peer) {
            self@[peer]
        } else {
            Seq::empty()
        }
    }
}

fn i_last(limiter: &AuthRateLimiter) -> (i: usize)
    requires
        limiter.entries@.len() > 0,
    ensures
        i == limiter.entries@.len() - 1,
{
    limiter.entries.len() - 1
}

/// A copy of the failure times `attempts`.
fn copy_attempts(attempts: &VecDeque<u64>) -> (r: VecDeque<u64>)
    ensures
        r@ == attempts@,
{
    let r = attempts.clone();
    assert forall|i: int| 0 <= i < attempts@.len() implies r@[i] == attempts@[i] by {
        assert(cloned::<u64>(attempts[i], r[i]));
    }
    assert(r@ =~= attempts@);
    r
}

/// Drops the expired attempts at the front of `attempts`.
pub fn prune(attempts: &mut VecDeque<u64>, now: u64)
    ensures
        final(attempts)@ == prune_spec(old(attempts)@, now),
{
    while attempts.len() > 0 && now >= attempts[0] && now - attempts[0] >= AUTH_FAILURE_WINDOW
        invariant
            prune_spec(old(attempts)@, now) == prune_spec(attempts@, now),
        decreases attempts@.len(),
    {
        let ghost before = attempts@;
        let _ = attempts.pop_front();
        assert(attempts@ =~= before.drop_first());
    }
}

/// Failures that are all still within the window are all kept: an origin with
/// at least [`MAX_AUTH_FAILURES`] of them is blocked.
pub proof fn lemma_recent_failures_block(attempts: Seq<u64>, now: u64)
    requires
        forall|i: int| 0 <= i < attempts.len() ==> !expired(#[trigger] attempts[i], now),
    ensures
        prune_spec(attempts, now) == attempts,
        attempts.len() >= MAX_AUTH_FAILURES ==> prune_spec(attempts, now).len() >= MAX_AUTH_FAILURES,
{
    if attempts.len() > 0 {
        assert(!expired(attempts[0], now));
    }
}

/// Failures that have all expired are all forgotten, so they never block.
pub proof fn lemma_expired_failures_forgotten(attempts: Seq<u64>, now: u64)
    requires
        forall|i: int| 0 <= i < attempts.len() ==> expired(#[trigger] attempts[i], now),
    ensures
        prune_spec(attempts, now).len() == 0,
    decreases attempts.len(),
{
    if attempts.len() > 0 {
        assert(expired(attempts[0], now));
        let rest = attempts.drop_first();
        assert forall|i: int| 0 <= i < rest.len() implies expired(#[trigger] rest[i], now) by {
            assert(rest[i] == attempts[i + 1]);
        }
        lemma_expired_failures_forgotten(rest, now);
    }
}

/// How many of `attempts` still count at time `now`.
pub open spec fn recent_count(attempts: Seq<u64>, now: u64) -> nat
    decreases attempts.len(),
{
    if attempts.len() == 0 {
        0
    } else {
        (if expired(attempts[0], now) { 0nat } else { 1nat }) + recent_count(attempts.drop_first(), now)
    }
}

/// Failure times recorded in order, none after `now`.
pub open spec fn ordered_before(attempts: Seq<u64>, now: u64) -> bool {
    &&& forall|i: int, j: int| 0 <= i <= j < attempts.len() ==> attempts[i] <= attempts[j]
    &&& forall|i: int| 0 <= i < attempts.len() ==> #[trigger] attempts[i] <= now
}

proof fn lemma_recent_count_all(attempts: Seq<u64>, now: u64)
    requires
        forall|i: int| 0 <= i < attempts.len() ==> !expired(#[trigger] attempts[i], now),
    ensures
        recent_count(attempts, now) == attempts.len(),
    decreases attempts.len(),
{
    if attempts.len() > 0 {
        assert(!expired(attempts[0], now));
        let rest = attempts.drop_first();
        assert forall|i: int| 0 <= i < rest.len() implies !expired(#[trigger] rest[i], now) by {
            assert(rest[i] == attempts[i + 1]);
        }
        lemma_recent_count_all(rest, now);
    }
}

/// For failure times recorded in order and none after `now`, an origin is
/// blocked at `now` exactly when at least [`MAX_AUTH_FAILURES`] of its
/// failures fall within the last [`AUTH_FAILURE_WINDOW`]: the failures that
/// `limited` keeps are exactly those that still count.
pub proof fn lemma_limited_counts_recent(attempts: Seq<u64>, now: u64)
    requires
        ordered_before(attempts, now),
    ensures
        prune_spec(attempts, now).len() == recent_count(attempts, now),
        (prune_spec(attempts, now).len() >= MAX_AUTH_FAILURES) == (recent_count(attempts, now) >= MAX_AUTH_FAILURES),
    decreases attempts.len(),
{
    if attempts.len() > 0 {
        let rest = attempts.drop_first();
        if expired(attempts[0], now) {
            assert(ordered_before(rest, now)) by {
                assert forall|i: int, j: int| 0 <= i <= j < rest.len() implies rest[i] <= rest[j] by {
                    assert(rest[i] == attempts[i + 1] && rest[j] == attempts[j + 1]);
                }
                assert forall|i: int| 0 <= i < rest.len() implies #[trigger] rest[i] <= now by {
                    assert(rest[i] == attempts[i + 1]);
                }
            }
            lemma_limited_counts_recent(rest, now);
        } else {
            assert forall|i: int| 0 <= i < attempts.len() implies !expired(#[trigger] attempts[i], now) by {
                assert(attempts[0] <= attempts[i]);
                assert(attempts[i] <= now);
            }
            lemma_recent_count_all(attempts, now);
        }
    }
}

/// Recording a failure at `now` after failures recorded in order keeps them
/// in order: what `record_failure` stores is again ordered, for any later
/// time.
pub proof fn lemma_record_keeps_order(attempts: Seq<u64>, now: u64, later: u64)
    requires
        ordered_before(attempts, now),
        now <= later,
    ensures
        ordered_before(prune_spec(attempts, now).push(now), later),
{
    lemma_prune_suffix(attempts, now);
    let p = prune_spec(attempts, now);
    let q = p.push(now);
    let d = attempts.len() - p.len();
    assert forall|i: int| 0 <= i < p.len() implies #[trigger] p[i] == attempts[i + d] by {}
    assert forall|i: int, j: int| 0 <= i <= j < q.len() implies q[i] <= q[j] by {
        if j < p.len() {
            assert(p[i] == attempts[i + d] && p[j] == attempts[j + d]);
        } else if i < p.len() {
            assert(p[i] == attempts[i + d]);
        }
    }
    assert forall|i: int| 0 <= i < q.len() implies #[trigger] q[i] <= later by {
        if i < p.len() {
            assert(p[i] == attempts[i + d]);
        }
    }
}

/// The failures kept for an origin that had `attempts` after
/// `record_failure` is called at each of `times` in turn.
pub open spec fn after_failures(attempts: Seq<u64>, times: Seq<u64>) -> Seq<u64>
    decreases times.len(),
{
    if times.len() == 0 {
        attempts
    } else {
        after_failures(prune_spec(attempts, times[0]).push(times[0]), times.drop_first())
    }
}

proof fn lemma_recent_count_concat(x: Seq<u64>, y: Seq<u64>, now: u64)
    ensures
        recent_count(x + y, now) == recent_count(x, now) + recent_count(y, now),
    decreases x.len(),
{
    if x.len() == 0 {
        assert(x + y =~= y);
    } else {
        assert((x + y).drop_first() =~= x.drop_first() + y);
        lemma_recent_count_concat(x.drop_first(), y, now);
    }
}

proof fn lemma_recent_count_bound(x: Seq<u64>, now: u64)
    ensures
        recent_count(x, now) <= x.len(),
    decreases x.len(),
{
    if x.len() > 0 {
        lemma_recent_count_bound(x.drop_first(), now);
    }
}

/// What expired at an earlier time `t` has expired at `now` too, so pruning
/// at `t` drops no failure that still counts at `now`.
proof fn lemma_prune_keeps_recent(attempts: Seq<u64>, t: u64, now: u64)
    requires
        t <= now,
    ensures
        recent_count(prune_spec(attempts, t), now) == recent_count(attempts, now),
    decreases attempts.len(),
{
    if attempts.len() > 0 && expired(attempts[0], t) {
        lemma_prune_keeps_recent(attempts.drop_first(), t, now);
    }
}

proof fn lemma_ordered_skip(s: Seq<u64>, d: int, now: u64)
    requires
        ordered_before(s, now),
        0 <= d <= s.len(),
    ensures
        ordered_before(s.skip(d), now),
{
    let k = s.skip(d);
    assert forall|i: int, j: int| 0 <= i <= j < k.len() implies k[i] <= k[j] by {
        assert(k[i] == s[i + d] && k[j] == s[j + d]);
    }
    assert forall|i: int| 0 <= i < k.len() implies #[trigger] k[i] <= now by {
        assert(k[i] == s[i + d]);
    }
}

proof fn lemma_history(attempts: Seq<u64>, times: Seq<u64>, now: u64)
    requires
        ordered_before(attempts + times, now),
    ensures
        ordered_before(after_failures(attempts, times), now),
        recent_count(after_failures(attempts, times), now) == recent_count(attempts + times, now),
    decreases times.len(),
{
    let all = attempts + times;
    if times.len() == 0 {
        assert(all =~= attempts);
    } else {
        let t0 = times[0];
        let rest = times.drop_first();
        assert(all[attempts.len() as int] == t0);
        assert(t0 <= now);
        lemma_prune_suffix(attempts, t0);
        let p = prune_spec(attempts, t0);
        let d = attempts.len() - p.len();
        let next = p.push(t0);
        assert(next + rest =~= all.skip(d)) by {
            assert forall|i: int| 0 <= i < p.len() implies #[trigger] p[i] == attempts[i + d] by {}
        }
        lemma_ordered_skip(all, d, now);
        lemma_history(next, rest, now);
        lemma_prune_keeps_recent(attempts, t0, now);
        lemma_recent_count_concat(attempts, times, now);
        assert(next =~= p + seq![t0]);
        lemma_recent_count_concat(p, seq![t0], now);
        lemma_recent_count_concat(next, rest, now);
        assert(times =~= seq![t0] + rest);
        lemma_recent_count_concat(seq![t0], rest, now);
    }
}

/// The limiter over a history: for an origin whose failures were recorded at
/// `times`, in order and none after `now`, with no clear since (or since it
/// was first seen), what `limited` keeps at `now` is exactly the failures of
/// the last [`AUTH_FAILURE_WINDOW`]; so it is blocked exactly when at least
/// [`MAX_AUTH_FAILURES`] of them fall in that window, and an origin with
/// fewer failures than that since it authenticated is never blocked.
pub proof fn lemma_failure_history(times: Seq<u64>, now: u64)
    requires
        ordered_before(times, now),
    ensures
        prune_spec(after_failures(Seq::empty(), times), now).len() == recent_count(times, now),
        recent_count(times, now) <= times.len(),
{
    assert(Seq::<u64>::empty() + times =~= times);
    lemma_history(Seq::empty(), times, now);
    lemma_limited_counts_recent(after_failures(Seq::empty(), times), now);
    lemma_recent_count_bound(times, now);
}

/// Pruning only drops attempts from the front.
pub proof fn lemma_prune_suffix(attempts: Seq<u64>, now: u64)
    ensures
        prune_spec(attempts, now).len() <= attempts.len(),
        prune_spec(attempts, now) == attempts.skip(attempts.len() - prune_spec(attempts, now).len()),
    decreases attempts.len(),
{
    if attempts.len() > 0 && expired(attempts[0], now) {
        lemma_prune_suffix(attempts.drop_first(), now);
        assert(attempts.drop_first().skip(attempts.drop_first().len() - prune_spec(attempts, now).len())
            =~= attempts.skip(attempts.len() - prune_spec(attempts, now).len()));
    } else {
        assert(attempts.skip(0) =~= attempts);
    }
}


/// An event of the daemon's audit log.
#[derive(Debug)]
pub enum AuditEvent {
    /// A connection was refused because its origin is blocked.
    RateLimited,
    /// A connection failed to authenticate.
    AuthenticationFailed,
    /// A pairing code was redeemed for a desktop.
    PairingRedeemed(String),
    /// A pairing code could not be redeemed; why.
    PairingFailed(String),
    /// A request was carried out, with its answer or its error.
    Request(RouteKind, Result<String, String>),
}

/// An audit event as plain values.
pub enum AuditEventView {
    RateLimited,
    AuthenticationFailed,
    PairingRedeemed(Seq<char>),
    PairingFailed(Seq<char>),
    Request(RouteKind, Result<Seq<char>, Seq<char>>),
}

impl View for AuditEvent {
    type V = AuditEventView;

    open spec fn view(&self) -> AuditEventView {
        match self {
            AuditEvent::RateLimited => AuditEventView::RateLimited,
            AuditEvent::AuthenticationFailed => AuditEventView::AuthenticationFailed,
            AuditEvent::PairingRedeemed(d) => AuditEventView::PairingRedeemed(d@),
            AuditEvent::PairingFailed(m) => AuditEventView::PairingFailed(m@),
            AuditEvent::Request(k, Ok(v)) => AuditEventView::Request(*k, Ok(v@)),
            AuditEvent::Request(k, Err(e)) => AuditEventView::Request(*k, Err(e@)),
        }
    }
}

/// The event name under which a request is audited: the verb of a
/// lifecycle or device-management request, whatever its outcome; `VIDEO` for
/// a stream that failed; none for anything else.
pub open spec fn audit_verb(kind: RouteKind, ok: bool) -> Option<Seq<char>> {
    match kind {
        RouteKind::Provision => Some("PROVISION"@),
        RouteKind::Revoke => Some("REVOKE"@),
        RouteKind::RevokeDevice => Some("REVOKE-DEVICE"@),
        RouteKind::Start => Some("START"@),
        RouteKind::Restart => Some("RESTART"@),
        RouteKind::Stop => Some("STOP"@),
        RouteKind::Video | RouteKind::Audio | RouteKind::InputStream => if ok { None } else { Some("VIDEO"@) },
        _ => None,
    }
}

/// The audit line of an event from origin `peer`, if it is audited.
pub open spec fn audit_text(peer: Seq<char>, event: AuditEventView) -> Option<Seq<char>> {
    match event {
        AuditEventView::RateLimited => Some("audit event=authentication-rate-limited peer="@ + peer),
        AuditEventView::AuthenticationFailed => Some("audit event=authentication-failed peer="@ + peer),
        AuditEventView::PairingRedeemed(d) => Some("audit event=pairing-redeemed peer="@ + peer + " desktop="@ + d),
        AuditEventView::PairingFailed(m) => Some("audit event=pairing-failed peer="@ + peer + " detail="@ + m),
        AuditEventView::Request(kind, result) => match audit_verb(kind, result is Ok) {
            None => None,
            Some(verb) => Some("audit event="@ + verb + " peer="@ + peer + match result {
                Ok(v) => " result=ok detail="@ + v,
                Err(e) => " result=error detail="@ + e,
            }),
        },
    }
}

fn audit_verb_of(kind: RouteKind, ok: bool) -> (r: Option<&'static str>)
    ensures
        match r {
            Some(v) => audit_verb(kind, ok) == Some(v@),
            None => audit_verb(kind, ok) is None,
        },
{
    match kind {
        RouteKind::Provision => Some("PROVISION"),
        RouteKind::Revoke => Some("REVOKE"),
        RouteKind::RevokeDevice => Some("REVOKE-DEVICE"),
        RouteKind::Start => Some("START"),
        RouteKind::Restart => Some("RESTART"),
        RouteKind::Stop => Some("STOP"),
        RouteKind::Video | RouteKind::Audio | RouteKind::InputStream => if ok { None } else { Some("VIDEO") },
        _ => None,
    }
}

/// The audit line of `event` from origin `peer`, if it is audited.
pub fn audit_line(peer: &str, event: &AuditEvent) -> (r: Option<String>)
    ensures
        match r {
            Some(line) => audit_text(peer@, event@) == Some(line@),
            None => audit_text(peer@, event@) is None,
        },
{
    match event {
        AuditEvent::RateLimited => Some(concat("audit event=authentication-rate-limited peer=", peer)),
        AuditEvent::AuthenticationFailed => Some(concat("audit event=authentication-failed peer=", peer)),
        AuditEvent::PairingRedeemed(d) => {
            let a = concat("audit event=pairing-redeemed peer=", peer);
            let b = concat(a.as_str(), " desktop=");
            Some(concat(b.as_str(), d.as_str()))
        },
        AuditEvent::PairingFailed(m) => {
            let a = concat("audit event=pairing-failed peer=", peer);
            let b = concat(a.as_str(), " detail=");
            Some(concat(b.as_str(), m.as_str()))
        },
        AuditEvent::Request(kind, result) => {
            let ok = match result { Ok(_) => true, Err(_) => false };
            match audit_verb_of(*kind, ok) {
                None => None,
                Some(verb) => {
                    let a = concat("audit event=", verb);
                    let b = concat(a.as_str(), " peer=");
                    let c = concat(b.as_str(), peer);
                    let (label, detail) = match result {
                        Ok(v) => (" result=ok detail=", v.as_str()),
                        Err(e) => (" result=error detail=", e.as_str()),
                    };
                    let d = concat(c.as_str(), label);
                    let line = concat(d.as_str(), detail);
                    proof {
                        assert(line@ == "audit event="@ + verb@ + " peer="@ + peer@ + (label@ + detail@));
                    }
                    Some(line)
                },
            }
        },
    }
}

/// Whether `s` ends with `suffix`.
pub open spec fn has_suffix(s: Seq<char>, suffix: Seq<char>) -> bool {
    s.len() >= suffix.len() && s.skip(s.len() - suffix.len()) == suffix
}

/// The audit event of a reply that closes a connection: a refusal of a
/// blocked origin (the reply ends with `ERR rate-limited`), or a failed
/// authentication (the reply is `ERR unauthorized`); none for any other.
pub fn closing_audit(reply: &str) -> (r: Option<AuditEvent>)
    ensures
        has_suffix(reply@, "ERR rate-limited\n"@) ==> (r matches Some(e) && e@ == AuditEventView::RateLimited),
        !has_suffix(reply@, "ERR rate-limited\n"@) && reply@ == "ERR unauthorized\n"@
            ==> (r matches Some(e) && e@ == AuditEventView::AuthenticationFailed),
        !has_suffix(reply@, "ERR rate-limited\n"@) && reply@ != "ERR unauthorized\n"@ ==> r is None,
{
    let v = chars_of(reply);
    let suffix = chars_of("ERR rate-limited\n");
    if v.len() >= suffix.len() {
        let tail = slice_to_vec(v.as_slice(), v.len() - suffix.len(), v.len());
        assert(tail@ =~= reply@.skip(reply@.len() - suffix@.len()));
        if chars_eq(tail.as_slice(), suffix.as_slice()) {
            return Some(AuditEvent::RateLimited);
        }
    }
    if chars_eq_str(v.as_slice(), "ERR unauthorized\n") {
        Some(AuditEvent::AuthenticationFailed)
    } else {
        None
    }
}

/// What relaying the input frames in `network` forwards to the agent before the
/// final reset, and how the relaying ends. Each input frame (payload of at
/// most [`InputEvent::MAX_ENCODED_LEN`] bytes) must carry one valid event,
/// which is forwarded re-encoded; a frame of another kind or an invalid event
/// ends the relaying with an error; running out of input ends it cleanly.
pub open spec fn forward_spec(network: Seq<u8>) -> (Seq<u8>, Result<(), TransportError>)
    decreases network.len(),
{
    match parse_frame(network, 5) {
        Err(TransportError::UnexpectedEof) => (Seq::empty(), Ok(())),
        Err(e) => (Seq::empty(), Err(e)),
        Ok((kind, payload)) => {
            if kind != FrameKind::Input {
                (Seq::empty(), Err(TransportError::UnexpectedFrame))
            } else {
                match decode_event(payload) {
                    None => (Seq::empty(), Err(TransportError::InvalidInputEvent)),
                    Some(event) => {
                        proof {
                            lemma_parse_frame_len(network, 5);
                        }
                        let rest = forward_spec(network.skip(HEADER_LEN + payload.len()));
                        (encode_event(event) + rest.0, rest.1)
                    },
                }
            }
        },
    }
}

/// Relays the input frames in `network` to `relay` and always ends with a
/// reset event, so that the agent releases every held key and button.
pub fn forward_input_frames(network: &[u8], relay: &mut Vec<u8>) -> (res: Result<(), TransportError>)
    ensures
        final(relay)@ == old(relay)@ + forward_spec(network@).0 + encode_event(InputEvent::Reset),
        res == forward_spec(network@).1,
{
    let mut offset: usize = 0;
    assert(network@.skip(0) =~= network@);
    let mut result: Result<(), TransportError> = Ok(());
    loop
        invariant
            offset <= network@.len(),
            forward_spec(network@).0 == relay@.subrange(old(relay)@.len() as int, relay@.len() as int)
                + forward_spec(network@.skip(offset as int)).0,
            forward_spec(network@).1 == forward_spec(network@.skip(offset as int)).1,
            old(relay)@.len() <= relay@.len(),
            relay@.subrange(0, old(relay)@.len() as int) == old(relay)@,
        ensures
            offset <= network@.len(),
            forward_spec(network@).0 == relay@.subrange(old(relay)@.len() as int, relay@.len() as int),
            forward_spec(network@).1 == result,
            old(relay)@.len() <= relay@.len(),
            relay@.subrange(0, old(relay)@.len() as int) == old(relay)@,
        decreases network@.len() - offset,
    {
        let ghost rest = network@.skip(offset as int);
        let ghost before = relay@;
        match Frame::read_prefix_at(network, offset, InputEvent::MAX_ENCODED_LEN) {
            Err(TransportError::UnexpectedEof) => {
                result = Ok(());
                break;
            },
            Err(error) => {
                result = Err(error);
                break;
            },
            Ok((frame, used)) => {
                if frame.kind != FrameKind::Input {
                    result = Err(TransportError::UnexpectedFrame);
                    break;
                }
                match InputEvent::decode(frame.payload.as_slice()) {
                    Err(error) => {
                        result = Err(error);
                        break;
                    },
                    Ok(event) => {
                        assert(InputEvent::MAX_ENCODED_LEN == 5);
                        assert(parse_frame(rest, 5) is Ok);
                        proof { lemma_parse_frame_len(rest, 5); }
                        assert(rest.len() == network@.len() - offset);
                        assert(used == HEADER_LEN + parse_frame(rest, 5)->Ok_0.1.len());
                        let total = network.len();
                        assert(offset + used <= total);
                        let bytes = event.encode();
                        let mut i: usize = 0;
                        while i < bytes.len()
                            invariant
                                i <= bytes@.len(),
                                relay@ == before + bytes@.take(i as int),
                            decreases bytes@.len() - i,
                        {
                            relay.push(bytes[i]);
                            i = i + 1;
                            assert(relay@ =~= before + bytes@.take(i as int));
                        }
                        assert(bytes@.take(bytes@.len() as int) =~= bytes@);
                        assert(rest.skip(used as int) =~= network@.skip(offset + used));
                        offset = offset + used;
                        assert(relay@.subrange(old(relay)@.len() as int, relay@.len() as int)
                            =~= before.subrange(old(relay)@.len() as int, before.len() as int) + bytes@);
                        assert(relay@.subrange(0, old(relay)@.len() as int) =~= before.subrange(0, old(relay)@.len() as int));
                    },
                }
            },
        }
    }
    let reset = InputEvent::Reset.encode();
    relay.push(reset[0]);
    assert(reset@.len() == 1);
    assert(relay@ =~= old(relay)@ + forward_spec(network@).0 + encode_event(InputEvent::Reset));
    result
}


/// The reply to `INFO`: protocol version and features.
pub const INFO_RESPONSE: &'static str = "version=1;features=desktop-lifecycle,device-management,private-h264-capture,private-opus-audio,private-input";

/// `a` followed by `b`.
pub fn concat(a: &str, b: &str) -> (r: String)
    ensures
        r@ == a@ + b@,
{
    let mut v = chars_of(a);
    let w = chars_of(b);
    let mut i: usize = 0;
    let ghost start = v@;
    while i < w.len()
        invariant
            i <= w@.len(),
            v@ == start + w@.take(i as int),
        decreases w@.len() - i,
    {
        v.push(w[i]);
        i = i + 1;
        assert(v@ =~= start + w@.take(i as int));
    }
    assert(w@.take(w@.len() as int) =~= w@);
    string_from(v.as_slice())
}

/// Where a control connection stands.
#[derive(Debug)]
pub enum ControlPhase {
    /// Banner sent; waiting for the rate check and then the first line.
    Greeting,
    /// Waiting for the result of checking a presented token.
    Authenticating,
    /// Waiting for the result of redeeming a presented pairing code.
    Pairing,
    /// Authenticated; waiting for a request line.
    Ready(Principal),
    /// A routed request is being carried out.
    Executing(Principal),
    /// The connection has been handed over to a stream.
    Streaming(Principal),
    /// Nothing more happens on the connection.
    Closed,
}

/// Something that happened on a control connection.
#[derive(Debug)]
pub enum ControlEvent {
    /// The connection was accepted and the banner is about to be sent.
    Connected,
    /// A line was read (before authentication, an empty read gives an empty line).
    Line(String),
    /// The peer closed the connection between requests.
    EndOfInput,
    /// The presented token belongs to this principal, or to nobody.
    Authenticated(Option<Principal>),
    /// Redeeming the pairing code gave (desktop id, device token), or failed.
    Paired(Option<(String, String)>),
    /// A request was carried out with this value, or failed with this message.
    Completed(Result<String, String>),
    /// A stream ended cleanly (`None`) or failed with this message.
    StreamEnded(Option<String>),
    /// Reading, writing or a lookup failed; the connection ends.
    Failed,
}

/// What the connection does next.
#[derive(Debug)]
pub enum ControlAction {
    /// Send this text and keep reading.
    Reply(String),
    /// Send this text and close.
    ReplyAndClose(String),
    /// Close without a reply.
    Close,
    /// Check this presented token and report [`ControlEvent::Authenticated`].
    Authenticate(String),
    /// Redeem this pairing code and report [`ControlEvent::Paired`].
    RedeemPairing(String),
    /// Carry out this request and report [`ControlEvent::Completed`].
    Execute(Route),
    /// Hand the connection over to this stream and report [`ControlEvent::StreamEnded`].
    Stream(Route),
}

/// What a control step does to the origin's failure record.
#[derive(Clone, Copy, Debug, PartialEq, Eq, Structural)]
pub enum LimiterEffect {
    Keep,
    Check,
    Clear,
    RecordFailure,
}

pub enum PhaseView {
    Greeting,
    Authenticating,
    Pairing,
    Ready(PrincipalView),
    Executing(PrincipalView),
    Streaming(PrincipalView),
    Closed,
}

pub enum EventView {
    Connected,
    Line(Seq<char>),
    EndOfInput,
    Authenticated(Option<PrincipalView>),
    Paired(Option<(Seq<char>, Seq<char>)>),
    Completed(Result<Seq<char>, Seq<char>>),
    StreamEnded(Option<Seq<char>>),
    Failed,
}

pub enum ActionView {
    Reply(Seq<char>),
    ReplyAndClose(Seq<char>),
    Close,
    Authenticate(Seq<char>),
    RedeemPairing(Seq<char>),
    Execute((RouteKind, Option<Seq<char>>, Option<Seq<char>>)),
    Stream((RouteKind, Option<Seq<char>>, Option<Seq<char>>)),
}

impl View for ControlPhase {
    type V = PhaseView;

    open spec fn view(&self) -> PhaseView {
        match self {
            ControlPhase::Greeting => PhaseView::Greeting,
            ControlPhase::Authenticating => PhaseView::Authenticating,
            ControlPhase::Pairing => PhaseView::Pairing,
            ControlPhase::Ready(p) => PhaseView::Ready(p@),
            ControlPhase::Executing(p) => PhaseView::Executing(p@),
            ControlPhase::Streaming(p) => PhaseView::Streaming(p@),
            ControlPhase::Closed => PhaseView::Closed,
        }
    }
}

impl View for ControlEvent {
    type V = EventView;

    open spec fn view(&self) -> EventView {
        match self {
            ControlEvent::Connected => EventView::Connected,
            ControlEvent::Line(l) => EventView::Line(l@),
            ControlEvent::EndOfInput => EventView::EndOfInput,
            ControlEvent::Authenticated(p) => EventView::Authenticated(
                match p {
                    Some(p) => Some(p@),
                    None => None,
                },
            ),
            ControlEvent::Paired(c) => EventView::Paired(
                match c {
                    Some((d, t)) => Some((d@, t@)),
                    None => None,
                },
            ),
            ControlEvent::Completed(r) => EventView::Completed(
                match r {
                    Ok(v) => Ok(v@),
                    Err(e) => Err(e@),
                },
            ),
            ControlEvent::StreamEnded(e) => EventView::StreamEnded(
                match e {
                    Some(e) => Some(e@),
                    None => None,
                },
            ),
            ControlEvent::Failed => EventView::Failed,
        }
    }
}

/// A route as its kind and ids.
pub open spec fn route_view(r: Route) -> (RouteKind, Option<Seq<char>>, Option<Seq<char>>) {
    (r.kind, r.desktop.deep_view(), r.device.deep_view())
}

impl View for ControlAction {
    type V = ActionView;

    open spec fn view(&self) -> ActionView {
        match self {
            ControlAction::Reply(t) => ActionView::Reply(t@),
            ControlAction::ReplyAndClose(t) => ActionView::ReplyAndClose(t@),
            ControlAction::Close => ActionView::Close,
            ControlAction::Authenticate(t) => ActionView::Authenticate(t@),
            ControlAction::RedeemPairing(c) => ActionView::RedeemPairing(c@),
            ControlAction::Execute(r) => ActionView::Execute(route_view(*r)),
            ControlAction::Stream(r) => ActionView::Stream(route_view(*r)),
        }
    }
}

/// The banner and prompt, one per line.
pub open spec fn greeting_text() -> Seq<char> {
    BANNER@ + "\n"@ + AUTH_PROMPT@ + "\n"@
}

/// A first line that is neither `AUTH <token>` nor `PAIR <code>` (after trimming)
/// authenticates nobody.
pub open spec fn greeting_step(line: Seq<char>) -> (PhaseView, ActionView, LimiterEffect) {
    let t = trim(line);
    if "AUTH "@.len() <= t.len() && t.take("AUTH "@.len() as int) == "AUTH "@ {
        (PhaseView::Authenticating, ActionView::Authenticate(t.skip("AUTH "@.len() as int)), LimiterEffect::Keep)
    } else if "PAIR "@.len() <= t.len() && t.take("PAIR "@.len() as int) == "PAIR "@ {
        (PhaseView::Pairing, ActionView::RedeemPairing(t.skip("PAIR "@.len() as int)), LimiterEffect::Keep)
    } else {
        (PhaseView::Closed, ActionView::ReplyAndClose("ERR unauthorized\n"@), LimiterEffect::RecordFailure)
    }
}

/// The step for a request line of an authenticated principal.
pub open spec fn request_step(p: PrincipalView, line: Seq<char>) -> (PhaseView, ActionView, LimiterEffect) {
    let r = route_line(p, line);
    let kind = r.0;
    if kind == RouteKind::Info {
        (PhaseView::Ready(p), ActionView::Reply("OK "@ + INFO_RESPONSE@ + "\n"@), LimiterEffect::Keep)
    } else if kind == RouteKind::Ping {
        (PhaseView::Ready(p), ActionView::Reply("OK PONG\n"@), LimiterEffect::Keep)
    } else if kind == RouteKind::Quit {
        (PhaseView::Closed, ActionView::Close, LimiterEffect::Keep)
    } else if kind == RouteKind::Forbidden {
        (PhaseView::Ready(p), ActionView::Reply("ERR forbidden\n"@), LimiterEffect::Keep)
    } else if kind == RouteKind::Unknown {
        (PhaseView::Ready(p), ActionView::Reply("ERR unknown-command\n"@), LimiterEffect::Keep)
    } else if kind == RouteKind::Video || kind == RouteKind::Audio || kind == RouteKind::InputStream {
        (PhaseView::Streaming(p), ActionView::Stream(r), LimiterEffect::Keep)
    } else {
        (PhaseView::Executing(p), ActionView::Execute(r), LimiterEffect::Keep)
    }
}

/// One step of a control connection: the next phase, the action, and what it
/// does to the origin's failure record. `limited` is the rate limiter's
/// verdict, consulted when the connection opens.
pub open spec fn control_step(phase: PhaseView, event: EventView, limited: bool) -> (PhaseView, ActionView, LimiterEffect) {
    match phase {
        PhaseView::Greeting => match event {
            EventView::Connected => if limited {
                (PhaseView::Closed, ActionView::ReplyAndClose(greeting_text() + "ERR rate-limited\n"@), LimiterEffect::Check)
            } else {
                (PhaseView::Greeting, ActionView::Reply(greeting_text()), LimiterEffect::Check)
            },
            EventView::Line(l) => greeting_step(l),
            EventView::EndOfInput => greeting_step(Seq::empty()),
            _ => (PhaseView::Closed, ActionView::Close, LimiterEffect::Keep),
        },
        PhaseView::Authenticating => match event {
            EventView::Authenticated(Some(p)) => (PhaseView::Ready(p), ActionView::Reply("OK authenticated\n"@), LimiterEffect::Clear),
            EventView::Authenticated(None) => (PhaseView::Closed, ActionView::ReplyAndClose("ERR unauthorized\n"@), LimiterEffect::RecordFailure),
            _ => (PhaseView::Closed, ActionView::Close, LimiterEffect::Keep),
        },
        PhaseView::Pairing => match event {
            EventView::Paired(Some((d, t))) => (PhaseView::Closed, ActionView::ReplyAndClose(
                "OK paired desktop="@ + d + " token="@ + t + "\n"@), LimiterEffect::Clear),
            EventView::Paired(None) => (PhaseView::Closed, ActionView::ReplyAndClose("ERR pairing-failed\n"@), LimiterEffect::RecordFailure),
            _ => (PhaseView::Closed, ActionView::Close, LimiterEffect::Keep),
        },
        PhaseView::Ready(p) => match event {
            EventView::Line(l) => request_step(p, l),
            _ => (PhaseView::Closed, ActionView::Close, LimiterEffect::Keep),
        },
        PhaseView::Executing(p) => match event {
            EventView::Completed(Ok(v)) => (PhaseView::Ready(p), ActionView::Reply("OK "@ + v + "\n"@), LimiterEffect::Keep),
            EventView::Completed(Err(e)) => (PhaseView::Ready(p), ActionView::Reply("ERR "@ + e + "\n"@), LimiterEffect::Keep),
            _ => (PhaseView::Closed, ActionView::Close, LimiterEffect::Keep),
        },
        PhaseView::Streaming(p) => match event {
            EventView::StreamEnded(None) => (PhaseView::Closed, ActionView::Close, LimiterEffect::Keep),
            EventView::StreamEnded(Some(e)) => (PhaseView::Ready(p), ActionView::Reply("ERR "@ + e + "\n"@), LimiterEffect::Keep),
            _ => (PhaseView::Closed, ActionView::Close, LimiterEffect::Keep),
        },
        PhaseView::Closed => (PhaseView::Closed, ActionView::Close, LimiterEffect::Keep),
    }
}

/// The failure records after a step's effect on `peer` at `now`.
pub open spec fn apply_effect(m: Map<Seq<char>, Seq<u64>>, effect: LimiterEffect, peer: Seq<char>, now: u64) -> Map<Seq<char>, Seq<u64>> {
    let failures = if m.contains_key(peer) { m[peer] } else { Seq::empty() };
    match effect {
        LimiterEffect::Keep => m,
        LimiterEffect::Check => m.insert(peer, prune_spec(failures, now)),
        LimiterEffect::Clear => m.remove(peer),
        LimiterEffect::RecordFailure => m.insert(peer, prune_spec(failures, now).push(now)),
    }
}

/// One control connection of the daemon, driven by the events that its
/// socket, the credential stores and the session manager produce.
pub struct ControlSession {
    pub phase: ControlPhase,
    pub peer: String,
}

fn reply(text: &str) -> (a: ControlAction)
    ensures
        a@ == ActionView::Reply(text@),
{
    ControlAction::Reply(text.to_owned())
}

fn reply_and_close(text: &str) -> (a: ControlAction)
    ensures
        a@ == ActionView::ReplyAndClose(text@),
{
    ControlAction::ReplyAndClose(text.to_owned())
}

impl ControlSession {
    /// A new connection from `peer`, about to send its banner.
    pub fn new(peer: String) -> (s: Self)
        ensures
            s.phase@ == PhaseView::Greeting,
            s.peer@ == peer@,
    {
        ControlSession { phase: ControlPhase::Greeting, peer }
    }

    fn greeting_line(line: &str) -> (r: (ControlPhase, ControlAction, LimiterEffect))
        ensures
            (r.0@, r.1@, r.2) == greeting_step(line@),
    {
        let chars = chars_of(line);
        let t = trim_chars(chars.as_slice());
        if let Some(token) = strip_prefix(t.as_slice(), "AUTH ") {
            return (ControlPhase::Authenticating, ControlAction::Authenticate(string_from(token.as_slice())), LimiterEffect::Keep);
        }
        if let Some(code) = strip_prefix(t.as_slice(), "PAIR ") {
            return (ControlPhase::Pairing, ControlAction::RedeemPairing(string_from(code.as_slice())), LimiterEffect::Keep);
        }
        (ControlPhase::Closed, reply_and_close("ERR unauthorized\n"), LimiterEffect::RecordFailure)
    }

    fn request_line(p: Principal, line: &str) -> (r: (ControlPhase, ControlAction, LimiterEffect))
        ensures
            (r.0@, r.1@, r.2) == request_step(p@, line@),
    {
        let r = route_command(&p, line);
        match r.kind {
            RouteKind::Info => {
                let text = concat("OK ", INFO_RESPONSE);
                let text = concat(text.as_str(), "\n");
                (ControlPhase::Ready(p), ControlAction::Reply(text), LimiterEffect::Keep)
            },
            RouteKind::Ping => (ControlPhase::Ready(p), reply("OK PONG\n"), LimiterEffect::Keep),
            RouteKind::Quit => (ControlPhase::Closed, ControlAction::Close, LimiterEffect::Keep),
            RouteKind::Forbidden => (ControlPhase::Ready(p), reply("ERR forbidden\n"), LimiterEffect::Keep),
            RouteKind::Unknown => (ControlPhase::Ready(p), reply("ERR unknown-command\n"), LimiterEffect::Keep),
            RouteKind::Video | RouteKind::Audio | RouteKind::InputStream => (ControlPhase::Streaming(p), ControlAction::Stream(r), LimiterEffect::Keep),
            _ => (ControlPhase::Executing(p), ControlAction::Execute(r), LimiterEffect::Keep),
        }
    }

    fn result_line(prefix: &str, text: &str) -> (r: String)
        ensures
            r@ == prefix@ + text@ + "\n"@,
    {
        let a = concat(prefix, text);
        concat(a.as_str(), "\n")
    }

    /// Advances the connection by one event: moves to the next phase, applies
    /// the step's effect to the origin's failure record in `limiter`, and
    /// returns what to do next.
    pub fn step(&mut self, limiter: &mut AuthRateLimiter, now: u64, event: ControlEvent) -> (action: ControlAction)
        requires
            old(limiter).wf(),
        ensures
            final(limiter).wf(),
            final(self).peer@ == old(self).peer@,
            ({
                let limited = prune_spec(old(limiter).failures(old(self).peer@), now).len() >= MAX_AUTH_FAILURES;
                let (phase, act, effect) = control_step(old(self).phase@, event@, limited);
                &&& final(self).phase@ == phase
                &&& action@ == act
                &&& final(limiter)@ == apply_effect(old(limiter)@, effect, old(self).peer@, now)
            }),
    {
        let mut phase = ControlPhase::Closed;
        std::mem::swap(&mut phase, &mut self.phase);
        let (next, action, effect) = match phase {
            ControlPhase::Greeting => match event {
                ControlEvent::Connected => {
                    let g = concat(BANNER, "\n");
                    let g = concat(g.as_str(), AUTH_PROMPT);
                    let g = concat(g.as_str(), "\n");
                    if limiter.limited(self.peer.as_str(), now) {
                        let text = concat(g.as_str(), "ERR rate-limited\n");
                        (ControlPhase::Closed, ControlAction::ReplyAndClose(text), LimiterEffect::Check)
                    } else {
                        (ControlPhase::Greeting, ControlAction::Reply(g), LimiterEffect::Check)
                    }
                },
                ControlEvent::Line(l) => Self::greeting_line(l.as_str()),
                ControlEvent::EndOfInput => {
                    let r = Self::greeting_line("");
                    proof { reveal_strlit(""); }
                    assert(""@ =~= Seq::<char>::empty());
                    r
                },
                _ => (ControlPhase::Closed, ControlAction::Close, LimiterEffect::Keep),
            },
            ControlPhase::Authenticating => match event {
                ControlEvent::Authenticated(Some(p)) => (ControlPhase::Ready(p), reply("OK authenticated\n"), LimiterEffect::Clear),
                ControlEvent::Authenticated(None) => (ControlPhase::Closed, reply_and_close("ERR unauthorized\n"), LimiterEffect::RecordFailure),
                _ => (ControlPhase::Closed, ControlAction::Close, LimiterEffect::Keep),
            },
            ControlPhase::Pairing => match event {
                ControlEvent::Paired(Some((d, t))) => {
                    let a = concat("OK paired desktop=", d.as_str());
                    let a = concat(a.as_str(), " token=");
                    let a = concat(a.as_str(), t.as_str());
                    let a = concat(a.as_str(), "\n");
                    (ControlPhase::Closed, ControlAction::ReplyAndClose(a), LimiterEffect::Clear)
                },
                ControlEvent::Paired(None) => (ControlPhase::Closed, reply_and_close("ERR pairing-failed\n"), LimiterEffect::RecordFailure),
                _ => (ControlPhase::Closed, ControlAction::Close, LimiterEffect::Keep),
            },
            ControlPhase::Ready(p) => match event {
                ControlEvent::Line(l) => Self::request_line(p, l.as_str()),
                _ => (ControlPhase::Closed, ControlAction::Close, LimiterEffect::Keep),
            },
            ControlPhase::Executing(p) => match event {
                ControlEvent::Completed(Ok(v)) => (ControlPhase::Ready(p), ControlAction::Reply(Self::result_line("OK ", v.as_str())), LimiterEffect::Keep),
                ControlEvent::Completed(Err(e)) => (ControlPhase::Ready(p), ControlAction::Reply(Self::result_line("ERR ", e.as_str())), LimiterEffect::Keep),
                _ => (ControlPhase::Closed, ControlAction::Close, LimiterEffect::Keep),
            },
            ControlPhase::Streaming(p) => match event {
                ControlEvent::StreamEnded(None) => (ControlPhase::Closed, ControlAction::Close, LimiterEffect::Keep),
                ControlEvent::StreamEnded(Some(e)) => (ControlPhase::Ready(p), ControlAction::Reply(Self::result_line("ERR ", e.as_str())), LimiterEffect::Keep),
                _ => (ControlPhase::Closed, ControlAction::Close, LimiterEffect::Keep),
            },
            ControlPhase::Closed => (ControlPhase::Closed, ControlAction::Close, LimiterEffect::Keep),
        };
        match effect {
            LimiterEffect::Clear => limiter.clear(self.peer.as_str()),
            LimiterEffect::RecordFailure => limiter.record_failure(self.peer.as_str(), now),
            _ => {},
        }
        self.phase = next;
        action
    }
}

/// Relaying one input frame: the re-encoded event when it is an input
/// frame carrying a valid event.
pub fn relay_input_frame(frame: &Frame) -> (r: Result<Vec<u8>, TransportError>)
    ensures
        frame.kind != FrameKind::Input ==> r == Err::<Vec<u8>, TransportError>(TransportError::UnexpectedFrame),
        frame.kind == FrameKind::Input ==> match decode_event(frame.payload@) {
            Some(event) => r matches Ok(bytes) && bytes@ == encode_event(event),
            None => r == Err::<Vec<u8>, TransportError>(TransportError::InvalidInputEvent),
        },
{
    if frame.kind != FrameKind::Input {
        return Err(TransportError::UnexpectedFrame);
    }
    match InputEvent::decode(frame.payload.as_slice()) {
        Ok(event) => Ok(event.encode()),
        Err(e) => Err(e),
    }
}

/// The line that opens a stream of `kind`.
pub open spec fn stream_reply_text(kind: RouteKind) -> Seq<char> {
    match kind {
        RouteKind::Video => VIDEO_REPLY@ + "\n"@,
        RouteKind::Audio => AUDIO_REPLY@ + "\n"@,
        RouteKind::InputStream => INPUT_REPLY@ + "\n"@,
        _ => Seq::empty(),
    }
}

/// The line that opens a stream of `kind` (empty for other kinds).
pub fn stream_reply(kind: RouteKind) -> (r: String)
    ensures
        r@ == stream_reply_text(kind),
{
    match kind {
        RouteKind::Video => concat(VIDEO_REPLY, "\n"),
        RouteKind::Audio => concat(AUDIO_REPLY, "\n"),
        RouteKind::InputStream => concat(INPUT_REPLY, "\n"),
        _ => String::new(),
    }
}

/// The frame that configures a media stream of `kind`: its codec settings.
pub fn stream_config(kind: RouteKind) -> (r: Option<Frame>)
    ensures
        kind == RouteKind::Video ==> (r matches Some(f) && f.kind == FrameKind::VideoConfig
            && f.payload@ == vstd::utf8::encode_utf8(VIDEO_CONFIG@)),
        kind == RouteKind::Audio ==> (r matches Some(f) && f.kind == FrameKind::AudioConfig
            && f.payload@ == vstd::utf8::encode_utf8(AUDIO_CONFIG@)),
        kind != RouteKind::Video && kind != RouteKind::Audio ==> r is None,
{
    match kind {
        RouteKind::Video => Some(Frame { kind: FrameKind::VideoConfig, payload: vstd::slice::slice_to_vec(VIDEO_CONFIG.as_bytes()) }),
        RouteKind::Audio => Some(Frame { kind: FrameKind::AudioConfig, payload: vstd::slice::slice_to_vec(AUDIO_CONFIG.as_bytes()) }),
        _ => None,
    }
}

/// The frame that carries `chunk` of a media stream of `kind`.
pub fn stream_data(kind: RouteKind, chunk: &[u8]) -> (r: Option<Frame>)
    ensures
        kind == RouteKind::Video ==> (r matches Some(f) && f.kind == FrameKind::VideoData && f.payload@ == chunk@),
        kind == RouteKind::Audio ==> (r matches Some(f) && f.kind == FrameKind::AudioData && f.payload@ == chunk@),
        kind != RouteKind::Video && kind != RouteKind::Audio ==> r is None,
{
    match kind {
        RouteKind::Video => Some(Frame { kind: FrameKind::VideoData, payload: vstd::slice::slice_to_vec(chunk) }),
        RouteKind::Audio => Some(Frame { kind: FrameKind::AudioData, payload: vstd::slice::slice_to_vec(chunk) }),
        _ => None,
    }
}

/// A presented token that authenticates clears its origin's failures; one
/// that does not is recorded as a failure at that time. Pairing codes are
/// counted the same way.
pub proof fn lemma_authentication_outcomes(m: Map<Seq<char>, Seq<u64>>, peer: Seq<char>, now: u64, p: PrincipalView, code: (Seq<char>, Seq<char>), limited: bool)
    ensures
        !apply_effect(m, control_step(PhaseView::Authenticating, EventView::Authenticated(Some(p)), limited).2, peer, now).contains_key(peer),
        !apply_effect(m, control_step(PhaseView::Pairing, EventView::Paired(Some(code)), limited).2, peer, now).contains_key(peer),
        ({
            let failures = if m.contains_key(peer) { m[peer] } else { Seq::empty() };
            &&& apply_effect(m, control_step(PhaseView::Authenticating, EventView::Authenticated(None), limited).2, peer, now)[peer]
                == prune_spec(failures, now).push(now)
            &&& apply_effect(m, control_step(PhaseView::Pairing, EventView::Paired(None), limited).2, peer, now)[peer]
                == prune_spec(failures, now).push(now)
        }),
{
}

/// Nothing is carried out for a connection before it authenticates: from
/// the greeting, authentication and pairing phases no step executes or
/// streams a request, and only a principal that authenticated reaches the
/// phase that reads requests. A blocked origin is closed before it can
/// present anything.
pub proof fn lemma_no_request_before_authentication(phase: PhaseView, event: EventView, limited: bool)
    requires
        phase is Greeting || phase is Authenticating || phase is Pairing,
    ensures
        !(control_step(phase, event, limited).1 is Execute),
        !(control_step(phase, event, limited).1 is Stream),
        control_step(phase, event, limited).0 is Ready ==> phase is Authenticating && event is Authenticated,
        phase is Greeting && event is Connected && limited ==> control_step(phase, event, limited).0 is Closed,
{
}

/// A request is answered as it turned out: a request carried out is
/// answered `OK` with its answer, a failed one `ERR` with its message, never
/// `OK`; a stream that fails is answered `ERR` too; either way the
/// connection goes on reading requests and the failure record is left alone.
pub proof fn lemma_outcome_reported(p: PrincipalView, v: Seq<char>, e: Seq<char>, limited: bool)
    ensures
        control_step(PhaseView::Executing(p), EventView::Completed(Ok(v)), limited)
            == (PhaseView::Ready(p), ActionView::Reply("OK "@ + v + "\n"@), LimiterEffect::Keep),
        control_step(PhaseView::Executing(p), EventView::Completed(Err(e)), limited)
            == (PhaseView::Ready(p), ActionView::Reply("ERR "@ + e + "\n"@), LimiterEffect::Keep),
        control_step(PhaseView::Streaming(p), EventView::StreamEnded(Some(e)), limited)
            == (PhaseView::Ready(p), ActionView::Reply("ERR "@ + e + "\n"@), LimiterEffect::Keep),
        ({
            let reply = "ERR "@ + e + "\n"@;
            reply.len() >= 3 && reply[0] == 'E' && reply[1] == 'R' && reply[2] == 'R'
        }),
{
    reveal_strlit("ERR ");
    let reply = "ERR "@ + e + "\n"@;
    assert(reply[0] == 'E' && reply[1] == 'R' && reply[2] == 'R');
}

proof fn lemma_verb_keys()
    ensures
        literal_key("LIST"@) == (4nat, 'L', 'S'),
        literal_key("INFO"@) == (4nat, 'I', 'F'),
        literal_key("PING"@) == (4nat, 'P', 'N'),
        literal_key("QUIT"@) == (4nat, 'Q', 'I'),
        literal_key("REVOKE-DEVICE"@) == (13nat, 'R', 'V'),
        literal_key("VIDEO"@) == (5nat, 'V', 'D'),
        literal_key("AUDIO"@) == (5nat, 'A', 'D'),
        literal_key("INPUT-STREAM"@) == (12nat, 'I', 'P'),
        literal_key("PROVISION"@) == (9nat, 'P', 'O'),
        literal_key("DEVICES"@) == (7nat, 'D', 'V'),
        literal_key("REVOKE"@) == (6nat, 'R', 'V'),
        literal_key("STATUS"@) == (6nat, 'S', 'A'),
        literal_key("DETAILS"@) == (7nat, 'D', 'T'),
        literal_key("CAPTURE"@) == (7nat, 'C', 'P'),
        literal_key("MEDIA"@) == (5nat, 'M', 'D'),
        literal_key("AUDIO-STATUS"@) == (12nat, 'A', 'D'),
        literal_key("INPUT"@) == (5nat, 'I', 'P'),
        literal_key("START"@) == (5nat, 'S', 'A'),
        literal_key("RESTART"@) == (7nat, 'R', 'S'),
        literal_key("STOP"@) == (4nat, 'S', 'O'),
{
    reveal_strlit("LIST");
    reveal_strlit("INFO");
    reveal_strlit("PING");
    reveal_strlit("QUIT");
    reveal_strlit("REVOKE-DEVICE");
    reveal_strlit("VIDEO");
    reveal_strlit("AUDIO");
    reveal_strlit("INPUT-STREAM");
    reveal_strlit("PROVISION");
    reveal_strlit("DEVICES");
    reveal_strlit("REVOKE");
    reveal_strlit("STATUS");
    reveal_strlit("DETAILS");
    reveal_strlit("CAPTURE");
    reveal_strlit("MEDIA");
    reveal_strlit("AUDIO-STATUS");
    reveal_strlit("INPUT");
    reveal_strlit("START");
    reveal_strlit("RESTART");
    reveal_strlit("STOP");
}

/// Each request verb routes to its own kind: a desktop request by a
/// principal that may manage `id` goes to the kind its verb names, with
/// `id` as its desktop (`RESTART` restarts, `START` starts, `STOP` stops,
/// and so on); the administrator's requests likewise; and the verb of each
/// lifecycle or device-management kind, as audited, is the verb of the line.
pub proof fn lemma_verbs_route_to_their_kinds(p: PrincipalView, id: Seq<char>, device: Seq<char>)
    requires
        may_manage(p, id),
    ensures
        route_tokens(p, seq!["STATUS"@, id]) == (RouteKind::Status, Some(id), None::<Seq<char>>),
        route_tokens(p, seq!["DETAILS"@, id]) == (RouteKind::Details, Some(id), None::<Seq<char>>),
        route_tokens(p, seq!["CAPTURE"@, id]) == (RouteKind::Capture, Some(id), None::<Seq<char>>),
        route_tokens(p, seq!["MEDIA"@, id]) == (RouteKind::Media, Some(id), None::<Seq<char>>),
        route_tokens(p, seq!["AUDIO-STATUS"@, id]) == (RouteKind::AudioStatus, Some(id), None::<Seq<char>>),
        route_tokens(p, seq!["INPUT"@, id]) == (RouteKind::InputStatus, Some(id), None::<Seq<char>>),
        route_tokens(p, seq!["START"@, id]) == (RouteKind::Start, Some(id), None::<Seq<char>>),
        route_tokens(p, seq!["RESTART"@, id]) == (RouteKind::Restart, Some(id), None::<Seq<char>>),
        route_tokens(p, seq!["STOP"@, id]) == (RouteKind::Stop, Some(id), None::<Seq<char>>),
        route_tokens(p, seq!["VIDEO"@, id]) == (RouteKind::Video, Some(id), None::<Seq<char>>),
        route_tokens(p, seq!["AUDIO"@, id]) == (RouteKind::Audio, Some(id), None::<Seq<char>>),
        route_tokens(p, seq!["INPUT-STREAM"@, id]) == (RouteKind::InputStream, Some(id), None::<Seq<char>>),
        route_tokens(p, seq!["INFO"@]) == (RouteKind::Info, None::<Seq<char>>, None::<Seq<char>>),
        route_tokens(p, seq!["PING"@]) == (RouteKind::Ping, None::<Seq<char>>, None::<Seq<char>>),
        route_tokens(p, seq!["QUIT"@]) == (RouteKind::Quit, None::<Seq<char>>, None::<Seq<char>>),
        p is Admin ==> route_tokens(p, seq!["LIST"@]) == (RouteKind::List, None::<Seq<char>>, None::<Seq<char>>),
        p is Admin ==> route_tokens(p, seq!["PROVISION"@, id]) == (RouteKind::Provision, Some(id), None::<Seq<char>>),
        p is Admin ==> route_tokens(p, seq!["DEVICES"@, id]) == (RouteKind::Devices, Some(id), None::<Seq<char>>),
        p is Admin ==> route_tokens(p, seq!["REVOKE"@, id]) == (RouteKind::Revoke, Some(id), None::<Seq<char>>),
        p is Admin ==> route_tokens(p, seq!["REVOKE-DEVICE"@, id, device]) == (RouteKind::RevokeDevice, Some(id), Some(device)),
        audit_verb(RouteKind::Start, true) == Some("START"@),
        audit_verb(RouteKind::Restart, true) == Some("RESTART"@),
        audit_verb(RouteKind::Stop, true) == Some("STOP"@),
        audit_verb(RouteKind::Provision, true) == Some("PROVISION"@),
        audit_verb(RouteKind::Revoke, true) == Some("REVOKE"@),
        audit_verb(RouteKind::RevokeDevice, true) == Some("REVOKE-DEVICE"@),
{
    lemma_verb_keys();
}

/// How a connection is answered before it makes requests: a blocked origin
/// gets the banner, the prompt and `ERR rate-limited` and is closed; a
/// principal that authenticated gets `OK authenticated` and may make
/// requests, with its failures forgotten; a failed authentication gets
/// `ERR unauthorized` and a failed pairing `ERR pairing-failed`, each
/// closing the connection and counting as a failure; a redeemed pairing
/// gets the desktop and the new token and is closed.
pub proof fn lemma_connection_answers(p: PrincipalView, desktop: Seq<char>, token: Seq<char>)
    ensures
        control_step(PhaseView::Greeting, EventView::Connected, true)
            == (PhaseView::Closed, ActionView::ReplyAndClose(BANNER@ + "\n"@ + AUTH_PROMPT@ + "\n"@ + "ERR rate-limited\n"@), LimiterEffect::Check),
        control_step(PhaseView::Greeting, EventView::Connected, false)
            == (PhaseView::Greeting, ActionView::Reply(BANNER@ + "\n"@ + AUTH_PROMPT@ + "\n"@), LimiterEffect::Check),
        control_step(PhaseView::Authenticating, EventView::Authenticated(Some(p)), false)
            == (PhaseView::Ready(p), ActionView::Reply("OK authenticated\n"@), LimiterEffect::Clear),
        control_step(PhaseView::Authenticating, EventView::Authenticated(None), false)
            == (PhaseView::Closed, ActionView::ReplyAndClose("ERR unauthorized\n"@), LimiterEffect::RecordFailure),
        control_step(PhaseView::Pairing, EventView::Paired(None), false)
            == (PhaseView::Closed, ActionView::ReplyAndClose("ERR pairing-failed\n"@), LimiterEffect::RecordFailure),
        control_step(PhaseView::Pairing, EventView::Paired(Some((desktop, token))), false)
            == (PhaseView::Closed, ActionView::ReplyAndClose("OK paired desktop="@ + desktop + " token="@ + token + "\n"@),
            LimiterEffect::Clear),
{
}

} // verus!
