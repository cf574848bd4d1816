//! The decisions of the per-desktop agents: which PipeWire node to capture,
//! whether the private audio sink exists, which node the encoder reads, and
//! the status files they publish.
use crate::number::{decimal, parse_u64, parse_u64_spec, push_decimal};
use crate::pairing::has_prefix;
use crate::text::{
    chars_eq, slice_to_vec, chars_eq_str, chars_of, lines, push_str, split_lines, split_whitespace, string_from,
    strip_prefix, tokens,
};
use vstd::prelude::*;

verus! {

/// The name of the private virtual sink of a desktop's audio.
pub const SINK_NAME: &'static str = "multi_desktop_audio";

/// `value` without line breaks, so that it fits on one status line.
pub open spec fn sanitized(value: Seq<char>) -> Seq<char> {
    value.filter(|c: char| c != '\n' && c != '\r')
}

/// Removes the line breaks of `value`.
pub fn sanitize(value: &str) -> (r: String)
    ensures
        r@ == sanitized(value@),
{
    let chars = chars_of(value);
    let mut out: Vec<char> = Vec::new();
    let mut i: usize = 0;
    assert(chars@.take(0) =~= Seq::<char>::empty());
    while i < chars.len()
        invariant
            i <= chars@.len(),
            chars@ == value@,
            out@ == sanitized(chars@.take(i as int)),
        decreases chars@.len() - i,
    {
        let c = chars[i];
        proof {
            chars@.take(i as int).lemma_filter_push(c, |c: char| c != '\n' && c != '\r');
            assert(chars@.take(i + 1) =~= chars@.take(i as int).push(c));
        }
        if c != '\n' && c != '\r' {
            out.push(c);
        }
        i = i + 1;
    }
    assert(chars@.take(i as int) =~= chars@);
    string_from(out.as_slice())
}

/// Whether the `pactl list short sinks` output `sinks` lists the private
/// sink: a line whose second field is its name.
pub open spec fn sink_listed(sinks: Seq<char>) -> bool {
    exists|i: int| 0 <= i < lines(sinks).len() && #[trigger] tokens(lines(sinks)[i]).len() > 1
        && tokens(lines(sinks)[i])[1] == SINK_NAME@
}

/// Whether `sinks` lists the private sink.
pub fn has_private_sink(sinks: &str) -> (r: bool)
    ensures
        r == sink_listed(sinks@),
{
    let chars = chars_of(sinks);
    let ls = split_lines(chars.as_slice());
    let ghost lv = ls@.map_values(|t: Vec<char>| t@);
    let mut i: usize = 0;
    while i < ls.len()
        invariant
            i <= ls@.len(),
            lv == ls@.map_values(|t: Vec<char>| t@),
            lv == lines(sinks@),
            forall|k: int| 0 <= k < i ==> !(#[trigger] tokens(lv[k]).len() > 1 && tokens(lv[k])[1] == SINK_NAME@),
        decreases ls@.len() - i,
    {
        assert(lv[i as int] == ls@[i as int]@);
        let fields = split_whitespace(ls[i].as_slice());
        assert(fields@.map_values(|t: Vec<char>| t@) == tokens(lv[i as int]));
        if fields.len() > 1 {
            assert(fields@.map_values(|t: Vec<char>| t@)[1] == fields@[1]@);
            if chars_eq_str(fields[1].as_slice(), SINK_NAME) {
                return true;
            }
        }
        i = i + 1;
    }
    false
}

/// The first line of `ls` that is `node_id=` and a number, as that number.
pub open spec fn first_node_id(ls: Seq<Seq<char>>) -> Option<u64>
    decreases ls.len(),
{
    if ls.len() == 0 {
        None
    } else if has_prefix(ls[0], "node_id="@) && parse_u64_spec(ls[0].skip(8)) is Some {
        parse_u64_spec(ls[0].skip(8))
    } else {
        first_node_id(ls.drop_first())
    }
}

/// The node that a capture status names, when it says `state=ready`.
pub open spec fn ready_node_of(contents: Seq<char>) -> Option<u64> {
    if lines(contents).contains("state=ready"@) {
        first_node_id(lines(contents))
    } else {
        None
    }
}

/// The node to encode according to the capture status `contents`.
pub fn ready_node(contents: &str) -> (r: Option<u64>)
    ensures
        r == ready_node_of(contents@),
{
    let chars = chars_of(contents);
    let ls = split_lines(chars.as_slice());
    let ghost lv = ls@.map_values(|t: Vec<char>| t@);
    proof { reveal_strlit("node_id="); }
    let mut ready = false;
    let mut i: usize = 0;
    while i < ls.len()
        invariant
            i <= ls@.len(),
            lv == ls@.map_values(|t: Vec<char>| t@),
            lv == lines(contents@),
            ready == lv.take(i as int).contains("state=ready"@),
        decreases ls@.len() - i,
    {
        assert(lv[i as int] == ls@[i as int]@);
        assert(lv.take(i + 1) =~= lv.take(i as int).push(lv[i as int]));
        let hit = chars_eq_str(ls[i].as_slice(), "state=ready");
        proof {
            let t = lv.take(i as int);
            let u = lv.take(i + 1);
            if hit {
                assert(u[i as int] == "state=ready"@);
            }
            if t.contains("state=ready"@) {
                let k = choose|k: int| 0 <= k < t.len() && t[k] == "state=ready"@;
                assert(u[k] == t[k]);
            }
            if u.contains("state=ready"@) {
                let k = choose|k: int| 0 <= k < u.len() && u[k] == "state=ready"@;
                if k < i {
                    assert(t[k] == u[k]);
                }
            }
        }
        if hit {
            ready = true;
        }
        i = i + 1;
    }
    assert(lv.take(i as int) =~= lv);
    if !ready {
        return None;
    }
    let mut j: usize = 0;
    assert(lv.skip(0) =~= lv);
    while j < ls.len()
        invariant
            j <= ls@.len(),
            lv == ls@.map_values(|t: Vec<char>| t@),
            lv == lines(contents@),
            ready_node_of(contents@) == first_node_id(lv.skip(j as int)),
            "node_id="@.len() == 8,
        decreases ls@.len() - j,
    {
        assert(lv.skip(j as int)[0] == ls@[j as int]@);
        assert(lv.skip(j as int).drop_first() =~= lv.skip(j + 1));
        match strip_prefix(ls[j].as_slice(), "node_id=") {
            Some(rest) => {
                match parse_u64(rest.as_slice()) {
                    Some(v) => {
                        return Some(v);
                    },
                    None => {},
                }
            },
            None => {},
        }
        j = j + 1;
    }
    assert(lv.skip(j as int) =~= Seq::<Seq<char>>::empty());
    None
}

/// What a capture agent knows of one PipeWire object: its type, its id,
/// and, when it has a `info.props` object, the node name and media class
/// found there, each when it is a string (the id when it is an unsigned
/// integer).
#[derive(Clone, Debug)]
pub struct PipeWireObject {
    pub object_type: Option<String>,
    pub id: Option<u64>,
    pub props: Option<NodeProps>,
}

/// The properties of a PipeWire object that identify a capture node.
#[derive(Clone, Debug)]
pub struct NodeProps {
    pub node_name: Option<String>,
    pub media_class: Option<String>,
}

/// A PipeWire object as plain values.
pub struct ObjectView {
    pub object_type: Option<Seq<char>>,
    pub id: Option<u64>,
    pub props: Option<(Option<Seq<char>>, Option<Seq<char>>)>,
}

impl View for PipeWireObject {
    type V = ObjectView;

    open spec fn view(&self) -> ObjectView {
        ObjectView {
            object_type: self.object_type.deep_view(),
            id: self.id,
            props: match &self.props {
                Some(p) => Some((p.node_name.deep_view(), p.media_class.deep_view())),
                None => None,
            },
        }
    }
}

/// `c` with ASCII capitals made small (`char::to_ascii_lowercase`).
pub open spec fn ascii_lower(c: char) -> char {
    if 'A' <= c && c <= 'Z' {
        ((c as int) + 32) as char
    } else {
        c
    }
}

/// `s` with ASCII capitals made small.
pub open spec fn lowercase(s: Seq<char>) -> Seq<char> {
    s.map_values(|c: char| ascii_lower(c))
}

/// Whether `needle` occurs in `hay`.
pub open spec fn contains_text(hay: Seq<char>, needle: Seq<char>) -> bool {
    exists|i: int| 0 <= i && i + needle.len() <= hay.len() && #[trigger] hay.subrange(i, i + needle.len()) == needle
}

/// The capture node an object names: a PipeWire node whose lowercased node
/// name contains `gamescope` and whose lowercased media class contains
/// `video`, when it has an id.
pub open spec fn capture_node(o: ObjectView) -> Option<u64> {
    match o.props {
        None => None,
        Some((name, class)) => match name {
            None => None,
            Some(n) => {
                let media = match class { Some(c) => c, None => Seq::empty() };
                if o.object_type == Some("PipeWire:Interface:Node"@) && contains_text(lowercase(n), "gamescope"@)
                    && contains_text(lowercase(media), "video"@) {
                    o.id
                } else {
                    None
                }
            },
        },
    }
}

/// The first capture node among `objects`.
pub open spec fn first_capture_node(objects: Seq<ObjectView>) -> Option<u64>
    decreases objects.len(),
{
    if objects.len() == 0 {
        None
    } else if capture_node(objects[0]) is Some {
        capture_node(objects[0])
    } else {
        first_capture_node(objects.drop_first())
    }
}

fn lowercase_chars(s: &str) -> (r: Vec<char>)
    ensures
        r@ == lowercase(s@),
{
    let chars = chars_of(s);
    let mut out: Vec<char> = Vec::new();
    let mut i: usize = 0;
    while i < chars.len()
        invariant
            i <= chars@.len(),
            chars@ == s@,
            out@ == lowercase(chars@.take(i as int)),
        decreases chars@.len() - i,
    {
        let c = chars[i];
        let l = if 'A' <= c && c <= 'Z' { ((c as u32) + 32) as u8 as char } else { c };
        assert(l == ascii_lower(c));
        out.push(l);
        i = i + 1;
        assert(out@ =~= lowercase(chars@.take(i as int)));
    }
    assert(chars@.take(i as int) =~= chars@);
    out
}

fn contains_chars(hay: &[char], needle: &str) -> (r: bool)
    ensures
        r == contains_text(hay@, needle@),
{
    let n = chars_of(needle);
    if n.len() > hay.len() {
        return false;
    }
    let nl = n.len();
    let last = hay.len() - nl;
    let mut i: usize = 0;
    loop
        invariant
            hay@.len() <= usize::MAX,
            nl == n@.len(),
            n@ == needle@,
            n@.len() <= hay@.len(),
            last == hay@.len() - n@.len(),
            i <= last,
            forall|k: int| 0 <= k < i ==> #[trigger] hay@.subrange(k, k + n@.len()) != n@,
        decreases last - i,
    {
        let window = slice_to_vec(hay, i, i + nl);
        if chars_eq(window.as_slice(), n.as_slice()) {
            return true;
        }
        if i == last {
            assert forall|k: int| 0 <= k && k + needle@.len() <= hay@.len() implies #[trigger] hay@.subrange(k, k + needle@.len()) != needle@ by {
                assert(k <= last);
            }
            return false;
        }
        i = i + 1;
    }
}

/// The capture node that `object` names, if any.
fn capture_node_of(object: &PipeWireObject) -> (r: Option<u64>)
    ensures
        r == capture_node(object@),
{
    match &object.props {
        None => None,
        Some(props) => match &props.node_name {
            None => None,
            Some(name) => {
                let is_node = match &object.object_type {
                    Some(t) => {
                        let tc = chars_of(t.as_str());
                        chars_eq_str(tc.as_slice(), "PipeWire:Interface:Node")
                    },
                    None => false,
                };
                let lname = lowercase_chars(name.as_str());
                let lclass = match &props.media_class {
                    Some(c) => lowercase_chars(c.as_str()),
                    None => {
                        let v: Vec<char> = Vec::new();
                        assert(v@ =~= lowercase(Seq::<char>::empty()));
                        v
                    },
                };
                if is_node && contains_chars(lname.as_slice(), "gamescope") && contains_chars(lclass.as_slice(), "video") {
                    object.id
                } else {
                    None
                }
            },
        },
    }
}

/// The id of the first object that is the desktop's Gamescope video node.
pub fn find_gamescope_node(objects: &[PipeWireObject]) -> (r: Option<u64>)
    ensures
        r == first_capture_node(objects@.map_values(|o: PipeWireObject| o@)),
{
    let ghost os = objects@.map_values(|o: PipeWireObject| o@);
    let mut i: usize = 0;
    assert(os.skip(0) =~= os);
    while i < objects.len()
        invariant
            i <= objects@.len(),
            os == objects@.map_values(|o: PipeWireObject| o@),
            first_capture_node(os) == first_capture_node(os.skip(i as int)),
        decreases objects@.len() - i,
    {
        assert(os.skip(i as int)[0] == objects@[i as int]@);
        assert(os.skip(i as int).drop_first() =~= os.skip(i + 1));
        let found = capture_node_of(&objects[i]);
        if found.is_some() {
            return found;
        }
        i = i + 1;
    }
    assert(os.skip(i as int) =~= Seq::<ObjectView>::empty());
    None
}

/// The objects of a `pw-dump` output, each as plain values, or `None` when
/// the output is not a JSON array of values.
pub uninterp spec fn pw_dump_objects(dump: Seq<u8>) -> Option<Seq<ObjectView>>;

/// Calls `serde_json::from_slice` on `dump` as an array of JSON values and
/// picks from each value the fields `PipeWireObject` holds. Claimed: the
/// outcome depends on `dump` alone, and is named.
#[verifier::external_body]
fn parse_pw_dump(dump: &[u8]) -> (r: Option<Vec<PipeWireObject>>)
    ensures
        r is None <==> pw_dump_objects(dump@) is None,
        r matches Some(v) ==> pw_dump_objects(dump@) == Some(v@.map_values(|o: PipeWireObject| o@)),
{
    let text = |v: Option<&serde_json::Value>| v.and_then(|v| v.as_str()).map(|s| s.to_string());
    let objects: Vec<serde_json::Value> = serde_json::from_slice(dump).ok()?;
    Some(objects.iter().map(|o| PipeWireObject {
        object_type: text(o.get("type")),
        id: o.get("id").and_then(|v| v.as_u64()),
        props: o.pointer("/info/props").and_then(|p| p.as_object()).map(|p| NodeProps {
            node_name: text(p.get("node.name")),
            media_class: text(p.get("media.class")),
        }),
    }).collect())
}

/// Why a `pw-dump` output was refused.
#[derive(Clone, Copy, Debug, PartialEq, Eq, Structural)]
pub enum AgentError {
    /// The output is not a JSON array.
    InvalidDump,
}

impl AgentError {
    /// The text of the refusal.
    pub fn message(&self) -> (m: String)
        ensures
            m@ == "pw-dump returned invalid JSON"@,
    {
        "pw-dump returned invalid JSON".to_string()
    }
}

/// The desktop's Gamescope video node named in a `pw-dump` output: the
/// first capture node among its objects, or a refusal when the output is
/// not a JSON array.
pub fn gamescope_node_from_dump(dump: &[u8]) -> (r: Result<Option<u64>, AgentError>)
    ensures
        match pw_dump_objects(dump@) {
            None => r == Err::<Option<u64>, AgentError>(AgentError::InvalidDump),
            Some(os) => r == Ok::<Option<u64>, AgentError>(first_capture_node(os)),
        },
{
    match parse_pw_dump(dump) {
        None => Err(AgentError::InvalidDump),
        Some(objects) => Ok(find_gamescope_node(objects.as_slice())),
    }
}

/// The status a capture agent publishes after a discovery: the node when
/// one was found, waiting when none was, or the error on one line.
pub open spec fn capture_status_text(found: Result<Option<u64>, Seq<char>>) -> Seq<char> {
    match found {
        Ok(Some(id)) => "state=ready\nnode_id="@ + decimal(id as nat) + "\n"@,
        Ok(None) => "state=waiting\n"@,
        Err(e) => "state=error\nreason="@ + sanitized(e) + "\n"@,
    }
}

/// The capture status for a discovery result.
pub fn capture_status(found: Result<Option<u64>, String>) -> (r: String)
    ensures
        r@ == capture_status_text(match found {
            Ok(x) => Ok(x),
            Err(e) => Err(e@),
        }),
{
    let mut v: Vec<char> = Vec::new();
    match found {
        Ok(Some(id)) => {
            push_str(&mut v, "state=ready\nnode_id=");
            push_decimal(id, &mut v);
            push_str(&mut v, "\n");
        },
        Ok(None) => {
            push_str(&mut v, "state=waiting\n");
        },
        Err(e) => {
            push_str(&mut v, "state=error\nreason=");
            let s = sanitize(e.as_str());
            push_str(&mut v, s.as_str());
            push_str(&mut v, "\n");
        },
    }
    string_from(v.as_slice())
}

/// A status line pair naming the video encoder's state and node.
pub open spec fn encoder_status_text(state: Seq<char>, node: u64) -> Seq<char> {
    "state="@ + state + "\nnode_id="@ + decimal(node as nat) + "\ncodec=h264\nrelay=private-unix\n"@
}

/// The media agent's status while it encodes or streams node `node`
/// (`state` is `encoding` or `streaming`).
pub fn encoder_status(state: &str, node: u64) -> (r: String)
    ensures
        r@ == encoder_status_text(state@, node),
{
    let mut v: Vec<char> = Vec::new();
    push_str(&mut v, "state=");
    push_str(&mut v, state);
    push_str(&mut v, "\nnode_id=");
    push_decimal(node, &mut v);
    push_str(&mut v, "\ncodec=h264\nrelay=private-unix\n");
    string_from(v.as_slice())
}

/// A signed number in decimal.
pub open spec fn signed_decimal(x: int) -> Seq<char> {
    if x < 0 {
        seq!['-'] + decimal((-x) as nat)
    } else {
        decimal(x as nat)
    }
}

/// The status after an encoder exits: its exit code, or -1 when it has none.
pub open spec fn exit_status_text(code: Option<i32>) -> Seq<char> {
    "state=encoder-exited\nexit_code="@ + signed_decimal(match code { Some(c) => c as int, None => -1 }) + "\n"@
}

/// The status after an encoder exits.
pub fn exit_status(code: Option<i32>) -> (r: String)
    ensures
        r@ == exit_status_text(code),
{
    let c: i32 = match code {
        Some(c) => c,
        None => -1,
    };
    let mut v: Vec<char> = Vec::new();
    push_str(&mut v, "state=encoder-exited\nexit_code=");
    if c < 0 {
        v.push('-');
        let magnitude: u64 = (-(c as i64)) as u64;
        push_decimal(magnitude, &mut v);
    } else {
        push_decimal(c as u64, &mut v);
    }
    push_str(&mut v, "\n");
    string_from(v.as_slice())
}

/// A status of a state and a one-line reason.
pub open spec fn reason_status_text(state: Seq<char>, reason: Seq<char>) -> Seq<char> {
    "state="@ + state + "\nreason="@ + sanitized(reason) + "\n"@
}

/// A status of `state` with `reason` on one line (`waiting-for-sink`,
/// `relay-ended`).
pub fn reason_status(state: &str, reason: &str) -> (r: String)
    ensures
        r@ == reason_status_text(state@, reason@),
{
    let mut v: Vec<char> = Vec::new();
    push_str(&mut v, "state=");
    push_str(&mut v, state);
    push_str(&mut v, "\nreason=");
    let s = sanitize(reason);
    push_str(&mut v, s.as_str());
    push_str(&mut v, "\n");
    string_from(v.as_slice())
}

} // verus!
