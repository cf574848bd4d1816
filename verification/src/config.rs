//! Daemon configuration: a `key=value` text file with `#` comments.
use crate::text::{
    chars_eq_str, chars_of, find_char, lemma_find_char, lemma_skip_ws_back, lines, lines_from, skip_ws,
    skip_ws_back, split_lines, split_once, split_once_chars, strip_line_end, string_from, trim, trim_chars,
};
use vstd::prelude::*;

verus! {

/// The default Linux user-name prefix of desktop users.
pub const DEFAULT_USER_PREFIX: &'static str = "mdesk-";

/// The default desktop command: a headless Gamescope running XFCE.
pub const DEFAULT_DESKTOP_COMMAND: &'static str = "gamescope --backend headless --expose-wayland -W 1920 -H 1080 -r 60 -- startxfce4";

/// Characters allowed in identifiers: ASCII letters, digits and `-`.
pub open spec fn is_ident_char(c: char) -> bool {
    ('a' <= c && c <= 'z') || ('A' <= c && c <= 'Z') || ('0' <= c && c <= '9') || c == '-'
}

/// A desktop id or user-name part: 1 to 24 ASCII letters, digits or hyphens.
pub open spec fn is_identifier(v: Seq<char>) -> bool {
    &&& v.len() > 0
    &&& v.len() <= 24
    &&& forall|i: int| 0 <= i < v.len() ==> is_ident_char(#[trigger] v[i])
}

/// Whether `value` is 1 to 24 ASCII letters, digits or hyphens.
pub fn valid_identifier(value: &str) -> (r: bool)
    ensures
        r == is_identifier(value@),
{
    let v = chars_of(value);
    valid_identifier_chars(v.as_slice())
}

/// Whether `v` is 1 to 24 ASCII letters, digits or hyphens.
pub fn valid_identifier_chars(v: &[char]) -> (r: bool)
    ensures
        r == is_identifier(v@),
{
    if v.len() == 0 || v.len() > 24 {
        return false;
    }
    let mut i: usize = 0;
    while i < v.len()
        invariant
            i <= v@.len(),
            forall|k: int| 0 <= k < i ==> is_ident_char(#[trigger] v@[k]),
        decreases v@.len() - i,
    {
        let c = v[i];
        if !(('a' <= c && c <= 'z') || ('A' <= c && c <= 'Z') || ('0' <= c && c <= '9') || c == '-') {
            return false;
        }
        i = i + 1;
    }
    true
}

/// Validated daemon configuration.
#[derive(Clone, Debug)]
pub struct Config {
    pub listen: String,
    pub token: String,
    pub user_prefix: String,
    pub desktop_command: String,
    pub tls_certificate: Option<String>,
    pub tls_private_key: Option<String>,
}

/// Why a configuration is refused.
#[derive(Clone, Debug)]
pub enum ConfigError {
    /// A non-empty, non-comment line without `=`.
    InvalidLine(String),
    /// A key that the daemon does not know.
    UnknownKey(String),
    /// A required key that is absent or empty.
    Missing(String),
    /// A token shorter than 32 bytes.
    ShortToken,
    /// A user prefix that is not letters, digits or hyphens.
    InvalidUserPrefix,
    /// A listen value that is not an IP address and port.
    InvalidListen,
    /// A non-loopback listen address without a TLS certificate and key.
    TlsRequired,
    /// An empty desktop command.
    EmptyDesktopCommand,
}

pub enum ConfigErrorView {
    InvalidLine(Seq<char>),
    UnknownKey(Seq<char>),
    Missing(Seq<char>),
    ShortToken,
    InvalidUserPrefix,
    InvalidListen,
    TlsRequired,
    EmptyDesktopCommand,
}

impl View for ConfigError {
    type V = ConfigErrorView;

    open spec fn view(&self) -> ConfigErrorView {
        match self {
            ConfigError::InvalidLine(l) => ConfigErrorView::InvalidLine(l@),
            ConfigError::UnknownKey(k) => ConfigErrorView::UnknownKey(k@),
            ConfigError::Missing(k) => ConfigErrorView::Missing(k@),
            ConfigError::ShortToken => ConfigErrorView::ShortToken,
            ConfigError::InvalidUserPrefix => ConfigErrorView::InvalidUserPrefix,
            ConfigError::InvalidListen => ConfigErrorView::InvalidListen,
            ConfigError::TlsRequired => ConfigErrorView::TlsRequired,
            ConfigError::EmptyDesktopCommand => ConfigErrorView::EmptyDesktopCommand,
        }
    }
}

/// The text of each refusal.
pub open spec fn config_error_text(e: ConfigErrorView) -> Seq<char> {
    match e {
        ConfigErrorView::InvalidLine(l) => "invalid line: "@ + l,
        ConfigErrorView::UnknownKey(k) => "unknown configuration key: "@ + k,
        ConfigErrorView::Missing(k) => "missing "@ + k,
        ConfigErrorView::ShortToken => "token must be at least 32 characters"@,
        ConfigErrorView::InvalidUserPrefix => "user_prefix must be ASCII letters, digits or hyphens"@,
        ConfigErrorView::InvalidListen => "listen must be an IP address and port, for example 192.168.1.10:47990"@,
        ConfigErrorView::TlsRequired => "a non-loopback listen address requires tls_certificate and tls_private_key"@,
        ConfigErrorView::EmptyDesktopCommand => "desktop_command cannot be empty"@,
    }
}

impl ConfigError {
    /// The human-readable message of this error.
    pub fn message(&self) -> (m: String)
        ensures
            m@ == config_error_text(self@),
    {
        match self {
            ConfigError::InvalidLine(l) => crate::protocol::concat("invalid line: ", l.as_str()),
            ConfigError::UnknownKey(k) => crate::protocol::concat("unknown configuration key: ", k.as_str()),
            ConfigError::Missing(k) => crate::protocol::concat("missing ", k.as_str()),
            ConfigError::ShortToken => "token must be at least 32 characters".to_owned(),
            ConfigError::InvalidUserPrefix => "user_prefix must be ASCII letters, digits or hyphens".to_owned(),
            ConfigError::InvalidListen => "listen must be an IP address and port, for example 192.168.1.10:47990".to_owned(),
            ConfigError::TlsRequired => "a non-loopback listen address requires tls_certificate and tls_private_key".to_owned(),
            ConfigError::EmptyDesktopCommand => "desktop_command cannot be empty".to_owned(),
        }
    }
}

pub struct ConfigView {
    pub listen: Seq<char>,
    pub token: Seq<char>,
    pub user_prefix: Seq<char>,
    pub desktop_command: Seq<char>,
    pub tls_certificate: Option<Seq<char>>,
    pub tls_private_key: Option<Seq<char>>,
}

impl View for Config {
    type V = ConfigView;

    open spec fn view(&self) -> ConfigView {
        ConfigView {
            listen: self.listen@,
            token: self.token@,
            user_prefix: self.user_prefix@,
            desktop_command: self.desktop_command@,
            tls_certificate: self.tls_certificate.deep_view(),
            tls_private_key: self.tls_private_key.deep_view(),
        }
    }
}

/// The `key=value` entries of the configuration lines `ls`, keys and values
/// trimmed, in order; blank lines and `#` comments are skipped, and the first
/// other line without `=` is refused.
pub open spec fn config_entries(ls: Seq<Seq<char>>) -> Result<Seq<(Seq<char>, Seq<char>)>, ConfigErrorView>
    decreases ls.len(),
{
    if ls.len() == 0 {
        Ok(Seq::empty())
    } else {
        match config_entries(ls.drop_last()) {
            Err(e) => Err(e),
            Ok(es) => {
                let t = trim(ls.last());
                if t.len() == 0 || t[0] == '#' {
                    Ok(es)
                } else {
                    match split_once(t, '=') {
                        None => Err(ConfigErrorView::InvalidLine(t)),
                        Some((k, v)) => Ok(es.push((trim(k), trim(v)))),
                    }
                }
            },
        }
    }
}

/// The keys the daemon knows.
pub open spec fn known_key(k: Seq<char>) -> bool {
    k == "listen"@ || k == "token"@ || k == "user_prefix"@ || k == "desktop_command"@
        || k == "tls_certificate"@ || k == "tls_private_key"@
}

/// The first key in `es` that the daemon does not know.
pub open spec fn first_unknown(es: Seq<(Seq<char>, Seq<char>)>) -> Option<Seq<char>>
    decreases es.len(),
{
    if es.len() == 0 {
        None
    } else {
        match first_unknown(es.drop_last()) {
            Some(k) => Some(k),
            None => if known_key(es.last().0) {
                None
            } else {
                Some(es.last().0)
            },
        }
    }
}

/// The value of the last entry for `key` (a later entry overrides an earlier one).
pub open spec fn lookup(es: Seq<(Seq<char>, Seq<char>)>, key: Seq<char>) -> Option<Seq<char>>
    decreases es.len(),
{
    if es.len() == 0 {
        None
    } else if es.last().0 == key {
        Some(es.last().1)
    } else {
        lookup(es.drop_last(), key)
    }
}

/// A present, non-empty value.
pub open spec fn non_empty(v: Option<Seq<char>>) -> Option<Seq<char>> {
    match v {
        Some(s) => if s.len() > 0 {
            Some(s)
        } else {
            None
        },
        None => None,
    }
}

/// `s` without trailing hyphens.
pub open spec fn trim_end_dashes(s: Seq<char>) -> Seq<char>
    decreases s.len(),
{
    if s.len() > 0 && s.last() == '-' {
        trim_end_dashes(s.drop_last())
    } else {
        s
    }
}

/// The listen value a configuration would check: the last `listen` entry, if
/// the lines parse into entries.
pub open spec fn listen_value(contents: Seq<char>) -> Option<Seq<char>> {
    match config_entries(lines(contents)) {
        Ok(es) => lookup(es, "listen"@),
        Err(_) => None,
    }
}

/// The configuration described by `contents`. `listen_address` says whether
/// the listen value is an IP address and port (`None` if not) and, if so,
/// whether it is a loopback address.
pub open spec fn parse_config(contents: Seq<char>, listen_address: Option<bool>) -> Result<ConfigView, ConfigErrorView> {
    match config_entries(lines(contents)) {
        Err(e) => Err(e),
        Ok(es) => {
            if first_unknown(es) is Some {
                Err(ConfigErrorView::UnknownKey(first_unknown(es)->0))
            } else if non_empty(lookup(es, "token"@)) is None {
                Err(ConfigErrorView::Missing("token"@))
            } else if vstd::utf8::encode_utf8(non_empty(lookup(es, "token"@))->0).len() < 32 {
                Err(ConfigErrorView::ShortToken)
            } else {
                let token = non_empty(lookup(es, "token"@))->0;
                let user_prefix = match lookup(es, "user_prefix"@) {
                    Some(p) => p,
                    None => DEFAULT_USER_PREFIX@,
                };
                if !is_identifier(trim_end_dashes(user_prefix)) {
                    Err(ConfigErrorView::InvalidUserPrefix)
                } else if non_empty(lookup(es, "listen"@)) is None {
                    Err(ConfigErrorView::Missing("listen"@))
                } else if listen_address is None {
                    Err(ConfigErrorView::InvalidListen)
                } else {
                    let listen = non_empty(lookup(es, "listen"@))->0;
                    let desktop_command = match lookup(es, "desktop_command"@) {
                        Some(c) => c,
                        None => DEFAULT_DESKTOP_COMMAND@,
                    };
                    let tls_certificate = non_empty(lookup(es, "tls_certificate"@));
                    let tls_private_key = non_empty(lookup(es, "tls_private_key"@));
                    if desktop_command.len() == 0 {
                        Err(ConfigErrorView::EmptyDesktopCommand)
                    } else if !listen_address->0 && (tls_certificate is None || tls_private_key is None) {
                        Err(ConfigErrorView::TlsRequired)
                    } else {
                        Ok(ConfigView { listen, token, user_prefix, desktop_command, tls_certificate, tls_private_key })
                    }
                }
            }
        },
    }
}

proof fn lemma_entries_error_persists(lv: Seq<Seq<char>>, i: int, j: int)
    requires
        0 <= i <= j <= lv.len(),
        config_entries(lv.take(i)) is Err,
    ensures
        config_entries(lv.take(j)) == config_entries(lv.take(i)),
    decreases j - i,
{
    if j > i {
        lemma_entries_error_persists(lv, i, j - 1);
        assert(lv.take(j).drop_last() =~= lv.take(j - 1));
    }
}

proof fn lemma_unknown_persists(ev: Seq<(Seq<char>, Seq<char>)>, i: int, j: int)
    requires
        0 <= i <= j <= ev.len(),
        first_unknown(ev.take(i)) is Some,
    ensures
        first_unknown(ev.take(j)) == first_unknown(ev.take(i)),
    decreases j - i,
{
    if j > i {
        lemma_unknown_persists(ev, i, j - 1);
        assert(ev.take(j).drop_last() =~= ev.take(j - 1));
    }
}

/// Entries of `ls` as pairs of character vectors.
fn entries_of(ls: &Vec<Vec<char>>) -> (r: Result<Vec<(Vec<char>, Vec<char>)>, ConfigError>)
    ensures
        match config_entries(ls@.map_values(|t: Vec<char>| t@)) {
            Ok(es) => r matches Ok(v) && v@.map_values(|e: (Vec<char>, Vec<char>)| (e.0@, e.1@)) == es,
            Err(e) => r matches Err(x) && x@ == e,
        },
{
    let ghost lv = ls@.map_values(|t: Vec<char>| t@);
    let mut es: Vec<(Vec<char>, Vec<char>)> = Vec::new();
    let mut i: usize = 0;
    assert(lv.take(0) =~= Seq::<Seq<char>>::empty());
    assert(es@.map_values(|e: (Vec<char>, Vec<char>)| (e.0@, e.1@)) =~= Seq::<(Seq<char>, Seq<char>)>::empty());
    while i < ls.len()
        invariant
            i <= ls@.len(),
            lv == ls@.map_values(|t: Vec<char>| t@),
            config_entries(lv.take(i as int)) == Ok::<Seq<(Seq<char>, Seq<char>)>, ConfigErrorView>(
                es@.map_values(|e: (Vec<char>, Vec<char>)| (e.0@, e.1@)),
            ),
        decreases ls@.len() - i,
    {
        let ghost before = es@.map_values(|e: (Vec<char>, Vec<char>)| (e.0@, e.1@));
        assert(lv.take(i + 1).drop_last() =~= lv.take(i as int));
        assert(lv.take(i + 1).last() == ls@[i as int]@);
        let t = trim_chars(ls[i].as_slice());
        if t.len() == 0 || t[0] == '#' {
            i = i + 1;
        } else {
            match split_once_chars(t.as_slice(), '=') {
                None => {
                    proof {
                        lemma_entries_error_persists(lv, i + 1, lv.len() as int);
                        assert(lv.take(lv.len() as int) =~= lv);
                    }
                    return Err(ConfigError::InvalidLine(string_from(t.as_slice())));
                },
                Some((k, v)) => {
                    let kt = trim_chars(k.as_slice());
                    let vt = trim_chars(v.as_slice());
                    es.push((kt, vt));
                    assert(es@.map_values(|e: (Vec<char>, Vec<char>)| (e.0@, e.1@)) =~= before.push((trim(k@), trim(v@))));
                    i = i + 1;
                },
            }
        }
    }
    assert(lv.take(ls@.len() as int) =~= lv);
    Ok(es)
}

/// The value of the last entry for `key`.
fn lookup_exec<'a>(es: &'a Vec<(Vec<char>, Vec<char>)>, key: &str) -> (r: Option<&'a Vec<char>>)
    ensures
        match lookup(es@.map_values(|e: (Vec<char>, Vec<char>)| (e.0@, e.1@)), key@) {
            Some(v) => r matches Some(x) && x@ == v,
            None => r is None,
        },
{
    let ghost ev = es@.map_values(|e: (Vec<char>, Vec<char>)| (e.0@, e.1@));
    let mut i = es.len();
    assert(ev.take(ev.len() as int) =~= ev);
    while i > 0
        invariant
            i <= es@.len(),
            ev == es@.map_values(|e: (Vec<char>, Vec<char>)| (e.0@, e.1@)),
            lookup(ev, key@) == lookup(ev.take(i as int), key@),
        decreases i,
    {
        assert(ev.take(i as int).drop_last() =~= ev.take(i - 1));
        assert(ev.take(i as int).last() == ev[i - 1]);
        if chars_eq_str(es[i - 1].0.as_slice(), key) {
            return Some(&es[i - 1].1);
        }
        i = i - 1;
    }
    None
}

fn is_known_key(k: &[char]) -> (r: bool)
    ensures
        r == known_key(k@),
{
    chars_eq_str(k, "listen") || chars_eq_str(k, "token") || chars_eq_str(k, "user_prefix")
        || chars_eq_str(k, "desktop_command") || chars_eq_str(k, "tls_certificate")
        || chars_eq_str(k, "tls_private_key")
}

fn first_unknown_exec(es: &Vec<(Vec<char>, Vec<char>)>) -> (r: Option<String>)
    ensures
        r.deep_view() == first_unknown(es@.map_values(|e: (Vec<char>, Vec<char>)| (e.0@, e.1@))),
{
    let ghost ev = es@.map_values(|e: (Vec<char>, Vec<char>)| (e.0@, e.1@));
    let mut i: usize = 0;
    while i < es.len()
        invariant
            i <= es@.len(),
            ev == es@.map_values(|e: (Vec<char>, Vec<char>)| (e.0@, e.1@)),
            first_unknown(ev.take(i as int)) is None,
        decreases es@.len() - i,
    {
        assert(ev.take(i + 1).drop_last() =~= ev.take(i as int));
        assert(ev.take(i + 1).last() == ev[i as int]);
        if !is_known_key(es[i].0.as_slice()) {
            proof {
                lemma_unknown_persists(ev, i + 1, ev.len() as int);
                assert(ev.take(ev.len() as int) =~= ev);
            }
            return Some(string_from(es[i].0.as_slice()));
        }
        i = i + 1;
    }
    assert(ev.take(es@.len() as int) =~= ev);
    None
}

fn trim_end_dashes_exec(v: &[char]) -> (r: Vec<char>)
    ensures
        r@ == trim_end_dashes(v@),
{
    let mut e = v.len();
    assert(v@.take(v@.len() as int) =~= v@);
    while e > 0 && v[e - 1] == '-'
        invariant
            e <= v@.len(),
            trim_end_dashes(v@) == trim_end_dashes(v@.take(e as int)),
        decreases e,
    {
        assert(v@.take(e as int).drop_last() =~= v@.take(e - 1));
        e = e - 1;
    }
    assert(v@.take(v@.len() as int) =~= v@);
    crate::text::slice_to_vec(v, 0, e)
}

fn non_empty_string(v: Option<&Vec<char>>) -> (r: Option<String>)
    ensures
        r.deep_view() == non_empty(match v { Some(x) => Some(x@), None => None }),
{
    match v {
        Some(x) => if x.len() > 0 {
            Some(string_from(x.as_slice()))
        } else {
            None
        },
        None => None,
    }
}

impl Config {
    /// The listen value that [`Config::parse`] will check, so that the caller
    /// can test it as a socket address first.
    pub fn listen_entry(contents: &str) -> (r: Option<String>)
        ensures
            r.deep_view() == listen_value(contents@),
    {
        let chars = chars_of(contents);
        let ls = split_lines(chars.as_slice());
        match entries_of(&ls) {
            Ok(es) => match lookup_exec(&es, "listen") {
                Some(v) => Some(string_from(v.as_slice())),
                None => None,
            },
            Err(_) => None,
        }
    }

    /// Parses and validates a configuration. `listen_address` is the verdict on
    /// the listen value (see [`Config::listen_entry`]): `None` if it is not an IP
    /// address and port, else whether it is a loopback address.
    pub fn parse(contents: &str, listen_address: Option<bool>) -> (r: Result<Config, ConfigError>)
        ensures
            match parse_config(contents@, listen_address) {
                Ok(c) => r matches Ok(x) && x@ == c,
                Err(e) => r matches Err(x) && x@ == e,
            },
    {
        let chars = chars_of(contents);
        let ls = split_lines(chars.as_slice());
        let es = match entries_of(&ls) {
            Ok(es) => es,
            Err(e) => return Err(e),
        };
        if let Some(k) = first_unknown_exec(&es) {
            return Err(ConfigError::UnknownKey(k));
        }
        let token = match non_empty_string(lookup_exec(&es, "token")) {
            Some(t) => t,
            None => return Err(ConfigError::Missing("token".to_owned())),
        };
        if token.as_str().as_bytes().len() < 32 {
            return Err(ConfigError::ShortToken);
        }
        let user_prefix = match lookup_exec(&es, "user_prefix") {
            Some(p) => string_from(p.as_slice()),
            None => DEFAULT_USER_PREFIX.to_owned(),
        };
        let prefix_chars = chars_of(user_prefix.as_str());
        let trimmed = trim_end_dashes_exec(prefix_chars.as_slice());
        if !valid_identifier_chars(trimmed.as_slice()) {
            return Err(ConfigError::InvalidUserPrefix);
        }
        let listen = match non_empty_string(lookup_exec(&es, "listen")) {
            Some(l) => l,
            None => return Err(ConfigError::Missing("listen".to_owned())),
        };
        let loopback = match listen_address {
            Some(l) => l,
            None => return Err(ConfigError::InvalidListen),
        };
        let desktop_command = match lookup_exec(&es, "desktop_command") {
            Some(c) => string_from(c.as_slice()),
            None => DEFAULT_DESKTOP_COMMAND.to_owned(),
        };
        let tls_certificate = non_empty_string(lookup_exec(&es, "tls_certificate"));
        let tls_private_key = non_empty_string(lookup_exec(&es, "tls_private_key"));
        if desktop_command.as_str().is_empty() {
            return Err(ConfigError::EmptyDesktopCommand);
        }
        if !loopback && (tls_certificate.is_none() || tls_private_key.is_none()) {
            return Err(ConfigError::TlsRequired);
        }
        Ok(Config { listen, token, user_prefix, desktop_command, tls_certificate, tls_private_key })
    }
}

proof fn lemma_find_char_shift(p: Seq<char>, s: Seq<char>, c: char, i: int)
    requires
        0 <= i <= s.len(),
    ensures
        find_char(p + s, c, p.len() + i) == p.len() + find_char(s, c, i),
    decreases s.len() - i,
{
    let v = p + s;
    if i < s.len() {
        assert(v[p.len() + i] == s[i]);
        if s[i] != c {
            lemma_find_char_shift(p, s, c, i + 1);
        }
    }
}

proof fn lemma_lines_shift(p: Seq<char>, s: Seq<char>, i: int)
    requires
        0 <= i,
    ensures
        lines_from(p + s, p.len() + i) == lines_from(s, i),
    decreases s.len() - i,
{
    let v = p + s;
    if i < s.len() {
        lemma_find_char_shift(p, s, '\n', i);
        lemma_find_char(s, '\n', i);
        let e = find_char(s, '\n', i);
        if e < s.len() {
            assert(v.subrange(p.len() + i, p.len() + e) =~= s.subrange(i, e));
            lemma_lines_shift(p, s, e + 1);
        } else {
            assert(v.subrange(p.len() + i, v.len() as int) =~= s.subrange(i, s.len() as int));
        }
    }
}

/// Lines after a first line that holds no line break are the lines of the
/// rest.
proof fn lemma_lines_after_first(first: Seq<char>, s: Seq<char>)
    requires
        forall|k: int| 0 <= k < first.len() ==> first[k] != '\n',
    ensures
        lines(first + "\n"@ + s) == seq![strip_line_end(first)] + lines(s),
{
    reveal_strlit("\n");
    let p = first + "\n"@;
    let v = p + s;
    assert(first + "\n"@ + s == v);
    assert forall|k: int| 0 <= k < first.len() implies v[k] != '\n' by {
        assert(v[k] == first[k]);
    }
    assert(v[first.len() as int] == '\n');
    lemma_find_char(v, '\n', 0);
    assert(find_char(v, '\n', 0) == first.len()) by {
        let f = find_char(v, '\n', 0);
        if f < first.len() {
            assert(v[f] == first[f]);
        }
    }
    assert(v.subrange(0, first.len() as int) =~= first);
    lemma_lines_shift(p, s, 0);
}

/// A line whose trimmed text starts with `#` adds no entry.
proof fn lemma_comment_line_skipped(l0: Seq<char>, ls: Seq<Seq<char>>)
    requires
        trim(l0).len() > 0,
        trim(l0)[0] == '#',
    ensures
        config_entries(seq![l0] + ls) == config_entries(ls),
    decreases ls.len(),
{
    if ls.len() == 0 {
        assert(seq![l0] + ls =~= seq![l0]);
        assert(seq![l0].drop_last() =~= Seq::<Seq<char>>::empty());
        assert(config_entries(Seq::<Seq<char>>::empty()) == Ok::<Seq<(Seq<char>, Seq<char>)>, ConfigErrorView>(Seq::empty()));
        assert(seq![l0].last() == l0);
    } else {
        lemma_comment_line_skipped(l0, ls.drop_last());
        assert((seq![l0] + ls).drop_last() =~= seq![l0] + ls.drop_last());
        assert((seq![l0] + ls).last() == ls.last());
    }
}

/// A comment line, `#` and any text without a line break, changes nothing
/// in what a configuration file says: the file with it in front parses
/// exactly as the file without it.
pub proof fn lemma_comment_ignored(c: Seq<char>, rest: Seq<char>, listen_address: Option<bool>)
    requires
        forall|k: int| 0 <= k < c.len() ==> c[k] != '\n',
    ensures
        parse_config("#"@ + c + "\n"@ + rest, listen_address) == parse_config(rest, listen_address),
        listen_value("#"@ + c + "\n"@ + rest) == listen_value(rest),
{
    reveal_strlit("#");
    let first = "#"@ + c;
    assert forall|k: int| 0 <= k < first.len() implies first[k] != '\n' by {
        if k > 0 {
            assert(first[k] == c[k - 1]);
        }
    }
    lemma_lines_after_first(first, rest);
    assert("#"@ + c + "\n"@ + rest == first + "\n"@ + rest);
    let x = strip_line_end(first);
    assert(x.len() > 0 && x[0] == '#');
    assert(!crate::text::is_whitespace('#'));
    assert(skip_ws(x, 0) == 0);
    lemma_skip_ws_back(x, 0, x.len() as int);
    let b = skip_ws_back(x, 0, x.len() as int);
    assert(b > 0) by {
        if b == 0 {
            assert(crate::text::is_whitespace(x[0]));
        }
    }
    assert(trim(x) == x.subrange(0, b));
    assert(trim(x)[0] == '#');
    lemma_comment_line_skipped(x, lines(rest));
}

} // verus!
