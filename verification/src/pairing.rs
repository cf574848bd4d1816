//! Device pairing: one-use pairing codes, device tokens stored as SHA-256
//! verifiers, and the record formats and checks around them. The files live
//! under a root directory that the host daemon manages.
use crate::config::{is_ident_char, is_identifier, valid_identifier, valid_identifier_chars};
use crate::number::{decimal, lemma_decimal_round_trip, parse_u64, parse_u64_spec, push_decimal};
use crate::text::{
    chars_eq, chars_of, find_char, lemma_lex_total, lemma_lex_transitive, lex_le, lex_le_chars,
    lines, lines_from, push_str, slice_to_vec, split_lines, string_from, strip_prefix, trim,
    trim_chars,
};
use sha2::Digest;
use vstd::prelude::*;

verus! {

/// How long a pairing code stays valid, in seconds.
pub const PAIRING_LIFETIME_SECONDS: u64 = 300;

/// Random bytes in a pairing code (written as twice as many hex digits).
pub const PAIRING_CODE_BYTES: usize = 16;

/// Random bytes in a device token (written as twice as many hex digits).
pub const DEVICE_TOKEN_BYTES: usize = 32;

/// Hex digits of a device id: the start of its token's verifier.
pub const DEVICE_ID_HEX_LENGTH: usize = 16;

/// The SHA-256 digest of `data`.
pub uninterp spec fn spec_sha256(data: Seq<u8>) -> Seq<u8>;

/// Calls `sha2::Sha256::digest`. Claimed: the result is the digest of
/// exactly `data` (a function of `data` alone) and is 32 bytes long, the
/// output size of SHA-256.
#[verifier::external_body]
fn sha256(data: &[u8]) -> (digest: Vec<u8>)
    ensures
        digest@ == spec_sha256(data@),
        digest@.len() == 32,
{
    sha2::Sha256::digest(data).to_vec()
}

/// The lowercase hex digit of a value below 16.
pub open spec fn hex_digit(v: int) -> char {
    if v < 10 {
        (('0' as int) + v) as char
    } else {
        (('a' as int) + v - 10) as char
    }
}

/// Lowercase hex of `bytes`, two digits per byte.
pub open spec fn hex_lower(bytes: Seq<u8>) -> Seq<char>
    decreases bytes.len(),
{
    if bytes.len() == 0 {
        Seq::empty()
    } else {
        hex_lower(bytes.drop_last()) + seq![hex_digit((bytes.last() / 16) as int), hex_digit((bytes.last() % 16) as int)]
    }
}

fn hex_digit_char(v: u8) -> (c: char)
    requires
        v < 16,
    ensures
        c == hex_digit(v as int),
{
    if v < 10 {
        ('0' as u8 + v) as char
    } else {
        ('a' as u8 + v - 10) as char
    }
}

/// Lowercase hex of `bytes`.
pub fn hex_encode(bytes: &[u8]) -> (s: String)
    ensures
        s@ == hex_lower(bytes@),
{
    let mut v: Vec<char> = Vec::new();
    let mut i: usize = 0;
    assert(bytes@.take(0) =~= Seq::<u8>::empty());
    while i < bytes.len()
        invariant
            i <= bytes@.len(),
            v@ == hex_lower(bytes@.take(i as int)),
        decreases bytes@.len() - i,
    {
        let b = bytes[i];
        v.push(hex_digit_char(b / 16));
        v.push(hex_digit_char(b % 16));
        assert(bytes@.take(i + 1).drop_last() =~= bytes@.take(i as int));
        i = i + 1;
        assert(v@ =~= hex_lower(bytes@.take(i as int)));
    }
    assert(bytes@.take(bytes@.len() as int) =~= bytes@);
    string_from(v.as_slice())
}

/// The verifier stored for a device token: lowercase hex of the SHA-256 of
/// its UTF-8 bytes.
pub open spec fn token_digest_spec(token: Seq<char>) -> Seq<char> {
    hex_lower(spec_sha256(vstd::utf8::encode_utf8(token)))
}

/// The verifier of `token`.
pub fn token_digest(token: &str) -> (d: String)
    ensures
        d@ == token_digest_spec(token@),
{
    let digest = sha256(token.as_bytes());
    hex_encode(digest.as_slice())
}

/// Name of the record file that stores a verifier.
pub open spec fn record_name_spec(digest: Seq<char>) -> Seq<char> {
    "sha256-"@ + digest
}

/// Name of the record file that stores `digest`.
pub fn token_record_name(digest: &str) -> (name: String)
    ensures
        name@ == record_name_spec(digest@),
{
    crate::protocol::concat("sha256-", digest)
}

/// ASCII hex digit, either case.
pub open spec fn is_hex_char(c: char) -> bool {
    ('0' <= c && c <= '9') || ('a' <= c && c <= 'f') || ('A' <= c && c <= 'F')
}

/// ASCII digit or lowercase `a`..`f`.
pub open spec fn is_lower_hex_char(c: char) -> bool {
    ('0' <= c && c <= '9') || ('a' <= c && c <= 'f')
}

/// Exactly `n` hex digits.
pub open spec fn hex_of_len(v: Seq<char>, n: nat) -> bool {
    v.len() == n && forall|i: int| 0 <= i < v.len() ==> is_hex_char(#[trigger] v[i])
}

/// Exactly `n` lowercase hex digits.
pub open spec fn lower_hex_of_len(v: Seq<char>, n: nat) -> bool {
    v.len() == n && forall|i: int| 0 <= i < v.len() ==> is_lower_hex_char(#[trigger] v[i])
}

fn all_hex(v: &[char], lower: bool) -> (r: bool)
    ensures
        r == (forall|i: int| 0 <= i < v@.len() ==> (if lower { is_lower_hex_char(#[trigger] v@[i]) } else { is_hex_char(v@[i]) })),
{
    let mut i: usize = 0;
    while i < v.len()
        invariant
            i <= v@.len(),
            forall|k: int| 0 <= k < i ==> (if lower { is_lower_hex_char(#[trigger] v@[k]) } else { is_hex_char(v@[k]) }),
        decreases v@.len() - i,
    {
        let c = v[i];
        let ok = ('0' <= c && c <= '9') || ('a' <= c && c <= 'f') || (!lower && 'A' <= c && c <= 'F');
        if !ok {
            return false;
        }
        i = i + 1;
    }
    true
}

/// Whether `value` is exactly `expected_length` ASCII hex digits.
pub fn is_hex(value: &str, expected_length: usize) -> (r: bool)
    ensures
        r == hex_of_len(value@, expected_length as nat),
{
    let v = chars_of(value);
    v.len() == expected_length && all_hex(v.as_slice(), false)
}

/// Whether `value` is exactly `expected_length` lowercase hex digits.
pub fn is_lower_hex(value: &str, expected_length: usize) -> (r: bool)
    ensures
        r == lower_hex_of_len(value@, expected_length as nat),
{
    let v = chars_of(value);
    v.len() == expected_length && all_hex(v.as_slice(), true)
}

/// A device record name: a token of hex digits (older layout) or
/// `sha256-` followed by a lowercase hex verifier.
pub open spec fn device_record_name(name: Seq<char>) -> bool {
    hex_of_len(name, (DEVICE_TOKEN_BYTES * 2) as nat) || (7 <= name.len() && name.take(7)
        == "sha256-"@ && lower_hex_of_len(name.skip(7), (DEVICE_TOKEN_BYTES * 2) as nat))
}

/// The verifier in a `sha256-` record name, if the name is one.
pub open spec fn record_digest(name: Seq<char>) -> Option<Seq<char>> {
    if 7 <= name.len() && name.take(7) == "sha256-"@ {
        Some(name.skip(7))
    } else {
        None
    }
}

/// The verifier in the record name `name`, if it starts with `sha256-`.
pub fn record_digest_of(name: &str) -> (r: Option<String>)
    ensures
        r.deep_view() == record_digest(name@),
{
    let v = chars_of(name);
    match crate::text::strip_prefix(v.as_slice(), "sha256-") {
        Some(rest) => {
            proof { reveal_strlit("sha256-"); }
            Some(string_from(rest.as_slice()))
        },
        None => {
            proof { reveal_strlit("sha256-"); }
            None
        },
    }
}

/// Whether `value` names a device record.
pub fn is_device_record_name(value: &str) -> (r: bool)
    ensures
        r == device_record_name(value@),
{
    if is_hex(value, DEVICE_TOKEN_BYTES * 2) {
        return true;
    }
    match record_digest_of(value) {
        Some(digest) => is_lower_hex(digest.as_str(), DEVICE_TOKEN_BYTES * 2),
        None => false,
    }
}

/// Why a pairing or device request was refused.
#[derive(Clone, Copy, Debug, PartialEq, Eq, Structural)]
pub enum PairingError {
    /// The desktop id is not an identifier.
    InvalidDesktopId,
    /// The pairing code is not 32 hex digits.
    InvalidPairingCode,
    /// The pairing record lacks a desktop id or a valid expiry.
    InvalidRecord,
    /// The pairing code is past its expiry.
    Expired,
    /// The device id is not 16 lowercase hex digits.
    InvalidDeviceId,
    /// More than one paired device has the device id.
    AmbiguousDeviceId,
}

/// The text of each refusal.
pub open spec fn pairing_error_text(e: PairingError) -> Seq<char> {
    match e {
        PairingError::InvalidDesktopId => "invalid desktop id"@,
        PairingError::InvalidPairingCode => "invalid pairing code"@,
        PairingError::InvalidRecord => "invalid pairing record"@,
        PairingError::Expired => "pairing code expired"@,
        PairingError::InvalidDeviceId => "invalid device id"@,
        PairingError::AmbiguousDeviceId => "ambiguous device id"@,
    }
}

impl PairingError {
    /// The text of the refusal.
    pub fn message(&self) -> (m: &'static str)
        ensures
            m@ == pairing_error_text(*self),
    {
        match self {
            PairingError::InvalidDesktopId => "invalid desktop id",
            PairingError::InvalidPairingCode => "invalid pairing code",
            PairingError::InvalidRecord => "invalid pairing record",
            PairingError::Expired => "pairing code expired",
            PairingError::InvalidDeviceId => "invalid device id",
            PairingError::AmbiguousDeviceId => "ambiguous device id",
        }
    }
}

/// Accepts an identifier as a desktop id.
pub fn validate_desktop_id(id: &str) -> (r: Result<(), PairingError>)
    ensures
        r == (if is_identifier(id@) { Ok(()) } else { Err(PairingError::InvalidDesktopId) }),
{
    if valid_identifier(id) {
        Ok(())
    } else {
        Err(PairingError::InvalidDesktopId)
    }
}

/// Accepts a pairing code of 32 hex digits.
pub fn check_pairing_code(code: &str) -> (r: Result<(), PairingError>)
    ensures
        r == (if hex_of_len(code@, (PAIRING_CODE_BYTES * 2) as nat) {
            Ok(())
        } else {
            Err(PairingError::InvalidPairingCode)
        }),
{
    if is_hex(code, PAIRING_CODE_BYTES * 2) {
        Ok(())
    } else {
        Err(PairingError::InvalidPairingCode)
    }
}

/// Whether `l` starts with `p`.
pub open spec fn has_prefix(l: Seq<char>, p: Seq<char>) -> bool {
    p.len() <= l.len() && l.take(p.len() as int) == p
}

/// The text of a pairing record: the desktop id and the expiry time in
/// seconds since the Unix epoch, one `key=value` line each.
pub open spec fn pairing_record_text(desktop_id: Seq<char>, expires: u64) -> Seq<char> {
    "desktop_id="@ + desktop_id + seq!['\n'] + "expires="@ + decimal(expires as nat) + seq!['\n']
}

/// The text of the record of a new pairing code.
pub fn pairing_record(desktop_id: &str, expires: u64) -> (r: String)
    ensures
        r@ == pairing_record_text(desktop_id@, expires),
{
    let mut v: Vec<char> = Vec::new();
    push_str(&mut v, "desktop_id=");
    push_str(&mut v, desktop_id);
    v.push('\n');
    push_str(&mut v, "expires=");
    push_decimal(expires, &mut v);
    v.push('\n');
    assert(v@ =~= pairing_record_text(desktop_id@, expires));
    string_from(v.as_slice())
}

/// What the lines `ls` of a pairing record say: the value of the last
/// `desktop_id=` line, and the number on the last `expires=` line (none if
/// that number does not parse).
pub open spec fn pairing_fields(ls: Seq<Seq<char>>) -> (Option<Seq<char>>, Option<u64>)
    decreases ls.len(),
{
    if ls.len() == 0 {
        (None, None)
    } else {
        let prev = pairing_fields(ls.drop_last());
        let l = ls.last();
        (
            if has_prefix(l, "desktop_id="@) {
                Some(l.skip("desktop_id="@.len() as int))
            } else {
                prev.0
            },
            if has_prefix(l, "expires="@) {
                parse_u64_spec(l.skip("expires="@.len() as int))
            } else {
                prev.1
            },
        )
    }
}

/// The desktop id and expiry of a pairing record, or why it is refused.
pub open spec fn parse_pairing_spec(contents: Seq<char>) -> Result<(Seq<char>, u64), PairingError> {
    let f = pairing_fields(lines(contents));
    match f.0 {
        None => Err(PairingError::InvalidRecord),
        Some(id) => if !is_identifier(id) {
            Err(PairingError::InvalidDesktopId)
        } else {
            match f.1 {
                None => Err(PairingError::InvalidRecord),
                Some(e) => Ok((id, e)),
            }
        },
    }
}

/// Reads the desktop id and the expiry of a pairing record.
pub fn parse_pairing(contents: &str) -> (r: Result<(String, u64), PairingError>)
    ensures
        match r {
            Ok((id, e)) => parse_pairing_spec(contents@) == Ok::<(Seq<char>, u64), PairingError>((id@, e)),
            Err(x) => parse_pairing_spec(contents@) == Err::<(Seq<char>, u64), PairingError>(x),
        },
{
    let text = chars_of(contents);
    let ls = split_lines(text.as_slice());
    let ghost lv = ls@.map_values(|t: Vec<char>| t@);
    let mut desktop_id: Option<Vec<char>> = None;
    let mut expires: Option<u64> = None;
    let mut i: usize = 0;
    proof { reveal_strlit("desktop_id="); reveal_strlit("expires="); }
    assert(lv.take(0) =~= Seq::<Seq<char>>::empty());
    while i < ls.len()
        invariant
            i <= ls@.len(),
            lv == ls@.map_values(|t: Vec<char>| t@),
            lv == lines(contents@),
            pairing_fields(lv.take(i as int)).0 == (match desktop_id { Some(d) => Some(d@), None => None }),
            pairing_fields(lv.take(i as int)).1 == expires,
            "desktop_id="@.len() == 11,
            "expires="@.len() == 8,
        decreases ls@.len() - i,
    {
        let line = ls[i].as_slice();
        assert(lv.take(i + 1).drop_last() =~= lv.take(i as int));
        assert(lv.take(i + 1).last() == line@);
        match strip_prefix(line, "desktop_id=") {
            Some(rest) => {
                desktop_id = Some(rest);
            },
            None => {},
        }
        match strip_prefix(line, "expires=") {
            Some(rest) => {
                expires = parse_u64(rest.as_slice());
            },
            None => {},
        }
        i = i + 1;
    }
    assert(lv.take(i as int) =~= lv);
    match desktop_id {
        None => Err(PairingError::InvalidRecord),
        Some(id) => {
            if !valid_identifier_chars(id.as_slice()) {
                return Err(PairingError::InvalidDesktopId);
            }
            match expires {
                None => Err(PairingError::InvalidRecord),
                Some(e) => Ok((string_from(id.as_slice()), e)),
            }
        },
    }
}

/// What redeeming a pairing record at time `now` gives: its desktop id, or
/// why it is refused.
pub open spec fn redemption(contents: Seq<char>, now: u64) -> Result<Seq<char>, PairingError> {
    match parse_pairing_spec(contents) {
        Err(e) => Err(e),
        Ok((id, expires)) => if now > expires {
            Err(PairingError::Expired)
        } else {
            Ok(id)
        },
    }
}

/// Checks a pairing record at redemption time `now` (seconds since the Unix
/// epoch) and gives the desktop id it pairs with.
pub fn redeem_record(contents: &str, now: u64) -> (r: Result<String, PairingError>)
    ensures
        match r {
            Ok(id) => redemption(contents@, now) == Ok::<Seq<char>, PairingError>(id@),
            Err(x) => redemption(contents@, now) == Err::<Seq<char>, PairingError>(x),
        },
{
    match parse_pairing(contents) {
        Err(e) => Err(e),
        Ok((id, expires)) => {
            if now > expires {
                Err(PairingError::Expired)
            } else {
                Ok(id)
            }
        },
    }
}

/// Whether `c` occurs in `s`.
pub open spec fn has_char(s: Seq<char>, c: char) -> bool {
    exists|i: int| 0 <= i < s.len() && s[i] == c
}

proof fn lemma_find_first(v: Seq<char>, c: char, i: int, e: int)
    requires
        0 <= i <= e < v.len(),
        v[e] == c,
        forall|k: int| i <= k < e ==> v[k] != c,
    ensures
        find_char(v, c, i) == e,
    decreases e - i,
{
    if i < e {
        lemma_find_first(v, c, i + 1, e);
    }
}

/// The lines of two `\n`-terminated lines are those two lines.
proof fn lemma_two_lines(a: Seq<char>, b: Seq<char>)
    requires
        !has_char(a, '\n'),
        !has_char(b, '\n'),
        a.len() > 0 && a.last() != '\r',
        b.len() > 0 && b.last() != '\r',
    ensures
        lines(a + seq!['\n'] + b + seq!['\n']) == seq![a, b],
{
    let v = a + seq!['\n'] + b + seq!['\n'];
    let n = a.len() as int;
    let m = b.len() as int;
    assert forall|k: int| 0 <= k < n implies v[k] != '\n' by {
        assert(v[k] == a[k]);
    }
    assert(v[n] == '\n');
    lemma_find_first(v, '\n', 0, n);
    assert forall|k: int| n + 1 <= k < n + 1 + m implies v[k] != '\n' by {
        assert(v[k] == b[k - n - 1]);
    }
    assert(v[n + 1 + m] == '\n');
    lemma_find_first(v, '\n', n + 1, n + 1 + m);
    assert(v.subrange(0, n) =~= a);
    assert(v.subrange(n + 1, n + 1 + m) =~= b);
    assert(lines_from(v, n + 2 + m) =~= Seq::<Seq<char>>::empty());
    assert(lines_from(v, n + 1) =~= seq![b]);
    assert(lines_from(v, 0) =~= seq![a, b]);
}

/// A pairing record written for an identifier and an expiry time reads back
/// as that identifier and time; redeemed at a time `now`, it gives the
/// identifier up to its expiry and is refused as expired after it.
pub proof fn lemma_pairing_record_round_trip(desktop_id: Seq<char>, expires: u64, now: u64)
    requires
        is_identifier(desktop_id),
    ensures
        parse_pairing_spec(pairing_record_text(desktop_id, expires)) == Ok::<(Seq<char>, u64), PairingError>((desktop_id, expires)),
        redemption(pairing_record_text(desktop_id, expires), now) == (if now > expires {
            Err(PairingError::Expired)
        } else {
            Ok(desktop_id)
        }),
{
    reveal_strlit("desktop_id=");
    reveal_strlit("expires=");
    let a = "desktop_id="@ + desktop_id;
    let d = decimal(expires as nat);
    let b = "expires="@ + d;
    lemma_decimal_round_trip(expires);
    crate::number::lemma_decimal_digits(expires as nat);
    assert(!has_char(a, '\n')) by {
        if has_char(a, '\n') {
            let i = choose|i: int| 0 <= i < a.len() && a[i] == '\n';
            if i >= 11 {
                assert(a[i] == desktop_id[i - 11]);
                assert(is_ident_char(desktop_id[i - 11]));
            }
        }
    }
    assert(!has_char(b, '\n')) by {
        if has_char(b, '\n') {
            let i = choose|i: int| 0 <= i < b.len() && b[i] == '\n';
            if i >= 8 {
                assert(b[i] == d[i - 8]);
                assert(crate::number::is_digit(d[i - 8]));
            }
        }
    }
    assert(a.last() == desktop_id.last());
    assert(is_ident_char(desktop_id[desktop_id.len() - 1]));
    assert(b.last() == d.last());
    assert(crate::number::is_digit(d[d.len() - 1]));
    assert(pairing_record_text(desktop_id, expires) =~= a + seq!['\n'] + b + seq!['\n']);
    lemma_two_lines(a, b);
    let ls = seq![a, b];
    assert(ls.drop_last() =~= seq![a]);
    assert(seq![a].drop_last() =~= Seq::<Seq<char>>::empty());
    assert(has_prefix(a, "desktop_id="@)) by {
        assert(a.take(11) =~= "desktop_id="@);
    }
    assert(!has_prefix(a, "expires="@)) by {
        assert(a[0] == 'd');
        assert("expires="@[0] == 'e');
        if has_prefix(a, "expires="@) {
            assert(a.take(8)[0] == a[0]);
        }
    }
    assert(a.skip(11) =~= desktop_id);
    assert(has_prefix(b, "expires="@)) by {
        assert(b.take(8) =~= "expires="@);
    }
    assert(!has_prefix(b, "desktop_id="@)) by {
        assert(b[0] == 'e');
        if has_prefix(b, "desktop_id="@) {
            assert(b.take(11)[0] == b[0]);
        }
    }
    assert(b.skip(8) =~= d);
    assert(seq![a].last() == a);
    assert(ls.last() == b);
    assert(pairing_fields(Seq::<Seq<char>>::empty()) == (None::<Seq<char>>, None::<u64>));
    assert(pairing_fields(seq![a]) == (Some(desktop_id), None::<u64>));
    assert(pairing_fields(ls) == (Some(desktop_id), Some(expires)));
}

/// A pairing code handed to a user, with the desktop it pairs with.
#[derive(Clone, Debug)]
pub struct Pairing {
    pub desktop_id: String,
    pub code: String,
    pub expires_in_seconds: u64,
}

/// What a redeemed pairing code gives the device: its desktop and its token.
#[derive(Clone, Debug)]
pub struct DeviceCredentials {
    pub desktop_id: String,
    pub token: String,
}

/// A paired device as listed: a short, non-secret id and its desktop.
#[derive(Clone, Debug, PartialEq, Eq)]
pub struct PairedDevice {
    pub id: String,
    pub desktop_id: String,
}

impl View for PairedDevice {
    type V = (Seq<char>, Seq<char>);

    open spec fn view(&self) -> (Seq<char>, Seq<char>) {
        (self.id@, self.desktop_id@)
    }
}

/// One file of the device directory: its name and its text.
#[derive(Clone, Debug)]
pub struct DeviceRecord {
    pub name: String,
    pub contents: String,
}

impl View for DeviceRecord {
    type V = (Seq<char>, Seq<char>);

    open spec fn view(&self) -> (Seq<char>, Seq<char>) {
        (self.name@, self.contents@)
    }
}

/// A new pairing for `desktop_id` with the random `code`, created at `now`
/// (seconds since the Unix epoch), and the text of its record.
pub fn new_pairing(desktop_id: &str, code: &str, now: u64) -> (r: Result<(Pairing, String), PairingError>)
    requires
        now <= u64::MAX - PAIRING_LIFETIME_SECONDS,
    ensures
        is_identifier(desktop_id@) <==> r is Ok,
        !is_identifier(desktop_id@) ==> r == Err::<(Pairing, String), PairingError>(PairingError::InvalidDesktopId),
        r matches Ok((p, record)) ==> {
            &&& p.desktop_id@ == desktop_id@
            &&& p.code@ == code@
            &&& p.expires_in_seconds == PAIRING_LIFETIME_SECONDS
            &&& record@ == pairing_record_text(desktop_id@, (now + PAIRING_LIFETIME_SECONDS) as u64)
        },
{
    if !valid_identifier(desktop_id) {
        return Err(PairingError::InvalidDesktopId);
    }
    let record = pairing_record(desktop_id, now + PAIRING_LIFETIME_SECONDS);
    let id_chars = chars_of(desktop_id);
    let code_chars = chars_of(code);
    let pairing = Pairing {
        desktop_id: string_from(id_chars.as_slice()),
        code: string_from(code_chars.as_slice()),
        expires_in_seconds: PAIRING_LIFETIME_SECONDS,
    };
    Ok((pairing, record))
}

/// The text of a device record: the desktop id on a line of its own.
pub open spec fn device_record_text(desktop_id: Seq<char>) -> Seq<char> {
    desktop_id + seq!['\n']
}

/// The text of the record of a newly paired device.
pub fn device_record(desktop_id: &str) -> (r: String)
    ensures
        r@ == device_record_text(desktop_id@),
{
    let mut v = chars_of(desktop_id);
    v.push('\n');
    string_from(v.as_slice())
}

/// The desktop a device record names: its trimmed text, if that is an
/// identifier.
pub open spec fn record_desktop(contents: Seq<char>) -> Option<Seq<char>> {
    if is_identifier(trim(contents)) {
        Some(trim(contents))
    } else {
        None
    }
}

/// The desktop the device record `contents` names, if any.
pub fn device_record_desktop(contents: &str) -> (r: Option<String>)
    ensures
        r.deep_view() == record_desktop(contents@),
{
    let v = chars_of(contents);
    let t = trim_chars(v.as_slice());
    if valid_identifier_chars(t.as_slice()) {
        Some(string_from(t.as_slice()))
    } else {
        None
    }
}

/// A device record written for a desktop id names that desktop.
pub proof fn lemma_device_record_round_trip(desktop_id: Seq<char>)
    requires
        is_identifier(desktop_id),
    ensures
        record_desktop(device_record_text(desktop_id)) == Some(desktop_id),
{
    let s = device_record_text(desktop_id);
    let n = desktop_id.len() as int;
    assert(s[0] == desktop_id[0]);
    assert(is_ident_char(desktop_id[0]));
    assert(!crate::text::is_whitespace(s[0]));
    assert(crate::text::skip_ws(s, 0) == 0);
    assert(s[n] == '\n');
    assert(s[n - 1] == desktop_id[n - 1]);
    assert(is_ident_char(desktop_id[n - 1]));
    assert(crate::text::skip_ws_back(s, 0, n) == n);
    assert(crate::text::skip_ws_back(s, 0, n + 1) == n);
    assert(trim(s) =~= desktop_id);
}

/// The name of the record that holds the verifier of `token`, if the token
/// has the form of one (64 hex digits).
pub open spec fn token_record(token: Seq<char>) -> Option<Seq<char>> {
    if hex_of_len(token, (DEVICE_TOKEN_BYTES * 2) as nat) {
        Some(record_name_spec(token_digest_spec(token)))
    } else {
        None
    }
}

/// The name of the record to look `token` up in, if it has the form of a
/// token.
pub fn token_record_for(token: &str) -> (r: Option<String>)
    ensures
        r.deep_view() == token_record(token@),
{
    if !is_hex(token, DEVICE_TOKEN_BYTES * 2) {
        return None;
    }
    let digest = token_digest(token);
    Some(token_record_name(digest.as_str()))
}

/// A token issued at redemption resolves to its desktop: redemption
/// stores `device_record_text(desktop)` under the name
/// `record_name_spec(token_digest_spec(token))`; looking the token up later
/// reads that very name, and the record there names the desktop.
pub proof fn lemma_issued_token_resolves(token: Seq<char>, desktop: Seq<char>)
    requires
        hex_of_len(token, (DEVICE_TOKEN_BYTES * 2) as nat),
        is_identifier(desktop),
    ensures
        token_record(token) == Some(record_name_spec(token_digest_spec(token))),
        record_desktop(device_record_text(desktop)) == Some(desktop),
{
    lemma_device_record_round_trip(desktop);
}

/// The device a record lists for `desktop`: a `sha256-` record of a
/// lowercase hex verifier whose trimmed text is the desktop; its id is the
/// start of the verifier.
pub open spec fn paired_device(desktop: Seq<char>, record: (Seq<char>, Seq<char>)) -> Option<(Seq<char>, Seq<char>)> {
    match record_digest(record.0) {
        Some(d) => if lower_hex_of_len(d, (DEVICE_TOKEN_BYTES * 2) as nat) && trim(record.1) == desktop {
            Some((d.take(DEVICE_ID_HEX_LENGTH as int), desktop))
        } else {
            None
        },
        None => None,
    }
}

/// The devices that the records `rs` list for `desktop`, in record order.
pub open spec fn devices_in(desktop: Seq<char>, rs: Seq<(Seq<char>, Seq<char>)>) -> Seq<(Seq<char>, Seq<char>)>
    decreases rs.len(),
{
    if rs.len() == 0 {
        seq![]
    } else {
        devices_in(desktop, rs.drop_last()) + match paired_device(desktop, rs.last()) {
            Some(d) => seq![d],
            None => seq![],
        }
    }
}

/// Listed devices sorted by id.
pub open spec fn sorted_by_id(s: Seq<(Seq<char>, Seq<char>)>) -> bool {
    forall|i: int, j: int| 0 <= i < j < s.len() ==> lex_le(#[trigger] s[i].0, #[trigger] s[j].0)
}

/// The views of `v`.
pub open spec fn device_views(v: Seq<PairedDevice>) -> Seq<(Seq<char>, Seq<char>)> {
    v.map_values(|d: PairedDevice| d@)
}

/// The views of `v`.
pub open spec fn record_views(v: Seq<DeviceRecord>) -> Seq<(Seq<char>, Seq<char>)> {
    v.map_values(|r: DeviceRecord| r@)
}

/// The device that `record` lists for `desktop`, if any.
fn device_of_record(desktop: &[char], record: &DeviceRecord) -> (r: Option<PairedDevice>)
    ensures
        match paired_device(desktop@, record@) {
            Some(d) => r matches Some(x) && x@ == d,
            None => r is None,
        },
{
    let name = chars_of(record.name.as_str());
    proof { reveal_strlit("sha256-"); }
    match strip_prefix(name.as_slice(), "sha256-") {
        None => None,
        Some(digest) => {
            assert(record_digest(record@.0) == Some(digest@));
            if digest.len() != DEVICE_TOKEN_BYTES * 2 || !all_hex(digest.as_slice(), true) {
                return None;
            }
            let contents = chars_of(record.contents.as_str());
            let t = trim_chars(contents.as_slice());
            if !chars_eq(t.as_slice(), desktop) {
                return None;
            }
            let id = slice_to_vec(digest.as_slice(), 0, DEVICE_ID_HEX_LENGTH);
            assert(id@ =~= digest@.take(DEVICE_ID_HEX_LENGTH as int));
            Some(PairedDevice { id: string_from(id.as_slice()), desktop_id: string_from(desktop) })
        },
    }
}

/// Inserts `d` into the id-sorted `out`, after the entries that sort with it.
fn insert_sorted(out: &mut Vec<PairedDevice>, d: PairedDevice)
    requires
        sorted_by_id(device_views(old(out)@)),
    ensures
        sorted_by_id(device_views(final(out)@)),
        device_views(final(out)@).to_multiset() == device_views(old(out)@).to_multiset().insert(d@),
{
    let ghost before = device_views(out@);
    let key = chars_of(d.id.as_str());
    let mut k: usize = 0;
    while k < out.len() && lex_le_chars(chars_of(out[k].id.as_str()).as_slice(), key.as_slice())
        invariant
            k <= out@.len(),
            before == device_views(out@),
            key@ == d@.0,
            forall|m: int| 0 <= m < k ==> lex_le(#[trigger] before[m].0, d@.0),
        decreases out@.len() - k,
    {
        k = k + 1;
    }
    proof {
        if k < out@.len() {
            lemma_lex_total(before[k as int].0, d@.0);
        }
    }
    let ghost dv = d@;
    out.insert(k, d);
    let ghost after = device_views(out@);
    assert(after =~= before.insert(k as int, dv));
    proof {
        vstd::seq_lib::to_multiset_insert(before, k as int, dv);
        assert forall|i: int, j: int| 0 <= i < j < after.len() implies lex_le(#[trigger] after[i].0, #[trigger] after[j].0) by {
            if j < k {
            } else if j == k {
            } else if i > k {
                assert(after[i] == before[i - 1]);
                assert(after[j] == before[j - 1]);
            } else if i == k {
                assert(after[j] == before[j - 1]);
                if j - 1 > k {
                    lemma_lex_transitive(dv.0, before[k as int].0, before[j - 1].0);
                }
            } else {
                assert(after[j] == before[j - 1]);
            }
        }
    }
}

/// The devices paired with `desktop_id`, read from the records of the
/// device directory and sorted by id.
pub fn list_desktop_devices(desktop_id: &str, records: &[DeviceRecord]) -> (r: Result<Vec<PairedDevice>, PairingError>)
    ensures
        !is_identifier(desktop_id@) ==> r == Err::<Vec<PairedDevice>, PairingError>(PairingError::InvalidDesktopId),
        is_identifier(desktop_id@) ==> r is Ok,
        r matches Ok(v) ==> {
            &&& device_views(v@).to_multiset() == devices_in(desktop_id@, record_views(records@)).to_multiset()
            &&& sorted_by_id(device_views(v@))
        },
{
    if !valid_identifier(desktop_id) {
        return Err(PairingError::InvalidDesktopId);
    }
    let desktop = chars_of(desktop_id);
    let ghost rs = record_views(records@);
    let mut out: Vec<PairedDevice> = Vec::new();
    let mut i: usize = 0;
    assert(rs.take(0) =~= Seq::<(Seq<char>, Seq<char>)>::empty());
    assert(device_views(out@) =~= Seq::<(Seq<char>, Seq<char>)>::empty());
    while i < records.len()
        invariant
            i <= records@.len(),
            rs == record_views(records@),
            desktop@ == desktop_id@,
            sorted_by_id(device_views(out@)),
            device_views(out@).to_multiset() == devices_in(desktop_id@, rs.take(i as int)).to_multiset(),
        decreases records@.len() - i,
    {
        let ghost prev = devices_in(desktop_id@, rs.take(i as int));
        assert(rs.take(i + 1).drop_last() =~= rs.take(i as int));
        assert(rs.take(i + 1).last() == records@[i as int]@);
        match device_of_record(desktop.as_slice(), &records[i]) {
            Some(d) => {
                proof {
                    vstd::seq_lib::to_multiset_build(prev, d@);
                    assert(devices_in(desktop_id@, rs.take(i + 1)) =~= prev.push(d@));
                }
                insert_sorted(&mut out, d);
            },
            None => {
                assert(devices_in(desktop_id@, rs.take(i + 1)) =~= prev);
            },
        }
        i = i + 1;
    }
    assert(rs.take(i as int) =~= rs);
    Ok(out)
}

/// Whether record `record` is the device `device_id` paired with `desktop`.
pub open spec fn is_device(desktop: Seq<char>, device_id: Seq<char>, record: (Seq<char>, Seq<char>)) -> bool {
    paired_device(desktop, record) matches Some(d) && d.0 == device_id
}

/// Which record, if any, revoking device `device_id` of `desktop_id`
/// removes: the one record of that device. Refused for an invalid desktop
/// or device id, and when more than one record has the id.
pub fn revoke_device(desktop_id: &str, device_id: &str, records: &[DeviceRecord]) -> (r: Result<Option<usize>, PairingError>)
    ensures
        !is_identifier(desktop_id@) ==> r == Err::<Option<usize>, PairingError>(PairingError::InvalidDesktopId),
        is_identifier(desktop_id@) && !lower_hex_of_len(device_id@, DEVICE_ID_HEX_LENGTH as nat)
            ==> r == Err::<Option<usize>, PairingError>(PairingError::InvalidDeviceId),
        is_identifier(desktop_id@) && lower_hex_of_len(device_id@, DEVICE_ID_HEX_LENGTH as nat) ==> {
            let rs = record_views(records@);
            &&& r == Ok::<Option<usize>, PairingError>(None) <==> forall|j: int| 0 <= j < rs.len() ==> !is_device(desktop_id@, device_id@, #[trigger] rs[j])
            &&& r == Err::<Option<usize>, PairingError>(PairingError::AmbiguousDeviceId) <==> exists|i: int, j: int|
                0 <= i < j < rs.len() && is_device(desktop_id@, device_id@, #[trigger] rs[i]) && is_device(desktop_id@, device_id@, #[trigger] rs[j])
            &&& r matches Ok(Some(k)) ==> k < rs.len() && is_device(desktop_id@, device_id@, rs[k as int])
                && forall|j: int| 0 <= j < rs.len() && j != k ==> !is_device(desktop_id@, device_id@, #[trigger] rs[j])
            &&& (r is Ok || r == Err::<Option<usize>, PairingError>(PairingError::AmbiguousDeviceId))
        },
{
    if !valid_identifier(desktop_id) {
        return Err(PairingError::InvalidDesktopId);
    }
    if !is_lower_hex(device_id, DEVICE_ID_HEX_LENGTH) {
        return Err(PairingError::InvalidDeviceId);
    }
    let desktop = chars_of(desktop_id);
    let wanted = chars_of(device_id);
    let ghost rs = record_views(records@);
    let mut found: Option<usize> = None;
    let mut i: usize = 0;
    while i < records.len()
        invariant
            i <= records@.len(),
            rs == record_views(records@),
            desktop@ == desktop_id@,
            wanted@ == device_id@,
            is_identifier(desktop_id@),
            lower_hex_of_len(device_id@, DEVICE_ID_HEX_LENGTH as nat),
            match found {
                None => forall|j: int| 0 <= j < i ==> !is_device(desktop_id@, device_id@, #[trigger] rs[j]),
                Some(k) => k < i && is_device(desktop_id@, device_id@, rs[k as int])
                    && forall|j: int| 0 <= j < i && j != k ==> !is_device(desktop_id@, device_id@, #[trigger] rs[j]),
            },
        decreases records@.len() - i,
    {
        assert(rs[i as int] == records@[i as int]@);
        let hit = match device_of_record(desktop.as_slice(), &records[i]) {
            Some(d) => {
                let id = chars_of(d.id.as_str());
                chars_eq(id.as_slice(), wanted.as_slice())
            },
            None => false,
        };
        if hit {
            match found {
                Some(k) => {
                    assert(is_device(desktop_id@, device_id@, rs[k as int]));
                    assert(is_device(desktop_id@, device_id@, rs[i as int]));
                    return Err(PairingError::AmbiguousDeviceId);
                },
                None => {
                    found = Some(i);
                },
            }
        }
        i = i + 1;
    }
    Ok(found)
}

/// Whether revoking the tokens of `desktop` removes `record`: a device
/// record whose trimmed text is the desktop.
pub open spec fn revocable(desktop: Seq<char>, record: (Seq<char>, Seq<char>)) -> bool {
    device_record_name(record.0) && trim(record.1) == desktop
}

/// The indices of the records in `rs` that revoking the tokens of `desktop`
/// removes, in order.
pub open spec fn revocable_indices(desktop: Seq<char>, rs: Seq<(Seq<char>, Seq<char>)>) -> Seq<int>
    decreases rs.len(),
{
    if rs.len() == 0 {
        seq![]
    } else {
        revocable_indices(desktop, rs.drop_last()) + if revocable(desktop, rs.last()) {
            seq![rs.len() - 1]
        } else {
            seq![]
        }
    }
}

/// Which records revoking every token of `desktop_id` removes, leaving the
/// records of other desktops alone.
pub fn revoke_desktop_tokens(desktop_id: &str, records: &[DeviceRecord]) -> (r: Result<Vec<usize>, PairingError>)
    ensures
        !is_identifier(desktop_id@) ==> r == Err::<Vec<usize>, PairingError>(PairingError::InvalidDesktopId),
        is_identifier(desktop_id@) ==> r is Ok,
        r matches Ok(v) ==> v@.map_values(|k: usize| k as int) == revocable_indices(desktop_id@, record_views(records@)),
{
    if !valid_identifier(desktop_id) {
        return Err(PairingError::InvalidDesktopId);
    }
    let desktop = chars_of(desktop_id);
    let ghost rs = record_views(records@);
    let mut out: Vec<usize> = Vec::new();
    let mut i: usize = 0;
    assert(rs.take(0) =~= Seq::<(Seq<char>, Seq<char>)>::empty());
    assert(out@.map_values(|k: usize| k as int) =~= Seq::<int>::empty());
    while i < records.len()
        invariant
            i <= records@.len(),
            rs == record_views(records@),
            desktop@ == desktop_id@,
            out@.map_values(|k: usize| k as int) == revocable_indices(desktop_id@, rs.take(i as int)),
        decreases records@.len() - i,
    {
        let ghost prev = out@.map_values(|k: usize| k as int);
        assert(rs.take(i + 1).drop_last() =~= rs.take(i as int));
        assert(rs.take(i + 1).last() == records@[i as int]@);
        let name = records[i].name.as_str();
        let hit = if is_device_record_name(name) {
            let contents = chars_of(records[i].contents.as_str());
            let t = trim_chars(contents.as_slice());
            chars_eq(t.as_slice(), desktop.as_slice())
        } else {
            false
        };
        if hit {
            out.push(i);
            assert(out@.map_values(|k: usize| k as int) =~= prev.push(i as int));
        } else {
            assert(out@.map_values(|k: usize| k as int) =~= prev);
        }
        i = i + 1;
    }
    assert(rs.take(i as int) =~= rs);
    Ok(out)
}

/// `name` appended to the path `base` as `Path::join` does: an absolute
/// name replaces the base; a relative one follows it, with a `/` between
/// them unless `base` is empty or ends in one.
pub open spec fn path_join(base: Seq<char>, name: Seq<char>) -> Seq<char> {
    if name.len() > 0 && name[0] == '/' {
        name
    } else if base.len() == 0 {
        name
    } else if base.last() == '/' {
        base + name
    } else {
        base + seq!['/'] + name
    }
}

/// The path `name` joined onto `base`.
pub fn join_path(base: &str, name: &str) -> (r: String)
    ensures
        r@ == path_join(base@, name@),
{
    let n = chars_of(name);
    if n.len() > 0 && n[0] == '/' {
        return string_from(n.as_slice());
    }
    let mut v = chars_of(base);
    if v.len() > 0 && v[v.len() - 1] != '/' {
        v.push('/');
    }
    push_str(&mut v, name);
    assert(v@ =~= path_join(base@, name@));
    string_from(v.as_slice())
}

/// Where pairing codes, used codes and device records are kept.
pub struct PairingStore {
    root: String,
}

impl View for PairingStore {
    type V = Seq<char>;

    closed spec fn view(&self) -> Seq<char> {
        self.root@
    }
}

impl PairingStore {
    /// The store of the host daemon, under `/var/lib/multi-desktop`.
    pub fn host_default() -> (s: Self)
        ensures
            s@ == "/var/lib/multi-desktop"@,
    {
        Self::new("/var/lib/multi-desktop".to_string())
    }

    /// A store under the directory `root`.
    pub fn new(root: String) -> (s: Self)
        ensures
            s@ == root@,
    {
        PairingStore { root }
    }

    /// The directory of the store.
    pub fn root(&self) -> (r: &str)
        ensures
            r@ == self@,
    {
        self.root.as_str()
    }

    /// The directory of pairing codes not yet used.
    pub fn pairings_dir(&self) -> (r: String)
        ensures
            r@ == path_join(self@, "pairings"@),
    {
        proof { reveal_strlit("pairings"); }
        join_path(self.root.as_str(), "pairings")
    }

    /// The directory that redeemed pairing codes move to.
    pub fn consumed_dir(&self) -> (r: String)
        ensures
            r@ == path_join(self@, "pairings-used"@),
    {
        proof { reveal_strlit("pairings-used"); }
        join_path(self.root.as_str(), "pairings-used")
    }

    /// The directory of device records.
    pub fn devices_dir(&self) -> (r: String)
        ensures
            r@ == path_join(self@, "devices"@),
    {
        proof { reveal_strlit("devices"); }
        join_path(self.root.as_str(), "devices")
    }
}

/// Revoking every token of one desktop removes no record that names
/// another desktop: the credentials of other desktops stay valid.
pub proof fn lemma_revocation_keeps_other_desktops(desktop: Seq<char>, other: Seq<char>, record: (Seq<char>, Seq<char>))
    requires
        other != desktop,
        record_desktop(record.1) == Some(other),
    ensures
        !revocable(desktop, record),
{
}

} // verus!
