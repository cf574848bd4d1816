//! Desktop sessions: the names, paths and commands by which the host daemon
//! provisions, starts, stops and lists isolated desktops, and the texts it
//! answers with.
use crate::config::{is_identifier, valid_identifier, Config, ConfigView};
use crate::pairing::{join_path, path_join};
use crate::protocol::concat;
use crate::pairing::PairedDevice;
use crate::text::{
    join_char_lists, lines, split_lines, split_whitespace, tokens, chars_eq, chars_of, decode_lossy, join_strings, joined, sort_strings, sorted_strings, string_from,
    string_views, trim, trim_chars, utf8_lossy,
};
use vstd::prelude::*;

verus! {

/// Where the homes of desktops live, one directory per desktop id.
pub const DESKTOPS_ROOT: &'static str = "/var/lib/multi-desktop/desktops";

/// Where the runtime directories of running desktops live.
pub const RUNTIME_ROOT: &'static str = "/run/multi-desktop";

/// The program that a desktop's unit runs.
pub const SESSION_PROGRAM: &'static str = "/usr/local/bin/multi-desktop-session";

/// The longest Linux user name, in bytes.
pub const USER_NAME_LIMIT: usize = 32;

/// Why a session request failed.
#[derive(Clone, Copy, Debug, PartialEq, Eq, Structural)]
pub enum SessionError {
    /// The desktop id is not an identifier, or its user name is too long.
    InvalidId,
    /// `useradd` failed.
    CreateUserFailed,
    /// `chown` failed.
    OwnershipFailed,
    /// `systemd-run` failed.
    StartFailed,
    /// `systemctl stop` failed.
    StopFailed,
}

/// The text of each failure.
pub open spec fn session_error_text(e: SessionError) -> Seq<char> {
    match e {
        SessionError::InvalidId => "desktop id must be 1-24 ASCII letters, digits or hyphens and fit the Linux user-name limit"@,
        SessionError::CreateUserFailed => "could not create desktop user"@,
        SessionError::OwnershipFailed => "could not set desktop ownership"@,
        SessionError::StartFailed => "could not start desktop session"@,
        SessionError::StopFailed => "could not stop desktop session"@,
    }
}

impl SessionError {
    /// The text of the failure.
    pub fn message(&self) -> (m: &'static str)
        ensures
            m@ == session_error_text(*self),
    {
        match self {
            SessionError::InvalidId => "desktop id must be 1-24 ASCII letters, digits or hyphens and fit the Linux user-name limit",
            SessionError::CreateUserFailed => "could not create desktop user",
            SessionError::OwnershipFailed => "could not set desktop ownership",
            SessionError::StartFailed => "could not start desktop session",
            SessionError::StopFailed => "could not stop desktop session",
        }
    }
}

/// A program to run and its arguments.
#[derive(Clone, Debug)]
pub struct ProcessCommand {
    pub program: String,
    pub args: Vec<String>,
}

impl View for ProcessCommand {
    type V = (Seq<char>, Seq<Seq<char>>);

    open spec fn view(&self) -> (Seq<char>, Seq<Seq<char>>) {
        (self.program@, string_views(self.args@))
    }
}

fn owned(s: &str) -> (r: String)
    ensures
        r@ == s@,
{
    s.to_string()
}

/// The Linux user of a desktop: the configured prefix and the id.
pub open spec fn user_name_of(c: ConfigView, id: Seq<char>) -> Seq<char> {
    c.user_prefix + id
}

/// A desktop id that the manager accepts: an identifier whose user name
/// fits the Linux limit in UTF-8 bytes.
pub open spec fn accepted_id(c: ConfigView, id: Seq<char>) -> bool {
    is_identifier(id) && vstd::utf8::encode_utf8(user_name_of(c, id)).len() <= USER_NAME_LIMIT
}

/// The systemd unit of a desktop.
pub open spec fn unit_name_of(id: Seq<char>) -> Seq<char> {
    "multi-desktop@"@ + id
}

/// The home of a desktop.
pub open spec fn home_path_of(id: Seq<char>) -> Seq<char> {
    path_join(path_join(DESKTOPS_ROOT@, id), "home"@)
}

/// The runtime directory of a desktop.
pub open spec fn runtime_path_of(id: Seq<char>) -> Seq<char> {
    path_join(RUNTIME_ROOT@, id)
}

/// The systemd-run arguments that start a desktop's session: a hardened
/// transient unit that restarts after a crash at most three times a minute.
pub open spec fn start_args(c: ConfigView, id: Seq<char>) -> Seq<Seq<char>> {
    seq![
        "--unit"@, unit_name_of(id), "--collect"@, "--uid"@, user_name_of(c, id),
        "--property=PrivateTmp=yes"@, "--property=ProtectSystem=full"@,
        "--property=ProtectHome=tmpfs"@, "--property=NoNewPrivileges=yes"@,
        "--property=RestrictAddressFamilies=AF_UNIX AF_INET AF_INET6"@,
        "--property=Restart=on-failure"@, "--property=StartLimitIntervalSec=60"@,
        "--property=StartLimitBurst=3"@,
        "--setenv"@, "MULTIDESKTOP_DESKTOP_ID="@ + id,
        "--setenv"@, "MULTIDESKTOP_DESKTOP_HOME="@ + home_path_of(id),
        "--setenv"@, "MULTIDESKTOP_DESKTOP_RUNTIME="@ + runtime_path_of(id),
        "--setenv"@, "MULTIDESKTOP_DESKTOP_COMMAND="@ + c.desktop_command,
        SESSION_PROGRAM@,
    ]
}

/// The ids among directory names `names` that name desktops, in order.
pub open spec fn desktop_ids(names: Seq<Seq<char>>) -> Seq<Seq<char>> {
    names.filter(|n: Seq<char>| is_identifier(n))
}

/// The `id:status` entries of a listing.
pub open spec fn list_entries(pairs: Seq<(Seq<char>, Seq<char>)>) -> Seq<Seq<char>> {
    pairs.map_values(|p: (Seq<char>, Seq<char>)| p.0 + ":"@ + p.1)
}

/// The views of id and status pairs.
pub open spec fn pair_views(v: Seq<(String, String)>) -> Seq<(Seq<char>, Seq<char>)> {
    v.map_values(|p: (String, String)| (p.0@, p.1@))
}

/// Starts, stops and describes isolated desktops for one configuration.
pub struct SessionManager {
    config: Config,
}

impl View for SessionManager {
    type V = ConfigView;

    closed spec fn view(&self) -> ConfigView {
        self.config@
    }
}

impl SessionManager {
    /// A manager for `config`.
    pub fn new(config: Config) -> (m: Self)
        ensures
            m@ == config@,
    {
        SessionManager { config }
    }

    /// The administrator token.
    pub fn token(&self) -> (t: &str)
        ensures
            t@ == self@.token,
    {
        self.config.token.as_str()
    }

    /// Whether `token` is the administrator token.
    pub fn is_admin_token(&self, token: &str) -> (r: bool)
        ensures
            r == (token@ == self@.token),
    {
        let given = chars_of(token);
        let admin = chars_of(self.config.token.as_str());
        chars_eq(given.as_slice(), admin.as_slice())
    }

    /// The configuration.
    pub fn config(&self) -> (c: &Config)
        ensures
            c@ == self@,
    {
        &self.config
    }

    /// The Linux user of desktop `id`.
    pub fn user_name(&self, id: &str) -> (r: String)
        ensures
            r@ == user_name_of(self@, id@),
    {
        concat(self.config.user_prefix.as_str(), id)
    }

    /// Accepts `id` when it is an identifier and its user name fits.
    pub fn validate_id(&self, id: &str) -> (r: Result<(), SessionError>)
        ensures
            r == (if accepted_id(self@, id@) { Ok(()) } else { Err(SessionError::InvalidId) }),
    {
        if !valid_identifier(id) {
            return Err(SessionError::InvalidId);
        }
        let user = self.user_name(id);
        let n = user.as_str().as_bytes().len();
        if n <= USER_NAME_LIMIT {
            Ok(())
        } else {
            Err(SessionError::InvalidId)
        }
    }

    /// The systemd unit of desktop `id`.
    pub fn unit_name(&self, id: &str) -> (r: String)
        ensures
            r@ == unit_name_of(id@),
    {
        concat("multi-desktop@", id)
    }

    /// The home directory of desktop `id`.
    pub fn home_path(&self, id: &str) -> (r: String)
        ensures
            r@ == home_path_of(id@),
    {
        proof { reveal_strlit("home"); }
        let dir = join_path(DESKTOPS_ROOT, id);
        join_path(dir.as_str(), "home")
    }

    /// The runtime directory of desktop `id`.
    pub fn runtime_path(&self, id: &str) -> (r: String)
        ensures
            r@ == runtime_path_of(id@),
    {
        join_path(RUNTIME_ROOT, id)
    }

    /// `id -u <user>`: whether the desktop's user exists.
    pub fn user_exists_command(&self, id: &str) -> (c: ProcessCommand)
        ensures
            c@ == ("id"@, seq!["-u"@, user_name_of(self@, id@)]),
    {
        let mut args: Vec<String> = Vec::new();
        args.push(owned("-u"));
        args.push(self.user_name(id));
        assert(string_views(args@) =~= seq!["-u"@, user_name_of(self@, id@)]);
        ProcessCommand { program: owned("id"), args }
    }

    /// `useradd`: the desktop's user, without a created home, in the render
    /// group only (never the audio group, so that the desktop cannot open
    /// physical audio devices).
    pub fn create_user_command(&self, id: &str) -> (c: ProcessCommand)
        ensures
            c@ == ("useradd"@, seq![
                "--no-create-home"@, "--home-dir"@, home_path_of(id@), "--shell"@, "/bin/bash"@,
                "--groups"@, "render"@, user_name_of(self@, id@),
            ]),
    {
        let mut args: Vec<String> = Vec::new();
        args.push(owned("--no-create-home"));
        args.push(owned("--home-dir"));
        args.push(self.home_path(id));
        args.push(owned("--shell"));
        args.push(owned("/bin/bash"));
        args.push(owned("--groups"));
        args.push(owned("render"));
        args.push(self.user_name(id));
        assert(string_views(args@) =~= seq![
            "--no-create-home"@, "--home-dir"@, home_path_of(id@), "--shell"@, "/bin/bash"@,
            "--groups"@, "render"@, user_name_of(self@, id@),
        ]);
        ProcessCommand { program: owned("useradd"), args }
    }

    /// `chown -R`: gives `path` to `user` and the group of the same name.
    pub fn chown_command(&self, path: &str, user: &str) -> (c: ProcessCommand)
        ensures
            c@ == ("chown"@, seq!["-R"@, "--"@, user@ + ":"@ + user@, path@]),
    {
        let owner = concat(user, ":");
        let owner = concat(owner.as_str(), user);
        let mut args: Vec<String> = Vec::new();
        args.push(owned("-R"));
        args.push(owned("--"));
        args.push(owner);
        args.push(owned(path));
        assert(string_views(args@) =~= seq!["-R"@, "--"@, user@ + ":"@ + user@, path@]);
        ProcessCommand { program: owned("chown"), args }
    }

    /// `systemctl is-active`: the state of the desktop's unit.
    pub fn status_command(&self, id: &str) -> (c: ProcessCommand)
        ensures
            c@ == ("systemctl"@, seq!["is-active"@, unit_name_of(id@)]),
    {
        let mut args: Vec<String> = Vec::new();
        args.push(owned("is-active"));
        args.push(self.unit_name(id));
        assert(string_views(args@) =~= seq!["is-active"@, unit_name_of(id@)]);
        ProcessCommand { program: owned("systemctl"), args }
    }

    /// `systemd-run`: starts the desktop's session as a transient, hardened
    /// unit under the desktop's user.
    pub fn start_command(&self, id: &str) -> (c: ProcessCommand)
        ensures
            c@ == ("systemd-run"@, start_args(self@, id@)),
    {
        let mut args: Vec<String> = Vec::new();
        args.push(owned("--unit"));
        args.push(self.unit_name(id));
        args.push(owned("--collect"));
        args.push(owned("--uid"));
        args.push(self.user_name(id));
        args.push(owned("--property=PrivateTmp=yes"));
        args.push(owned("--property=ProtectSystem=full"));
        args.push(owned("--property=ProtectHome=tmpfs"));
        args.push(owned("--property=NoNewPrivileges=yes"));
        args.push(owned("--property=RestrictAddressFamilies=AF_UNIX AF_INET AF_INET6"));
        args.push(owned("--property=Restart=on-failure"));
        args.push(owned("--property=StartLimitIntervalSec=60"));
        args.push(owned("--property=StartLimitBurst=3"));
        args.push(owned("--setenv"));
        args.push(concat("MULTIDESKTOP_DESKTOP_ID=", id));
        args.push(owned("--setenv"));
        let home = self.home_path(id);
        args.push(concat("MULTIDESKTOP_DESKTOP_HOME=", home.as_str()));
        args.push(owned("--setenv"));
        let runtime = self.runtime_path(id);
        args.push(concat("MULTIDESKTOP_DESKTOP_RUNTIME=", runtime.as_str()));
        args.push(owned("--setenv"));
        args.push(concat("MULTIDESKTOP_DESKTOP_COMMAND=", self.config.desktop_command.as_str()));
        args.push(owned(SESSION_PROGRAM));
        assert(string_views(args@) =~= start_args(self@, id@));
        ProcessCommand { program: owned("systemd-run"), args }
    }

    /// `systemctl stop`: stops the desktop's unit.
    pub fn stop_command(&self, id: &str) -> (c: ProcessCommand)
        ensures
            c@ == ("systemctl"@, seq!["stop"@, unit_name_of(id@)]),
    {
        let mut args: Vec<String> = Vec::new();
        args.push(owned("stop"));
        args.push(self.unit_name(id));
        assert(string_views(args@) =~= seq!["stop"@, unit_name_of(id@)]);
        ProcessCommand { program: owned("systemctl"), args }
    }

    /// The answer to a completed provisioning: `provisioned:<id>:<user>`.
    pub fn provisioned_text(&self, id: &str) -> (r: String)
        ensures
            r@ == "provisioned:"@ + id@ + ":"@ + user_name_of(self@, id@),
    {
        let a = concat("provisioned:", id);
        let a = concat(a.as_str(), ":");
        let user = self.user_name(id);
        concat(a.as_str(), user.as_str())
    }
}

/// The state of a unit as `systemctl is-active` printed it: its output,
/// decoded leniently and trimmed.
pub fn status_text(output: &[u8]) -> (r: String)
    ensures
        r@ == trim(utf8_lossy(output@)),
{
    let text = decode_lossy(output);
    let chars = chars_of(text.as_str());
    let t = trim_chars(chars.as_slice());
    string_from(t.as_slice())
}

/// The directory names that name desktops, in order.
pub fn listed_desktops(names: &[String]) -> (r: Vec<String>)
    ensures
        string_views(r@) == desktop_ids(string_views(names@)),
{
    let ghost ns = string_views(names@);
    let mut out: Vec<String> = Vec::new();
    let mut i: usize = 0;
    assert(ns.take(0) =~= Seq::<Seq<char>>::empty());
    assert(string_views(out@) =~= Seq::<Seq<char>>::empty());
    while i < names.len()
        invariant
            i <= names@.len(),
            ns == string_views(names@),
            string_views(out@) == desktop_ids(ns.take(i as int)),
        decreases names@.len() - i,
    {
        let ghost prev = string_views(out@);
        assert(ns.take(i + 1).drop_last() =~= ns.take(i as int));
        assert(ns.take(i + 1).last() == names@[i as int]@);
        proof {
            ns.take(i as int).lemma_filter_push(names@[i as int]@, |n: Seq<char>| is_identifier(n));
            assert(ns.take(i + 1) =~= ns.take(i as int).push(names@[i as int]@));
        }
        let name = names[i].as_str();
        if valid_identifier(name) {
            out.push(owned(name));
            assert(string_views(out@) =~= prev.push(name@));
        } else {
            assert(string_views(out@) =~= prev);
        }
        i = i + 1;
    }
    assert(ns.take(i as int) =~= ns);
    out
}

/// The answer to `LIST`: the `id:status` entries sorted and joined with `,`,
/// or `none` when there are none.
pub fn list_text(pairs: &[(String, String)]) -> (r: String)
    ensures
        pairs@.len() == 0 ==> r@ == "none"@,
        pairs@.len() > 0 ==> exists|sorted: Seq<Seq<char>>|
            #![trigger sorted_strings(sorted)]
            sorted_strings(sorted) && sorted.to_multiset() == list_entries(pair_views(pairs@)).to_multiset()
                && r@ == joined(sorted, ','),
{
    if pairs.len() == 0 {
        return owned("none");
    }
    let ghost ps = pair_views(pairs@);
    let mut entries: Vec<String> = Vec::new();
    let mut i: usize = 0;
    assert(string_views(entries@) =~= list_entries(ps.take(0)));
    while i < pairs.len()
        invariant
            i <= pairs@.len(),
            ps == pair_views(pairs@),
            string_views(entries@) == list_entries(ps.take(i as int)),
        decreases pairs@.len() - i,
    {
        let e = concat(pairs[i].0.as_str(), ":");
        let e = concat(e.as_str(), pairs[i].1.as_str());
        let ghost prev = string_views(entries@);
        entries.push(e);
        assert(ps[i as int] == (pairs@[i as int].0@, pairs@[i as int].1@));
        assert(ps.take(i + 1) =~= ps.take(i as int).push(ps[i as int]));
        assert(list_entries(ps.take(i + 1)) =~= list_entries(ps.take(i as int)).push(ps[i as int].0 + ":"@ + ps[i as int].1));
        i = i + 1;
        assert(string_views(entries@) =~= list_entries(ps.take(i as int)));
    }
    assert(ps.take(i as int) =~= ps);
    let sorted = sort_strings(entries);
    join_strings(sorted.as_slice(), ',')
}

proof fn lemma_join_under(base: Seq<char>, id: Seq<char>)
    requires
        base.len() > 0,
        base.last() != '/',
        is_identifier(id),
    ensures
        path_join(base, id) == base + seq!['/'] + id,
{
    assert(crate::config::is_ident_char(id[0]));
}

/// Different desktops never share a home or a runtime directory: each
/// accepted id has its own path under each root.
pub proof fn lemma_desktop_paths_distinct(a: Seq<char>, b: Seq<char>)
    requires
        is_identifier(a),
        is_identifier(b),
        a != b,
    ensures
        home_path_of(a) != home_path_of(b),
        runtime_path_of(a) != runtime_path_of(b),
{
    reveal_strlit("/var/lib/multi-desktop/desktops");
    reveal_strlit("/run/multi-desktop");
    reveal_strlit("home");
    let d = DESKTOPS_ROOT@;
    let r = RUNTIME_ROOT@;
    lemma_join_under(d, a);
    lemma_join_under(d, b);
    lemma_join_under(r, a);
    lemma_join_under(r, b);
    let da = d + seq!['/'] + a;
    let db = d + seq!['/'] + b;
    assert(da.last() == a.last());
    assert(db.last() == b.last());
    assert(crate::config::is_ident_char(a[a.len() - 1]));
    assert(crate::config::is_ident_char(b[b.len() - 1]));
    assert(home_path_of(a) == da + seq!['/'] + "home"@);
    assert(home_path_of(b) == db + seq!['/'] + "home"@);
    let n: int = d.len() as int + 1;
    if home_path_of(a) == home_path_of(b) {
        assert(a.len() == b.len());
        assert(a =~= home_path_of(a).subrange(n, n + a.len() as int));
        assert(b =~= home_path_of(b).subrange(n, n + b.len() as int));
    }
    let m: int = r.len() as int + 1;
    if runtime_path_of(a) == runtime_path_of(b) {
        assert(runtime_path_of(a) == r + seq!['/'] + a);
        assert(runtime_path_of(b) == r + seq!['/'] + b);
        assert(a.len() == b.len());
        assert(a =~= runtime_path_of(a).subrange(m, m + a.len() as int));
        assert(b =~= runtime_path_of(b).subrange(m, m + b.len() as int));
    }
}

/// A lifecycle request the manager carries out.
#[derive(Clone, Copy, Debug, PartialEq, Eq, Structural)]
pub enum TaskKind {
    /// Create the desktop's user and home.
    Provision,
    /// Provision, then start the session unless it already runs.
    Start,
    /// Stop the session and remove its runtime directory.
    Stop,
    /// Stop, then start afresh.
    Restart,
}

/// Where a lifecycle request stands: the result it waits for.
#[derive(Clone, Copy, Debug, PartialEq, Eq, Structural)]
pub enum TaskPhase {
    Begin,
    UserCheck,
    UserAdd,
    Home,
    HomeOwner,
    Status,
    Runtime,
    RuntimeOwner,
    Launch,
    StopUnit,
    RuntimeRemoval,
    Done,
}

/// What happened since the last step.
#[derive(Debug)]
pub enum TaskEvent {
    /// The request begins.
    Begin,
    /// The command ran: whether it succeeded, and what it printed.
    Ran { success: bool, output: Vec<u8> },
    /// The directory operation completed.
    DirectoryDone,
}

pub enum TaskEventView {
    Begin,
    Ran(bool, Seq<u8>),
    DirectoryDone,
}

impl View for TaskEvent {
    type V = TaskEventView;

    open spec fn view(&self) -> TaskEventView {
        match self {
            TaskEvent::Begin => TaskEventView::Begin,
            TaskEvent::Ran { success, output } => TaskEventView::Ran(*success, output@),
            TaskEvent::DirectoryDone => TaskEventView::DirectoryDone,
        }
    }
}

/// What the program does next for a lifecycle request.
#[derive(Debug)]
pub enum TaskAction {
    /// Run this command and report [`TaskEvent::Ran`].
    Run(ProcessCommand),
    /// Create this directory and its parents, and report [`TaskEvent::DirectoryDone`].
    CreateDir(String),
    /// Remove this directory if it exists, and report [`TaskEvent::DirectoryDone`].
    RemoveDir(String),
    /// The request is over, with this answer.
    Finish(Result<String, SessionError>),
}

pub enum TaskActionView {
    Run((Seq<char>, Seq<Seq<char>>)),
    CreateDir(Seq<char>),
    RemoveDir(Seq<char>),
    Finish(Result<Seq<char>, SessionError>),
}

impl View for TaskAction {
    type V = TaskActionView;

    open spec fn view(&self) -> TaskActionView {
        match self {
            TaskAction::Run(c) => TaskActionView::Run(c@),
            TaskAction::CreateDir(p) => TaskActionView::CreateDir(p@),
            TaskAction::RemoveDir(p) => TaskActionView::RemoveDir(p@),
            TaskAction::Finish(Ok(t)) => TaskActionView::Finish(Ok(t@)),
            TaskAction::Finish(Err(e)) => TaskActionView::Finish(Err(*e)),
        }
    }
}

/// Whether `event` is what `phase` waits for.
pub open spec fn event_fits(phase: TaskPhase, event: TaskEventView) -> bool {
    match phase {
        TaskPhase::Begin => event is Begin,
        TaskPhase::Home | TaskPhase::Runtime | TaskPhase::RuntimeRemoval => event is DirectoryDone,
        TaskPhase::Done => false,
        _ => event is Ran,
    }
}

/// The step that checks whether the desktop's user exists.
pub open spec fn check_user(c: ConfigView, id: Seq<char>) -> (TaskPhase, TaskActionView) {
    (TaskPhase::UserCheck, TaskActionView::Run(("id"@, seq!["-u"@, user_name_of(c, id)])))
}

/// One step of a lifecycle request of `kind` for desktop `id`.
pub open spec fn task_step(c: ConfigView, kind: TaskKind, id: Seq<char>, phase: TaskPhase, event: TaskEventView) -> (TaskPhase, TaskActionView) {
    let user = user_name_of(c, id);
    match phase {
        TaskPhase::Begin => if !accepted_id(c, id) {
            (TaskPhase::Done, TaskActionView::Finish(Err(SessionError::InvalidId)))
        } else if kind == TaskKind::Stop || kind == TaskKind::Restart {
            (TaskPhase::StopUnit, TaskActionView::Run(("systemctl"@, seq!["stop"@, unit_name_of(id)])))
        } else {
            check_user(c, id)
        },
        TaskPhase::UserCheck => match event {
            TaskEventView::Ran(true, _) => (TaskPhase::Home, TaskActionView::CreateDir(home_path_of(id))),
            _ => (TaskPhase::UserAdd, TaskActionView::Run(("useradd"@, seq![
                "--no-create-home"@, "--home-dir"@, home_path_of(id), "--shell"@, "/bin/bash"@,
                "--groups"@, "render"@, user,
            ]))),
        },
        TaskPhase::UserAdd => match event {
            TaskEventView::Ran(true, _) => (TaskPhase::Home, TaskActionView::CreateDir(home_path_of(id))),
            _ => (TaskPhase::Done, TaskActionView::Finish(Err(SessionError::CreateUserFailed))),
        },
        TaskPhase::Home => (TaskPhase::HomeOwner, TaskActionView::Run(("chown"@, seq!["-R"@, "--"@, user + ":"@ + user, home_path_of(id)]))),
        TaskPhase::HomeOwner => match event {
            TaskEventView::Ran(true, _) => if kind == TaskKind::Provision {
                (TaskPhase::Done, TaskActionView::Finish(Ok("provisioned:"@ + id + ":"@ + user)))
            } else {
                (TaskPhase::Status, TaskActionView::Run(("systemctl"@, seq!["is-active"@, unit_name_of(id)])))
            },
            _ => (TaskPhase::Done, TaskActionView::Finish(Err(SessionError::OwnershipFailed))),
        },
        TaskPhase::Status => match event {
            TaskEventView::Ran(_, out) => if trim(utf8_lossy(out)) == "active"@ {
                (TaskPhase::Done, TaskActionView::Finish(Ok("already-running"@)))
            } else {
                (TaskPhase::Runtime, TaskActionView::CreateDir(runtime_path_of(id)))
            },
            _ => (TaskPhase::Runtime, TaskActionView::CreateDir(runtime_path_of(id))),
        },
        TaskPhase::Runtime => (TaskPhase::RuntimeOwner, TaskActionView::Run(("chown"@, seq!["-R"@, "--"@, user + ":"@ + user, runtime_path_of(id)]))),
        TaskPhase::RuntimeOwner => match event {
            TaskEventView::Ran(true, _) => (TaskPhase::Launch, TaskActionView::Run(("systemd-run"@, start_args(c, id)))),
            _ => (TaskPhase::Done, TaskActionView::Finish(Err(SessionError::OwnershipFailed))),
        },
        TaskPhase::Launch => match event {
            TaskEventView::Ran(true, _) => (TaskPhase::Done, TaskActionView::Finish(Ok("started"@))),
            _ => (TaskPhase::Done, TaskActionView::Finish(Err(SessionError::StartFailed))),
        },
        TaskPhase::StopUnit => match event {
            TaskEventView::Ran(true, _) => (TaskPhase::RuntimeRemoval, TaskActionView::RemoveDir(runtime_path_of(id))),
            _ => (TaskPhase::Done, TaskActionView::Finish(Err(SessionError::StopFailed))),
        },
        TaskPhase::RuntimeRemoval => if kind == TaskKind::Restart {
            check_user(c, id)
        } else {
            (TaskPhase::Done, TaskActionView::Finish(Ok("stopped"@)))
        },
        TaskPhase::Done => (TaskPhase::Done, TaskActionView::Finish(Err(SessionError::InvalidId))),
    }
}

/// A lifecycle request of one desktop in progress.
#[derive(Debug)]
pub struct SessionTask {
    pub kind: TaskKind,
    pub id: String,
    pub phase: TaskPhase,
}

impl SessionTask {
    /// A request of `kind` for desktop `id`, not yet begun.
    pub fn new(kind: TaskKind, id: String) -> (t: Self)
        ensures
            t.kind == kind,
            t.id@ == id@,
            t.phase == TaskPhase::Begin,
    {
        SessionTask { kind, id, phase: TaskPhase::Begin }
    }

    /// Advances the request by what happened, and says what to do next.
    pub fn step(&mut self, manager: &SessionManager, event: TaskEvent) -> (action: TaskAction)
        requires
            event_fits(old(self).phase, event@),
        ensures
            final(self).kind == old(self).kind,
            final(self).id@ == old(self).id@,
            (final(self).phase, action@) == task_step(manager@, old(self).kind, old(self).id@, old(self).phase, event@),
    {
        let id = self.id.as_str();
        let (phase, action) = match self.phase {
            TaskPhase::Begin => {
                if manager.validate_id(id).is_err() {
                    (TaskPhase::Done, TaskAction::Finish(Err(SessionError::InvalidId)))
                } else if self.kind == TaskKind::Stop || self.kind == TaskKind::Restart {
                    (TaskPhase::StopUnit, TaskAction::Run(manager.stop_command(id)))
                } else {
                    (TaskPhase::UserCheck, TaskAction::Run(manager.user_exists_command(id)))
                }
            },
            TaskPhase::UserCheck => match event {
                TaskEvent::Ran { success: true, .. } => (TaskPhase::Home, TaskAction::CreateDir(manager.home_path(id))),
                _ => (TaskPhase::UserAdd, TaskAction::Run(manager.create_user_command(id))),
            },
            TaskPhase::UserAdd => match event {
                TaskEvent::Ran { success: true, .. } => (TaskPhase::Home, TaskAction::CreateDir(manager.home_path(id))),
                _ => (TaskPhase::Done, TaskAction::Finish(Err(SessionError::CreateUserFailed))),
            },
            TaskPhase::Home => {
                let user = manager.user_name(id);
                let home = manager.home_path(id);
                (TaskPhase::HomeOwner, TaskAction::Run(manager.chown_command(home.as_str(), user.as_str())))
            },
            TaskPhase::HomeOwner => match event {
                TaskEvent::Ran { success: true, .. } => {
                    if self.kind == TaskKind::Provision {
                        (TaskPhase::Done, TaskAction::Finish(Ok(manager.provisioned_text(id))))
                    } else {
                        (TaskPhase::Status, TaskAction::Run(manager.status_command(id)))
                    }
                },
                _ => (TaskPhase::Done, TaskAction::Finish(Err(SessionError::OwnershipFailed))),
            },
            TaskPhase::Status => match event {
                TaskEvent::Ran { output, .. } => {
                    let state = status_text(output.as_slice());
                    let sc = chars_of(state.as_str());
                    if crate::text::chars_eq_str(sc.as_slice(), "active") {
                        (TaskPhase::Done, TaskAction::Finish(Ok(owned("already-running"))))
                    } else {
                        (TaskPhase::Runtime, TaskAction::CreateDir(manager.runtime_path(id)))
                    }
                },
                _ => (TaskPhase::Runtime, TaskAction::CreateDir(manager.runtime_path(id))),
            },
            TaskPhase::Runtime => {
                let user = manager.user_name(id);
                let runtime = manager.runtime_path(id);
                (TaskPhase::RuntimeOwner, TaskAction::Run(manager.chown_command(runtime.as_str(), user.as_str())))
            },
            TaskPhase::RuntimeOwner => match event {
                TaskEvent::Ran { success: true, .. } => (TaskPhase::Launch, TaskAction::Run(manager.start_command(id))),
                _ => (TaskPhase::Done, TaskAction::Finish(Err(SessionError::OwnershipFailed))),
            },
            TaskPhase::Launch => match event {
                TaskEvent::Ran { success: true, .. } => (TaskPhase::Done, TaskAction::Finish(Ok(owned("started")))),
                _ => (TaskPhase::Done, TaskAction::Finish(Err(SessionError::StartFailed))),
            },
            TaskPhase::StopUnit => match event {
                TaskEvent::Ran { success: true, .. } => (TaskPhase::RuntimeRemoval, TaskAction::RemoveDir(manager.runtime_path(id))),
                _ => (TaskPhase::Done, TaskAction::Finish(Err(SessionError::StopFailed))),
            },
            TaskPhase::RuntimeRemoval => {
                if self.kind == TaskKind::Restart {
                    (TaskPhase::UserCheck, TaskAction::Run(manager.user_exists_command(id)))
                } else {
                    (TaskPhase::Done, TaskAction::Finish(Ok(owned("stopped"))))
                }
            },
            TaskPhase::Done => (TaskPhase::Done, TaskAction::Finish(Err(SessionError::InvalidId))),
        };
        self.phase = phase;
        action
    }
}

/// Stopping or restarting a desktop removes only its runtime directory,
/// never its home: the only directory a lifecycle request removes is the
/// runtime directory, and that is not the home.
pub proof fn lemma_lifecycle_keeps_home(c: ConfigView, kind: TaskKind, id: Seq<char>, phase: TaskPhase, event: TaskEventView)
    requires
        is_identifier(id),
    ensures
        task_step(c, kind, id, phase, event).1 matches TaskActionView::RemoveDir(p) ==> p == runtime_path_of(id) && p != home_path_of(id),
{
    reveal_strlit("/var/lib/multi-desktop/desktops");
    reveal_strlit("/run/multi-desktop");
    lemma_join_under(DESKTOPS_ROOT@, id);
    lemma_join_under(RUNTIME_ROOT@, id);
    let d = DESKTOPS_ROOT@ + seq!['/'] + id;
    assert(d.last() == id.last());
    assert(crate::config::is_ident_char(id[id.len() - 1]));
    reveal_strlit("home");
    assert(path_join(DESKTOPS_ROOT@, id) == d);
    assert(home_path_of(id) == d + seq!['/'] + "home"@);
    assert(d[1] == DESKTOPS_ROOT@[1]);
    assert((d + seq!['/'] + "home"@)[1] == d[1]);
    assert(home_path_of(id)[1] == 'v');
    assert(runtime_path_of(id)[1] == 'r');
}

/// A status file's lines on one line, separated by `;`.
pub fn one_line_status(contents: &str) -> (r: String)
    ensures
        r@ == joined(lines(contents@), ';'),
{
    let chars = chars_of(contents);
    let ls = split_lines(chars.as_slice());
    join_char_lists(ls.as_slice(), ';')
}

/// The answer to `DETAILS`: the words that `systemctl show` printed, decoded
/// leniently, on one line separated by `;`.
pub fn details_text(output: &[u8]) -> (r: String)
    ensures
        r@ == joined(tokens(utf8_lossy(output@)), ';'),
{
    let text = decode_lossy(output);
    let chars = chars_of(text.as_str());
    let words = split_whitespace(chars.as_slice());
    join_char_lists(words.as_slice(), ';')
}

/// The answer to `DEVICES`: the device ids joined with `,`, or `none`.
pub fn devices_text(devices: &[PairedDevice]) -> (r: String)
    ensures
        devices@.len() == 0 ==> r@ == "none"@,
        devices@.len() > 0 ==> r@ == joined(devices@.map_values(|d: PairedDevice| d.id@), ','),
{
    if devices.len() == 0 {
        return owned("none");
    }
    let mut ids: Vec<String> = Vec::new();
    let mut i: usize = 0;
    while i < devices.len()
        invariant
            i <= devices@.len(),
            string_views(ids@) == devices@.take(i as int).map_values(|d: PairedDevice| d.id@),
        decreases devices@.len() - i,
    {
        let ghost before = string_views(ids@);
        ids.push(owned(devices[i].id.as_str()));
        assert(string_views(ids@) =~= before.push(devices@[i as int].id@));
        assert(devices@.take(i + 1) =~= devices@.take(i as int).push(devices@[i as int]));
        i = i + 1;
        assert(string_views(ids@) =~= devices@.take(i as int).map_values(|d: PairedDevice| d.id@));
    }
    assert(devices@.take(i as int) =~= devices@);
    join_strings(ids.as_slice(), ',')
}

} // verus!
