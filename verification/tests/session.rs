use multi_desktop::config::Config;
use multi_desktop::pairing::PairedDevice;
use multi_desktop::session::{
    details_text, devices_text, one_line_status, listed_desktops, list_text, status_text, SessionError, SessionManager, SessionTask, TaskAction,
    TaskEvent, TaskKind, TaskPhase,
};

fn manager(prefix: &str) -> SessionManager {
    SessionManager::new(Config {
        listen: "127.0.0.1:47990".to_owned(),
        token: "01234567890123456789012345678901".to_owned(),
        user_prefix: prefix.to_owned(),
        desktop_command: "true".to_owned(),
        tls_certificate: None,
        tls_private_key: None,
    })
}

#[test]
fn desktop_names_and_paths() {
    let m = manager("mdesk-");
    assert_eq!(m.token(), "01234567890123456789012345678901");
    assert_eq!(m.user_name("desk"), "mdesk-desk");
    assert_eq!(m.unit_name("desk"), "multi-desktop@desk");
    assert_eq!(m.home_path("desk"), "/var/lib/multi-desktop/desktops/desk/home");
    assert_eq!(m.runtime_path("desk"), "/run/multi-desktop/desk");
    assert_eq!(m.provisioned_text("desk"), "provisioned:desk:mdesk-desk");
    assert_eq!(m.validate_id("desk"), Ok(()));
    assert_eq!(m.validate_id("bad/id"), Err(SessionError::InvalidId));
    assert_eq!(manager("a-very-long-user-prefix-").validate_id("abcdefghij"), Err(SessionError::InvalidId));
    assert_eq!(SessionError::StopFailed.message(), "could not stop desktop session");
}

#[test]
fn desktop_commands_are_exact() {
    let m = manager("mdesk-");
    let add = m.create_user_command("desk");
    assert_eq!(add.program, "useradd");
    assert_eq!(
        add.args,
        vec!["--no-create-home", "--home-dir", "/var/lib/multi-desktop/desktops/desk/home", "--shell", "/bin/bash", "--groups", "render", "mdesk-desk"]
    );
    let exists = m.user_exists_command("desk");
    assert_eq!((exists.program.as_str(), exists.args), ("id", vec!["-u".to_owned(), "mdesk-desk".to_owned()]));
    let chown = m.chown_command("/run/multi-desktop/desk", "mdesk-desk");
    assert_eq!(chown.args, vec!["-R", "--", "mdesk-desk:mdesk-desk", "/run/multi-desktop/desk"]);
    assert_eq!(m.status_command("desk").args, vec!["is-active", "multi-desktop@desk"]);
    assert_eq!(m.stop_command("desk").args, vec!["stop", "multi-desktop@desk"]);
    let start = m.start_command("desk");
    assert_eq!(start.program, "systemd-run");
    assert_eq!(start.args[0..5], ["--unit", "multi-desktop@desk", "--collect", "--uid", "mdesk-desk"]);
    assert_eq!(start.args[10..13], ["--property=Restart=on-failure", "--property=StartLimitIntervalSec=60", "--property=StartLimitBurst=3"]);
    assert_eq!(start.args[14], "MULTIDESKTOP_DESKTOP_ID=desk");
    assert_eq!(start.args[16], "MULTIDESKTOP_DESKTOP_HOME=/var/lib/multi-desktop/desktops/desk/home");
    assert_eq!(start.args[18], "MULTIDESKTOP_DESKTOP_RUNTIME=/run/multi-desktop/desk");
    assert_eq!(start.args[20], "MULTIDESKTOP_DESKTOP_COMMAND=true");
    assert_eq!(start.args.last().unwrap(), "/usr/local/bin/multi-desktop-session");
}

#[test]
fn listing_is_sorted_and_filtered() {
    let names = vec!["zeta".to_owned(), ".hidden".to_owned(), "alpha".to_owned()];
    assert_eq!(listed_desktops(&names), vec!["zeta".to_owned(), "alpha".to_owned()]);
    let pairs = vec![("zeta".to_owned(), "inactive".to_owned()), ("alpha".to_owned(), "active".to_owned())];
    assert_eq!(list_text(&pairs), "alpha:active,zeta:inactive");
    assert_eq!(list_text(&[]), "none");
    assert_eq!(status_text(b"  active\n"), "active");
    assert_eq!(status_text(&[0xff, b'x']), "\u{fffd}x");
}

fn ran(success: bool, output: &[u8]) -> TaskEvent {
    TaskEvent::Ran { success, output: output.to_vec() }
}

fn run_program(action: TaskAction) -> (String, Vec<String>) {
    match action {
        TaskAction::Run(command) => (command.program, command.args),
        other => panic!("expected a command, got {other:?}"),
    }
}

#[test]
fn start_provisions_then_launches() {
    let m = manager("mdesk-");
    let mut task = SessionTask::new(TaskKind::Start, "desk".to_owned());
    assert_eq!(run_program(task.step(&m, TaskEvent::Begin)).0, "id");
    assert_eq!(run_program(task.step(&m, ran(false, b""))).0, "useradd");
    match task.step(&m, ran(true, b"")) {
        TaskAction::CreateDir(path) => assert_eq!(path, "/var/lib/multi-desktop/desktops/desk/home"),
        other => panic!("expected the home, got {other:?}"),
    }
    assert_eq!(run_program(task.step(&m, TaskEvent::DirectoryDone)).0, "chown");
    assert_eq!(run_program(task.step(&m, ran(true, b""))).1, vec!["is-active", "multi-desktop@desk"]);
    match task.step(&m, ran(false, b"inactive\n")) {
        TaskAction::CreateDir(path) => assert_eq!(path, "/run/multi-desktop/desk"),
        other => panic!("expected the runtime directory, got {other:?}"),
    }
    assert_eq!(run_program(task.step(&m, TaskEvent::DirectoryDone)).0, "chown");
    assert_eq!(run_program(task.step(&m, ran(true, b""))).0, "systemd-run");
    match task.step(&m, ran(true, b"")) {
        TaskAction::Finish(Ok(text)) => assert_eq!(text, "started"),
        other => panic!("expected success, got {other:?}"),
    }
    assert_eq!(task.phase, TaskPhase::Done);
}

#[test]
fn start_of_a_running_desktop_and_failures() {
    let m = manager("mdesk-");
    let mut task = SessionTask::new(TaskKind::Start, "desk".to_owned());
    let _ = task.step(&m, TaskEvent::Begin);
    let _ = task.step(&m, ran(true, b""));
    let _ = task.step(&m, TaskEvent::DirectoryDone);
    let _ = task.step(&m, ran(true, b""));
    match task.step(&m, ran(true, b"active\n")) {
        TaskAction::Finish(Ok(text)) => assert_eq!(text, "already-running"),
        other => panic!("expected already-running, got {other:?}"),
    }
    let mut provision = SessionTask::new(TaskKind::Provision, "desk".to_owned());
    let _ = provision.step(&m, TaskEvent::Begin);
    let _ = provision.step(&m, ran(false, b""));
    assert!(matches!(provision.step(&m, ran(false, b"")), TaskAction::Finish(Err(SessionError::CreateUserFailed))));
    let mut invalid = SessionTask::new(TaskKind::Stop, "../x".to_owned());
    assert!(matches!(invalid.step(&m, TaskEvent::Begin), TaskAction::Finish(Err(SessionError::InvalidId))));
}

#[test]
fn stop_removes_only_the_runtime_directory() {
    let m = manager("mdesk-");
    let mut task = SessionTask::new(TaskKind::Stop, "desk".to_owned());
    assert_eq!(run_program(task.step(&m, TaskEvent::Begin)).1, vec!["stop", "multi-desktop@desk"]);
    match task.step(&m, ran(true, b"")) {
        TaskAction::RemoveDir(path) => {
            assert_eq!(path, m.runtime_path("desk"));
            assert_ne!(path, m.home_path("desk"));
        }
        other => panic!("expected the runtime directory, got {other:?}"),
    }
    match task.step(&m, TaskEvent::DirectoryDone) {
        TaskAction::Finish(Ok(text)) => assert_eq!(text, "stopped"),
        other => panic!("expected success, got {other:?}"),
    }
    let mut restart = SessionTask::new(TaskKind::Restart, "desk".to_owned());
    let _ = restart.step(&m, TaskEvent::Begin);
    let _ = restart.step(&m, ran(true, b""));
    assert_eq!(run_program(restart.step(&m, TaskEvent::DirectoryDone)).0, "id");
    assert_ne!(m.home_path("one"), m.home_path("two"));
    assert_ne!(m.runtime_path("one"), m.runtime_path("two"));
}

#[test]
fn daemon_answers_fit_on_one_line() {
    assert_eq!(one_line_status("state=ready\nnode_id=42\n"), "state=ready;node_id=42");
    assert_eq!(details_text(b"ActiveState=active\nSubState=running\n"), "ActiveState=active;SubState=running");
    assert_eq!(devices_text(&[]), "none");
    let devices = vec![
        PairedDevice { id: "0123456789abcdef".to_owned(), desktop_id: "desk".to_owned() },
        PairedDevice { id: "fedcba9876543210".to_owned(), desktop_id: "desk".to_owned() },
    ];
    assert_eq!(devices_text(&devices), "0123456789abcdef,fedcba9876543210");
}

#[test]
fn only_the_configured_token_is_the_administrator() {
    let manager = manager("md-");
    assert!(manager.is_admin_token("01234567890123456789012345678901"));
    assert!(!manager.is_admin_token("0123456789012345678901234567890"));
    assert!(!manager.is_admin_token(""));
}
