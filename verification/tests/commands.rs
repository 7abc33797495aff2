use hermes_native::common::{desktop_subpath, home_override};
use hermes_native::hermes::installation_status;
use hermes_native::json::JsonValue;
use hermes_native::kanban::{
    decimal_string, hermes_output, kanban_argv, kanban_response, CommandOutcome, KanbanRequest,
    KanbanResponse,
};
use hermes_native::profiles::profiles_from_dirs;
use hermes_native::ssh_tunnel::ssh_tunnel_status;
use hermes_native::text::trim_str;

fn st(x: &str) -> String {
    x.to_string()
}

#[test]
fn argv_list_boards() {
    assert_eq!(
        kanban_argv(KanbanRequest::ListBoards { include_archived: None }, None),
        vec!["kanban", "list-boards", "--json"]
    );
    assert_eq!(
        kanban_argv(KanbanRequest::ListBoards { include_archived: Some(true) }, Some(st("work"))),
        vec!["kanban", "list-boards", "--archived", "--profile", "work", "--json"]
    );
    assert_eq!(
        kanban_argv(KanbanRequest::ListBoards { include_archived: Some(false) }, None),
        vec!["kanban", "list-boards", "--json"]
    );
}

#[test]
fn argv_list_tasks() {
    assert_eq!(
        kanban_argv(
            KanbanRequest::ListTasks { board: Some(st("b1")), include_archived: Some(true) },
            None
        ),
        vec!["kanban", "list-tasks", "--board", "b1", "--archived", "--json"]
    );
}

#[test]
fn argv_create_task() {
    assert_eq!(
        kanban_argv(
            KanbanRequest::CreateTask {
                title: st("Fix it"),
                body: Some(st("details")),
                priority: Some(-3),
                board: Some(st("ops")),
            },
            Some(st("p")),
        ),
        vec![
            "kanban", "create-task", "Fix it", "--body", "details", "--priority", "-3", "--board",
            "ops", "--profile", "p", "--json"
        ]
    );
    assert_eq!(
        kanban_argv(
            KanbanRequest::CreateTask { title: st("T"), body: None, priority: None, board: None },
            None
        ),
        vec!["kanban", "create-task", "T", "--json"]
    );
}

#[test]
fn argv_other_requests() {
    assert_eq!(
        kanban_argv(KanbanRequest::CreateBoard { slug: st("s"), name: Some(st("N")) }, None),
        vec!["kanban", "create-board", "s", "--name", "N", "--json"]
    );
    assert_eq!(
        kanban_argv(KanbanRequest::Dispatch { board: None }, None),
        vec!["kanban", "dispatch", "--json"]
    );
    assert_eq!(
        kanban_argv(KanbanRequest::MoveTask { task_id: st("7"), target: st("done") }, None),
        vec!["kanban", "move", "7", "done", "--json"]
    );
    assert_eq!(
        kanban_argv(KanbanRequest::BlockTask { task_id: st("7"), reason: Some(st("why")) }, None),
        vec!["kanban", "block", "7", "--reason", "why", "--json"]
    );
    for (req, sub) in [
        (KanbanRequest::CompleteTask { task_id: st("1") }, "complete"),
        (KanbanRequest::UnblockTask { task_id: st("1") }, "unblock"),
        (KanbanRequest::ArchiveTask { task_id: st("1") }, "archive"),
        (KanbanRequest::SpecifyTask { task_id: st("1") }, "specify"),
        (KanbanRequest::ReclaimTask { task_id: st("1") }, "reclaim"),
    ] {
        assert_eq!(kanban_argv(req, None), vec!["kanban", sub, "1", "--json"]);
    }
}

#[test]
fn decimal_text() {
    assert_eq!(decimal_string(0), "0");
    assert_eq!(decimal_string(42), "42");
    assert_eq!(decimal_string(-7), "-7");
    assert_eq!(decimal_string(i32::MIN), i32::MIN.to_string());
    assert_eq!(decimal_string(i32::MAX), i32::MAX.to_string());
}

#[test]
fn command_outcomes() {
    assert_eq!(hermes_output(CommandOutcome::NotFound), Err(st("Hermes not installed")));
    assert_eq!(hermes_output(CommandOutcome::SpawnFailed(st("denied"))), Err(st("denied")));
    assert_eq!(
        hermes_output(CommandOutcome::Finished {
            success: false,
            stdout: st("out"),
            stderr: st("bad flag")
        }),
        Err(st("bad flag"))
    );
    assert_eq!(
        hermes_output(CommandOutcome::Finished {
            success: true,
            stdout: st("[]"),
            stderr: st("warn")
        }),
        Ok(st("[]"))
    );
}

#[test]
fn kanban_responses() {
    let ok = KanbanResponse::succeeded(JsonValue::Array(vec![]));
    assert!(ok.success && ok.error.is_none() && ok.data.is_some());
    let bad = KanbanResponse::failed(st("boom"));
    assert!(!bad.success && bad.data.is_none());
    assert_eq!(bad.error.as_deref(), Some("boom"));
}

#[test]
fn profiles_default_first() {
    let p = profiles_from_dirs(None, vec![st("work"), st("play")]);
    let v: Vec<(String, bool)> = p.into_iter().map(|p| (p.name, p.is_active)).collect();
    assert_eq!(v, vec![(st("default"), true), (st("work"), false), (st("play"), false)]);
    let q = profiles_from_dirs(Some(st("play")), vec![st("work"), st("play")]);
    let w: Vec<bool> = q.iter().map(|p| p.is_active).collect();
    assert_eq!(w, vec![false, false, true]);
    assert_eq!(profiles_from_dirs(Some(st("x")), vec![]).len(), 1);
}

#[test]
fn installation_probe() {
    let s = installation_status(Some(st("hermes 1.2.3\n")), Some(st("/usr/bin/hermes\n")));
    assert!(s.installed);
    assert_eq!(s.version.as_deref(), Some("hermes 1.2.3"));
    assert_eq!(s.path.as_deref(), Some("/usr/bin/hermes"));
    let t = installation_status(Some(st("v")), None);
    assert!(t.installed && t.path.is_none());
    let u = installation_status(None, Some(st("/x")));
    assert!(!u.installed && u.version.is_none() && u.path.is_none());
}

#[test]
fn home_override_rules() {
    assert_eq!(home_override(Some(st("  /srv/h  ")), true), Some(st("/srv/h")));
    assert_eq!(home_override(Some(st("  /srv/h  ")), false), Some(st("  /srv/h  ")));
    assert_eq!(home_override(Some(st("   ")), true), None);
    assert_eq!(home_override(Some(st("   ")), false), Some(st("   ")));
    assert_eq!(home_override(Some(st("")), false), None);
    assert_eq!(home_override(None, true), None);
}

#[test]
fn desktop_paths() {
    assert_eq!(desktop_subpath(None), vec!["desktop"]);
    assert_eq!(desktop_subpath(Some(st("default"))), vec!["desktop"]);
    assert_eq!(desktop_subpath(Some(st("work"))), vec!["profiles", "work", "desktop"]);
}

#[test]
fn tunnel_inactive() {
    let t = ssh_tunnel_status();
    assert!(!t.active && t.local_port.is_none() && t.error.is_none());
}

#[test]
fn trim_unicode_whitespace() {
    assert_eq!(trim_str("\u{3000}\u{A0} x y\u{2003}\n"), "x y");
    assert_eq!(trim_str("\u{200B}x"), "\u{200B}x");
    assert_eq!(trim_str(""), "");
}

#[test]
fn kanban_response_from_output() {
    let ok = kanban_response(Ok(st("[1, 2]"))).unwrap();
    assert!(ok.success && ok.error.is_none());
    match ok.data {
        Some(JsonValue::Array(a)) => assert_eq!(a.len(), 2),
        _ => panic!("expected an array"),
    }
    let failed = kanban_response(Err(st("Hermes not installed"))).unwrap();
    assert!(!failed.success && failed.data.is_none());
    assert_eq!(failed.error.as_deref(), Some("Hermes not installed"));
    assert!(kanban_response(Ok(st("oops"))).is_err());
}
