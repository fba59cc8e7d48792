//! What is run on the far side, and what its answers mean.

use outpost::config::Config;
use outpost::remote::{
    agent_name, info_lines, newest, readable, session_id, window_list, Agent, Info, Remote,
    RemoteError,
};

fn remote() -> Remote {
    Remote {
        host: "devbox".to_string(),
        target: "main:work".to_string(),
    }
}

fn agent() -> Agent {
    Agent::from_env(Some("helper".to_string()), Some("Helper".to_string())).unwrap()
}

fn info(id: &str, updated_at: u64) -> Info {
    Info {
        session_id: id.to_string(),
        pid: 1,
        status: String::new(),
        version: String::new(),
        name: None,
        updated_at,
        bridge: None,
    }
}

#[test]
fn the_environment_names_host_and_window() {
    let remote = Remote::from_env(Some("h".to_string()), Some("s:w".to_string())).unwrap();
    assert_eq!(remote.host, "h");
    assert_eq!(remote.target, "s:w");
    let error = Remote::from_env(Some(" ".to_string()), None).unwrap_err();
    assert!(matches!(error, RemoteError::NoHost));
    assert_eq!(error.message(), "set OUTPOST_HOST to an ssh destination");
    let error = Remote::from_env(Some("h".to_string()), None).unwrap_err();
    assert!(matches!(error, RemoteError::NoWindow));
    assert_eq!(error.message(), "set OUTPOST_WINDOW to a tmux session:window");
}

#[test]
fn a_remote_is_resolved_like_a_target() {
    let remote = Remote::resolve(
        &Config::default(),
        None,
        "/x",
        Some("h".to_string()),
        Some("s:w".to_string()),
    )
    .unwrap();
    assert_eq!(remote.host, "h");
    assert_eq!(remote.target, "s:w");
    assert!(Remote::resolve(&Config::default(), Some("a"), "/x", None, None).is_err());
}

#[test]
fn a_pane_is_captured_with_its_scrollback() {
    let request = remote().pane(40);
    assert_eq!(request.script, "tmux capture-pane -p -S -40 -t main:work 2>&1");
    assert!(request.stdin.is_none());
    assert_eq!(
        remote().ssh_args(&request),
        ["-o", "BatchMode=yes", "devbox", "tmux capture-pane -p -S -40 -t main:work 2>&1"]
    );
}

#[test]
fn what_is_typed_goes_over_stdin() {
    let request = remote().type_text("$(rm) \"x\"");
    assert_eq!(request.script, "tmux send-keys -t main:work -l -- \"$(cat)\"");
    assert_eq!(request.stdin.as_deref(), Some("$(rm) \"x\""));
    assert_eq!(remote().type_text("other").script, request.script);
    let request = remote().press_enter();
    assert_eq!(request.script, "tmux send-keys -t main:work Enter");
    assert!(request.stdin.is_none());
}

#[test]
fn a_transcript_is_looked_for_in_every_project() {
    let request = remote().transcript(&agent(), "ab-09").unwrap();
    assert_eq!(
        request.script,
        r#"for d in ~/.helper/projects/*/; do
                 f="${d}ab-09.jsonl"
                 if [ -f "$f" ]; then tail -c 8388608 "$f"; exit 0; fi
               done
               echo "no transcript for ab-09" >&2; exit 3"#
    );
}

#[test]
fn anything_but_an_id_is_refused() {
    let error = remote().transcript(&agent(), "a;b").unwrap_err();
    assert!(matches!(error, RemoteError::NotASessionId(_)));
    assert_eq!(error.message(), "\"a;b\" is not a session id");
    assert!(session_id("0123456789abcdefABCDEF-"));
    assert!(session_id(""));
    for id in ["g", "a b", "a/b", "$", "\u{661}", "`"] {
        assert!(!session_id(id), "{id}");
    }
}

#[test]
fn sessions_and_windows_are_asked_for() {
    assert_eq!(
        remote().info(&agent()).script,
        "for f in ~/.helper/sessions/*.json; do cat \"$f\"; echo; done 2>/dev/null || true"
    );
    assert_eq!(
        remote().windows().script,
        "tmux list-windows -a -F '#{session_name}:#{window_name} #{pane_current_command}' 2>&1"
    );
}

#[test]
fn an_answer_is_what_exit_code_zero_prints() {
    assert_eq!(remote().answer(Some(0), b"ok \n", b"noise").unwrap(), "ok \n");
    assert_eq!(remote().answer(Some(0), b"a\xffb", b"").unwrap(), "a\u{fffd}b");
}

#[test]
fn unreachable_is_not_refused() {
    let error = remote().answer(Some(255), b"", b" no route\n").unwrap_err();
    assert!(matches!(error, RemoteError::Unreachable { .. }));
    assert_eq!(error.message(), "could not reach devbox: no route");
    let error = remote().answer(Some(3), b"", b"no transcript").unwrap_err();
    assert!(matches!(error, RemoteError::Failed { code: 3, .. }));
    assert_eq!(error.message(), "devbox answered 3: no transcript");
    let error = remote().judge(Some(-2), String::new(), "").unwrap_err();
    assert_eq!(error.message(), "devbox answered -2: ");
    let error = remote().answer(None, b"", b"").unwrap_err();
    assert!(matches!(error, RemoteError::Killed { .. }));
    assert_eq!(error.message(), "ssh to devbox was killed by a signal");
}

#[test]
fn blank_lines_say_nothing_about_a_session() {
    assert_eq!(info_lines("{a}\n\n  \r\n{b}"), ["{a}", "{b}"]);
    assert!(info_lines("").is_empty());
}

#[test]
fn the_newest_session_wins() {
    let infos = vec![info("a", 5), info("b", 9), info("c", 9), info("d", 1)];
    assert_eq!(newest(infos, &agent()).unwrap().session_id, "b");
    let error = newest(vec![], &agent()).unwrap_err();
    assert!(matches!(error, RemoteError::NoSession { .. }));
    assert_eq!(
        error.message(),
        "no session registered on the far side — is Helper running?"
    );
}

#[test]
fn a_window_is_a_name_and_a_command() {
    let windows = window_list("main:a vim x\nbroken\nmain:b bash\n");
    assert_eq!(
        windows,
        [
            ("main:a".to_string(), "vim x".to_string()),
            ("main:b".to_string(), "bash".to_string())
        ]
    );
}

#[test]
fn an_agent_has_a_name_that_no_shell_reads() {
    assert_eq!(agent().name(), "helper");
    assert_eq!(agent().title(), "Helper");
    let plain = Agent::from_env(Some("my-agent_2".to_string()), Some(" ".to_string())).unwrap();
    assert_eq!(plain.title(), "my-agent_2");
    let error = Agent::from_env(Some(" ".to_string()), None).unwrap_err();
    assert!(matches!(error, RemoteError::NoAgent));
    assert_eq!(
        error.message(),
        "set OUTPOST_AGENT to the name of the program that runs the sessions"
    );
    let error = Agent::from_env(Some("a;b".to_string()), None).unwrap_err();
    assert!(matches!(error, RemoteError::NotAnAgentName(_)));
    assert_eq!(error.message(), "\"a;b\" is not the name of a program");
    for name in ["", "a b", "../x", "$x", "a/b", "\u{e9}"] {
        assert!(!agent_name(name), "{name}");
    }
}

#[test]
fn what_cannot_be_read_is_left_out() {
    let infos = readable(vec![None, Some(info("a", 5)), None, Some(info("b", 9)), None]);
    let ids: Vec<&str> = infos.iter().map(|info| info.session_id.as_str()).collect();
    assert_eq!(ids, ["a", "b"]);
    assert!(readable(vec![None]).is_empty());
    assert!(readable(vec![]).is_empty());
}
