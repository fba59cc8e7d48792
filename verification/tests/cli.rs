//! What a command line asks for, and what is printed.

use outpost::args::ArgsError;
use outpost::cli::{
    command, pad, pane_request, read_report, read_request, shorten, status_report,
    unknown_command, wait_request, Awaited, Command, ReadRequest, USAGE, WIDTH,
};
use outpost::number::NumberError;
use outpost::remote::{Agent, Info};
use outpost::transcript::Line;

fn line(at: &str, who: &'static str, text: &str) -> Line {
    Line {
        at: at.to_string(),
        who,
        text: text.to_string(),
    }
}

#[test]
fn verbs_are_told_apart() {
    assert!(matches!(command(&[]), Command::Status));
    assert!(matches!(command(&["status"]), Command::Status));
    assert!(matches!(command(&["status", "x"]), Command::Unknown("status")));
    assert!(matches!(command(&["read", "3"]), Command::Read(tail) if tail == ["3"]));
    assert!(matches!(command(&["pane"]), Command::Pane(tail) if tail.is_empty()));
    assert!(matches!(command(&["send", "a", "b"]), Command::Send(tail) if tail == ["a", "b"]));
    assert!(matches!(command(&["wait", "--idle"]), Command::Wait(tail) if tail == ["--idle"]));
    for word in ["-h", "--help", "help"] {
        assert!(matches!(command(&[word, "x"]), Command::Help));
    }
    assert!(matches!(command(&["Read"]), Command::Unknown("Read")));
}

#[test]
fn an_unknown_verb_is_named_with_the_usage() {
    assert_eq!(
        unknown_command("rd"),
        format!("no such command \"rd\"\n\n{USAGE}")
    );
    assert!(USAGE.starts_with("usage:\n  outpost status "));
    assert!(USAGE.ends_with("window = \"<tmux session:window>\""));
}

#[test]
fn read_takes_a_number_and_a_flag() {
    assert_eq!(read_request(&[]), Ok(ReadRequest { full: false, want: 12 }));
    assert_eq!(
        read_request(&["--full", "20", "x"]),
        Ok(ReadRequest { full: true, want: 20 })
    );
    assert_eq!(read_request(&["-3"]), Err(NumberError::InvalidDigit));
    assert_eq!(read_request(&["--other"]), Ok(ReadRequest { full: false, want: 12 }));
}

#[test]
fn pane_takes_a_number() {
    assert_eq!(pane_request(&[]), Ok(0));
    assert_eq!(pane_request(&["40"]), Ok(40));
    assert_eq!(pane_request(&["--full"]), Err(NumberError::InvalidDigit));
    assert_eq!(
        pane_request(&["99999999999999999999999"]),
        Err(NumberError::TooLarge)
    );
}

#[test]
fn wait_is_for_a_reply_unless_told_otherwise() {
    assert!(matches!(wait_request(&[]), Ok((3600, Awaited::Reply(None)))));
    assert!(matches!(
        wait_request(&["--match", "x", "--timeout", "5"]),
        Ok((5, Awaited::Reply(Some(text)))) if text == "x"
    ));
    assert!(matches!(wait_request(&["--match"]), Err(ArgsError::NoValue(_))));
}

#[test]
fn wait_for_a_task_takes_an_optional_text() {
    assert!(matches!(wait_request(&["--task"]), Ok((3600, Awaited::Task(None)))));
    assert!(matches!(
        wait_request(&["--task", "--timeout", "9"]),
        Ok((9, Awaited::Task(None)))
    ));
    assert!(matches!(
        wait_request(&["--task", "build", "--match"]),
        Ok((3600, Awaited::Task(Some(text)))) if text == "build"
    ));
}

#[test]
fn wait_for_idle_comes_before_the_others() {
    assert!(matches!(
        wait_request(&["--task", "x", "--idle"]),
        Ok((3600, Awaited::Idle))
    ));
    assert!(matches!(
        wait_request(&["--idle", "--timeout", "soon"]),
        Err(ArgsError::BadTimeout(NumberError::InvalidDigit))
    ));
}

#[test]
fn a_long_message_says_what_was_kept_back() {
    let long = "\u{e9}".repeat(WIDTH + 3);
    let shown = shorten(&long, false);
    assert_eq!(
        shown,
        format!("{}… (+3 chars, --full for all)", "\u{e9}".repeat(WIDTH))
    );
    assert_eq!(shorten(&long, true), long);
    let exact = "x".repeat(WIDTH);
    assert_eq!(shorten(&exact, false), exact);
}

#[test]
fn the_last_exchanges_are_shown() {
    let lines = [
        line("2026-08-31T14:31:24.717Z", "pippijn", "one"),
        line("2026-08-31T14:32:24.717Z", "session", "two"),
        line("odd", "pippijn", "three"),
    ];
    assert_eq!(
        read_report(&lines, &ReadRequest { full: false, want: 2 }),
        "14:32  session  two\n\nodd  pippijn  three\n\n(1 earlier, ask for more)\n"
    );
    assert_eq!(
        read_report(&lines[..1], &ReadRequest { full: false, want: 12 }),
        "14:31  pippijn  one\n\n"
    );
    assert_eq!(read_report(&[], &ReadRequest { full: false, want: 12 }), "");
    assert_eq!(
        read_report(&lines, &ReadRequest { full: false, want: 0 }),
        "(3 earlier, ask for more)\n"
    );
}

fn agent() -> Agent {
    Agent::from_env(Some("helper".to_string()), Some("Helper".to_string())).unwrap()
}

fn info(name: Option<&str>, bridge: Option<&str>) -> Info {
    Info {
        session_id: "ab-1".to_string(),
        pid: 42,
        status: "idle".to_string(),
        version: "1.2".to_string(),
        name: name.map(str::to_string),
        updated_at: 7,
        bridge: bridge.map(str::to_string),
    }
}

#[test]
fn a_status_shows_session_and_windows() {
    let windows = Ok(vec![
        ("main:a".to_string(), "vim".to_string()),
        ("a-name-longer-than-twenty".to_string(), "bash".to_string()),
    ]);
    assert_eq!(
        status_report(&agent(), &info(Some("n"), Some("b")), &windows),
        "n — idle — helper 1.2 — pid 42 — bridged\nab-1\n  main:a               vim\n  a-name-longer-than-twenty bash\n"
    );
}

#[test]
fn a_status_says_what_is_not_there() {
    let head = "(unnamed) — idle — helper 1.2 — pid 42 — not bridged\nab-1\n";
    assert_eq!(
        status_report(&agent(), &info(None, None), &Ok(vec![])),
        format!("{head}  (tmux is running but has no windows)\n")
    );
    assert_eq!(
        status_report(&agent(), &info(None, None), &Err("no tmux".to_string())),
        format!("{head}  windows unavailable: no tmux\n")
    );
}

#[test]
fn padding_counts_characters() {
    for text in ["", "ab", "\u{e9}\u{e9}", "abcdef"] {
        assert_eq!(pad(text, 4), format!("{text:<4}"));
    }
}
