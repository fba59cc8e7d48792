//! Waiting for a reply, for a task, for idleness.

use outpost::transcript::{Ending, Turn};
use outpost::watch::{about, in_time, IdleWatch, Next, ReplyWatch, TaskWatch};

fn turn(uuid: &str, text: &str) -> Turn {
    Turn {
        uuid: uuid.to_string(),
        at: "2026-08-31T14:31:24.717Z".to_string(),
        text: text.to_string(),
    }
}

fn ending(uuid: &str, status: &str, summary: &str) -> Ending {
    Ending {
        uuid: uuid.to_string(),
        at: "2026-08-31T14:35:02.100Z".to_string(),
        status: status.to_string(),
        summary: summary.to_string(),
    }
}

#[test]
fn letters_match_whatever_their_case() {
    assert!(about("Exit Code 0", &Some("exit code".to_string())));
    assert!(about("\u{c9}t\u{e9}", &Some("\u{e9}T\u{c9}".to_string())));
    assert!(!about("done", &Some("exit".to_string())));
    assert!(about("anything", &None));
}

#[test]
fn only_a_new_turn_ends_the_wait() {
    let watch = ReplyWatch::begin(&[turn("a", "old")], None, 90);
    assert_eq!(watch.observe(&[turn("a", "old")]), None);
    assert_eq!(
        watch.observe(&[turn("a", "old"), turn("b", "new"), turn("c", "newer")]),
        Some("14:31  new\n\n14:31  newer\n\n".to_string())
    );
    // The same words again are a real answer.
    assert_eq!(
        watch.observe(&[turn("a", "old"), turn("b", "old")]),
        Some("14:31  old\n\n".to_string())
    );
}

#[test]
fn a_wanted_text_passes_over_other_news() {
    let watch = ReplyWatch::begin(&[], Some("Build".to_string()), 90);
    assert_eq!(watch.observe(&[turn("a", "hello")]), None);
    assert_eq!(
        watch.observe(&[turn("a", "hello"), turn("b", "the build is done")]),
        Some("14:31  the build is done\n\n".to_string())
    );
}

fn said_at_the_end(next: Next) -> String {
    match next {
        Next::GiveUp(message) => message,
        Next::Ask { .. } => panic!("there is time left"),
    }
}

#[test]
fn a_wait_that_expires_says_for_what() {
    let watch = ReplyWatch::begin(&[], None, 90);
    assert_eq!(
        said_at_the_end(watch.next(90000)),
        "nothing new in 90s. `outpost pane` to see whether it is still working."
    );
    let watch = ReplyWatch::begin(&[], Some("a\"b".to_string()), 5);
    assert_eq!(
        said_at_the_end(watch.next(5001)),
        "nothing matching \"a\\\"b\" in 5s. `outpost read` to see what it did say."
    );
    let watch = TaskWatch::begin(&[], None, 7);
    assert_eq!(
        said_at_the_end(watch.next(u128::MAX)),
        "no background task ended in 7s. `outpost read` to see what it is doing."
    );
}

/// What is new cannot be there at once, so these waits pause before they ask.
#[test]
fn waits_for_news_pause_before_they_ask() {
    let watch = ReplyWatch::begin(&[], None, 90);
    for elapsed in [0, 89999] {
        assert!(matches!(
            watch.next(elapsed),
            Next::Ask { before_millis: 15000, after_millis: 0 }
        ));
    }
    assert!(matches!(watch.next(90000), Next::GiveUp(_)));
    let watch = TaskWatch::begin(&[], None, u64::MAX);
    assert!(matches!(
        watch.next(u64::MAX as u128),
        Next::Ask { before_millis: 15000, after_millis: 0 }
    ));
    let watch = TaskWatch::begin(&[], None, 0);
    assert!(matches!(watch.next(0), Next::GiveUp(_)));
}

/// A session may be idle at once, so this wait asks before it pauses.
#[test]
fn a_wait_for_idleness_asks_before_it_pauses() {
    let watch = IdleWatch::begin(60);
    assert!(matches!(
        watch.next(59999),
        Next::Ask { before_millis: 0, after_millis: 15000 }
    ));
    assert!(matches!(watch.next(60000), Next::GiveUp(_)));
}

#[test]
fn a_limit_is_exact() {
    assert!(in_time(0, 1));
    assert!(in_time(999, 1));
    assert!(!in_time(1000, 1));
    assert!(!in_time(0, 0));
}

#[test]
fn a_killed_task_is_a_failure() {
    let watch = TaskWatch::begin(&[ending("a", "completed", "old")], None, 90);
    assert!(watch.observe(&[ending("a", "completed", "old")]).is_none());
    let report = watch
        .observe(&[ending("a", "completed", "old"), ending("b", "killed", "Build")])
        .unwrap();
    assert_eq!(report.line, "14:35  killed  Build\n");
    assert_eq!(
        report.failure.as_deref(),
        Some("the task did not complete — it was killed")
    );
}

#[test]
fn a_completed_task_is_success() {
    let watch = TaskWatch::begin(&[], Some("BUILD".to_string()), 90);
    assert!(watch.observe(&[ending("a", "completed", "test")]).is_none());
    let report = watch
        .observe(&[ending("a", "killed", "test"), ending("b", "completed", "build it")])
        .unwrap();
    assert_eq!(report.line, "14:35  completed  build it\n");
    assert!(report.failure.is_none());
}

#[test]
fn one_idle_reading_is_not_idle() {
    let mut watch = IdleWatch::begin(60);
    assert!(watch.observe("idle".to_string()).is_none());
    assert_eq!(watch.observe("idle".to_string()).as_deref(), Some("idle\n"));
    assert_eq!(watch.observe("idle".to_string()).as_deref(), Some("idle\n"));
}

/// A flicker in the middle of a turn does not add up, and a command that runs is
/// not idle.
#[test]
fn a_flicker_restarts_the_count() {
    let mut watch = IdleWatch::begin(60);
    assert_eq!(said_at_the_end(watch.next(60000)), "still \"\" after 60s");
    assert!(watch.observe("idle".to_string()).is_none());
    assert!(watch.observe("shell".to_string()).is_none());
    assert!(watch.observe("idle".to_string()).is_none());
    assert!(watch.observe("busy".to_string()).is_none());
    assert_eq!(said_at_the_end(watch.next(60000)), "still \"busy\" after 60s");
}
