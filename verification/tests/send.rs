//! Sending, and knowing that it was sent.

use outpost::args::ArgsError;
use outpost::number::NumberError;
use outpost::send::{
    draft, follow_up, message, on_screen, sent_report, Action, Delivery, Draft, Event, SendError,
};
use outpost::transcript::HumanTurn;

fn turn(uuid: &str, text: &str, queued: bool) -> HumanTurn {
    HumanTurn {
        uuid: uuid.to_string(),
        at: String::new(),
        text: text.to_string(),
        queued,
    }
}

fn words(args: &[&str]) -> String {
    match draft(args).unwrap() {
        Draft::Words(text) => text,
        Draft::Stdin => panic!("the arguments were asked for"),
    }
}

#[test]
fn flags_are_not_message_text() {
    assert_eq!(words(&["yes,", "retry", "--wait"]), "yes, retry");
    assert_eq!(words(&["--timeout", "5", "a", "--match", "b", "c"]), "a c");
    assert_eq!(words(&["a", "--match"]), "a");
    assert_eq!(words(&["a", "--idle"]), "a --idle");
    assert_eq!(words(&["--wait"]), "");
}

#[test]
fn a_lone_dash_is_stdin() {
    assert!(matches!(draft(&["-"]), Ok(Draft::Stdin)));
    assert!(matches!(draft(&["-", "--wait"]), Ok(Draft::Stdin)));
    assert!(matches!(draft(&["--timeout", "5", "-", "--match", "x"]), Ok(Draft::Stdin)));
    assert_eq!(words(&["-", "x"]), "- x");
    assert_eq!(words(&["--match", "-"]), "");
    assert!(matches!(draft(&[]), Err(SendError::NoArgument)));
    assert_eq!(SendError::NoArgument.message(), "usage: outpost send <text>");
}

#[test]
fn a_message_is_one_line_of_something() {
    assert_eq!(message("  yes, retry \n").unwrap(), "yes, retry");
    assert_eq!(message(" \n\t"), Err(SendError::Nothing));
    assert_eq!(SendError::Nothing.message(), "nothing to send");
    let error = message("a\n\nb\n").unwrap_err();
    assert_eq!(error, SendError::SeveralLines(3));
    assert_eq!(
        error.message(),
        "that is 3 lines — this types into a composer, where a newline submits. send them one at a time"
    );
    assert_eq!(message("a\rb").unwrap(), "a\rb");
}

#[test]
fn a_wrapped_message_is_on_screen() {
    assert!(on_screen("> a long mess\n    age that wraps |", "a long message that wraps"));
    assert!(!on_screen("> a long message", "another message"));
    assert!(on_screen("", ""));
}

#[test]
fn a_message_that_was_taken_is_reported() {
    let before = [turn("old", "hello", false)];
    let mut delivery = Delivery::begin("hello".to_string(), &before);
    assert_eq!(delivery.step(&Event::Typed), Action::Look);
    assert_eq!(delivery.step(&Event::Screen("> hello".to_string())), Action::PressEnter);
    assert_eq!(delivery.step(&Event::Entered), Action::TakeTime);
    assert_eq!(delivery.step(&Event::Elapsed(0)), Action::Poll { after_millis: 750 });
    // The old turn holds the message and is not the receipt; another new turn
    // does not hold it.
    let turns = vec![turn("old", "hello", false), turn("other", "bye", false)];
    assert_eq!(delivery.step(&Event::Turns(turns)), Action::TakeTime);
    assert_eq!(delivery.step(&Event::Elapsed(800)), Action::Poll { after_millis: 750 });
    let turns = vec![turn("old", "hello", false), turn("new", "well, hello!", true)];
    assert_eq!(delivery.step(&Event::Turns(turns)), Action::ReportSent { queued: true });
    assert_eq!(delivery.step(&Event::Elapsed(30000)), Action::Nothing);
}

#[test]
fn enter_is_not_pressed_on_the_wrong_window() {
    let mut delivery = Delivery::begin("hello".to_string(), &[]);
    assert_eq!(delivery.step(&Event::Typed), Action::Look);
    assert_eq!(
        delivery.step(&Event::Screen("$ ls".to_string())),
        Action::ReportFailure(SendError::NotOnScreen)
    );
    assert_eq!(delivery.step(&Event::Screen("hello".to_string())), Action::Nothing);
    assert_eq!(
        SendError::NotOnScreen.message(),
        "typed it, but it is not on screen — not pressing Enter.\n\
         the window may not be the composer. `outpost pane` to look."
    );
}

#[test]
fn silence_is_not_success() {
    let mut delivery = Delivery::begin("hello".to_string(), &[]);
    delivery.step(&Event::Typed);
    delivery.step(&Event::Screen("hello".to_string()));
    assert_eq!(delivery.step(&Event::Entered), Action::TakeTime);
    assert_eq!(delivery.step(&Event::Elapsed(19999)), Action::Poll { after_millis: 750 });
    assert_eq!(delivery.step(&Event::Turns(vec![])), Action::TakeTime);
    assert_eq!(
        delivery.step(&Event::Elapsed(20000)),
        Action::ReportFailure(SendError::NotTaken)
    );
    assert_eq!(
        SendError::NotTaken.message(),
        "typed and submitted, but it has not appeared in the transcript in 20s.\n\
         it may be mid-turn with a slow write, or it may have stopped reading input.\n\
         `outpost pane` to see which — do NOT send it again blind."
    );
}

/// What was not asked for moves nothing.
#[test]
fn events_out_of_turn_change_nothing() {
    let mut delivery = Delivery::begin("hello".to_string(), &[]);
    assert_eq!(delivery.step(&Event::Entered), Action::Nothing);
    assert_eq!(
        delivery.step(&Event::Turns(vec![turn("new", "hello", false)])),
        Action::Nothing
    );
    assert_eq!(delivery.step(&Event::Typed), Action::Look);
    assert_eq!(delivery.step(&Event::Typed), Action::Nothing);
    assert_eq!(delivery.step(&Event::Screen("hello".to_string())), Action::PressEnter);
    assert_eq!(delivery.step(&Event::Screen("hello".to_string())), Action::Nothing);
    assert_eq!(delivery.step(&Event::Elapsed(30000)), Action::Nothing);
    assert_eq!(delivery.step(&Event::Entered), Action::TakeTime);
    assert_eq!(
        delivery.step(&Event::Turns(vec![turn("new", "hello", false)])),
        Action::Nothing
    );
}

#[test]
fn a_report_says_read_or_queued() {
    assert_eq!(sent_report("h\u{e9}llo", false), "sent, read (5 chars)\n");
    assert_eq!(
        sent_report("hello", true),
        "sent, queued — it was working, so it will read this when the turn ends (5 chars)\n"
    );
}

#[test]
fn a_reply_is_waited_for_only_when_asked() {
    assert!(follow_up(&["hello", "--timeout", "soon", "--match"]).is_none());
    assert!(matches!(follow_up(&["hello", "--wait"]), Some(Ok((3600, None)))));
    assert!(matches!(
        follow_up(&["--match", "build", "hello", "--wait", "--timeout", "9"]),
        Some(Ok((9, Some(text)))) if text == "build"
    ));
}

#[test]
fn the_first_thing_wrong_with_a_wait_is_said() {
    assert!(matches!(
        follow_up(&["--wait", "--timeout", "soon", "--match"]),
        Some(Err(ArgsError::BadTimeout(NumberError::InvalidDigit)))
    ));
    assert!(matches!(
        follow_up(&["--wait", "--match"]),
        Some(Err(ArgsError::NoValue(flag))) if flag == "--match"
    ));
    assert!(matches!(
        follow_up(&["--wait", "--timeout"]),
        Some(Err(ArgsError::NoTimeout))
    ));
}
