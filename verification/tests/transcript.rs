//! What a transcript means, pinned against rows as a session writes them.

use outpost::transcript::{
    clock, conversation, conversation_of, endings, read_rows, said, spoken, tag_value,
    turns_of_session, HumanTurn,
};
use outpost::json::Json;
use serde_json::Value;

fn object(fields: &[(&str, Value)]) -> Value {
    let mut map = serde_json::Map::new();
    for (key, value) in fields {
        map.insert(key.to_string(), value.clone());
    }
    Value::Object(map)
}

fn text(value: &str) -> Value {
    Value::String(value.to_string())
}

/// A user row as it is written, wrapping whatever text is given.
fn user(uuid: &str, at: &str, said: &str) -> String {
    object(&[
        ("type", text("user")),
        ("uuid", text(uuid)),
        ("timestamp", text(at)),
        ("message", object(&[("role", text("user")), ("content", text(said))])),
    ])
    .to_string()
}

/// The human turn that such a row is.
fn turn(uuid: &str, at: &str, said: &str) -> HumanTurn {
    HumanTurn {
        uuid: uuid.to_string(),
        at: at.to_string(),
        text: said.to_string(),
        queued: false,
    }
}

/// An assistant row, with the content-block array the real ones carry.
fn assistant(uuid: &str, at: &str, blocks: Value) -> String {
    object(&[
        ("type", text("assistant")),
        ("uuid", text(uuid)),
        ("timestamp", text(at)),
        ("message", object(&[("role", text("assistant")), ("content", blocks)])),
    ])
    .to_string()
}

fn block(said: &str) -> Value {
    object(&[("type", text("text")), ("text", text(said))])
}

fn text_block(said: &str) -> Value {
    Value::Array(vec![block(said)])
}

fn tool_use() -> Value {
    object(&[
        ("type", text("tool_use")),
        ("id", text("toolu_1")),
        ("name", text("Bash")),
        ("input", object(&[("command", text("bazel build //..."))])),
    ])
}

const KILLED: &str = "<task-notification>\n\
    <task-id>b2jj7il5o</task-id>\n\
    <tool-use-id>toolu_014JBQeyBit3vaXrYRKhseUS</tool-use-id>\n\
    <output-file>/tmp/agent-1000/tasks/b2jj7il5o.output</output-file>\n\
    <status>killed</status>\n\
    <summary>Background command \"Build all targets after reboot\" was stopped</summary>\n\
    </task-notification>";

const DONE: &str = "<task-notification>\n\
    <task-id>b3jbxr5cm</task-id>\n\
    <status>completed</status>\n\
    <summary>Background command \"Retry building all targets\" completed (exit code 0)</summary>\n\
    </task-notification>";

#[test]
fn reads_status_and_summary_out_of_a_notification() {
    let found = endings(&[
        turn("a", "2026-08-31T14:31:17.038Z", KILLED),
        turn("b", "2026-08-31T14:35:02.100Z", DONE),
    ]);
    assert_eq!(found.len(), 2, "both notifications should be seen");
    assert_eq!(found[0].status, "killed");
    assert!(found[0].summary.contains("Build all targets after reboot"));
    assert_eq!(found[1].status, "completed");
}

/// A killed task and a completed one are both "the task ended", and only one of
/// them is success.
#[test]
fn killed_is_not_completed() {
    let found = endings(&[turn("a", "2026-08-31T14:31:17.038Z", KILLED)]);
    assert_eq!(found[0].status, "killed");
    assert!(!found[0].ok(), "a killed task must not read as success");
}

#[test]
fn completed_is_the_one_ending_that_is_ok() {
    assert!(endings(&[turn("a", "2026-08-31T14:35:02.100Z", DONE)])[0].ok());
}

/// Ordinary conversation must not look like a task ending.
#[test]
fn plain_text_is_not_an_ending() {
    assert!(endings(&[turn(
        "a",
        "2026-08-31T14:31:17.038Z",
        "we restarted. build //... again"
    )])
    .is_empty());
}

/// A message that quotes the tags is the person's own words, and no ending.
#[test]
fn a_quoted_notification_is_not_an_ending() {
    let said = "what does <task-notification> with <status>killed</status> mean?";
    let turns = [turn("a", "2026-08-31T14:31:17.038Z", said)];
    assert!(endings(&turns).is_empty());
    let lines = conversation(&turns, b"");
    assert_eq!(lines.len(), 1);
    assert_eq!(lines[0].text, said);
    let notice = [turn("a", "2026-08-31T14:31:17.038Z", &format!("\n  {KILLED}"))];
    assert_eq!(endings(&notice).len(), 1);
    assert!(conversation(&notice, b"").is_empty());
}

/// A notification of an unknown shape is skipped rather than reported as an
/// ending with an empty status.
#[test]
fn a_notification_without_a_status_is_not_an_ending() {
    let text = "<task-notification>\n<task-id>x</task-id>\n</task-notification>";
    assert!(endings(&[turn("a", "2026-08-31T14:31:17.038Z", text)]).is_empty());
}

/// Showing a task notification under the person's name reports a machine event
/// as an instruction they gave.
#[test]
fn a_task_notification_is_not_something_the_person_said() {
    let bytes = format!(
        "{}\n{}\n",
        user("a", "2026-08-31T14:31:17.038Z", KILLED),
        user("b", "2026-08-31T14:32:00.000Z", "yes, retry")
    );
    let turns = [
        turn("a", "2026-08-31T14:31:17.038Z", KILLED),
        turn("b", "2026-08-31T14:32:00.000Z", "yes, retry"),
    ];
    let lines = conversation(&turns, bytes.as_bytes());
    assert_eq!(lines.len(), 1, "only the typed message is conversation");
    assert_eq!(lines[0].text, "yes, retry");
}

/// Sorting on `HH:MM` interleaves days, which reads as a plausible but wrong
/// order.
#[test]
fn a_conversation_spanning_days_is_ordered_by_date_not_time_of_day() {
    let bytes = format!(
        "{}\n{}\n",
        user("late-yesterday", "2026-08-30T23:17:00.000Z", "first"),
        user("this-morning", "2026-08-31T09:04:00.000Z", "second")
    );
    let turns = [
        turn("late-yesterday", "2026-08-30T23:17:00.000Z", "first"),
        turn("this-morning", "2026-08-31T09:04:00.000Z", "second"),
    ];
    let lines = conversation(&turns, bytes.as_bytes());
    let said: Vec<&str> = lines.iter().map(|l| l.text.as_str()).collect();
    assert_eq!(said, ["first", "second"]);
}

/// Both sides, with the assistant's turns read out of the content blocks.
#[test]
fn a_conversation_carries_both_sides() {
    let bytes = format!(
        "{}\n{}\n",
        user("q", "2026-08-31T14:31:17.038Z", "is it still building?"),
        assistant("a", "2026-08-31T14:31:24.717Z", text_block("yes, 40 minutes in"))
    );
    let turns = [turn("q", "2026-08-31T14:31:17.038Z", "is it still building?")];
    let lines = conversation(&turns, bytes.as_bytes());
    assert_eq!(lines.len(), 2);
    assert_eq!(lines[0].who, "pippijn");
    assert_eq!(lines[1].who, "session");
    assert_eq!(lines[1].text, "yes, 40 minutes in");
}

/// Tool calls are not speech.
#[test]
fn a_tool_call_is_not_something_the_session_said() {
    let blocks = Value::Array(vec![tool_use()]);
    let bytes = format!("{}\n", assistant("a", "2026-08-31T14:31:24.717Z", blocks));
    assert!(spoken(bytes.as_bytes()).is_empty());
    assert!(conversation(&[], bytes.as_bytes()).is_empty());
}

/// Earlier stretches of the file are written back into it, so a linear read sees
/// the same turn twice.
#[test]
fn a_turn_written_twice_is_one_turn() {
    let row = assistant("same-uuid", "2026-08-31T14:31:24.717Z", text_block("done"));
    let bytes = format!("{row}\n{row}\n");
    assert_eq!(spoken(bytes.as_bytes()).len(), 1);
}

/// A truncated tail starts mid-line, so the first row is not valid JSON. It is
/// skipped; it does not take the rest of the read with it.
#[test]
fn a_half_line_from_a_truncated_tail_is_skipped() {
    let bytes = format!(
        "id\":\"cut-off\",\"timestamp\"}}\n{}\n",
        assistant("whole", "2026-08-31T14:31:24.717Z", text_block("intact"))
    );
    let turns = spoken(bytes.as_bytes());
    assert_eq!(turns.len(), 1);
    assert_eq!(turns[0].text, "intact");
}

#[test]
fn a_stamp_prints_as_hours_and_minutes() {
    assert_eq!(clock("2026-08-31T14:31:24.717Z"), "14:31");
}

/// A stamp of an unknown shape comes back whole rather than as a slice of
/// itself: a mangled clock reads as a real time.
#[test]
fn an_unparseable_stamp_is_returned_untouched() {
    assert_eq!(clock("no-T-here"), "no-T-here");
}

/// Five characters after a `T` are not a time.
#[test]
fn five_characters_after_a_t_are_not_a_clock_unless_they_are_one() {
    assert_eq!(clock("2026-08-31Tnot-a-time"), "2026-08-31Tnot-a-time");
    assert_eq!(clock(""), "");
}

#[test]
fn a_short_or_foreign_time_is_no_clock() {
    assert_eq!(clock("T12:3"), "T12:3");
    assert_eq!(clock("T12:3\u{664}"), "T12:3\u{664}");
    assert_eq!(clock("T12:345"), "12:34");
    assert_eq!(clock("xT1:234T12:34"), "xT1:234T12:34");
}

#[test]
fn a_spoken_turn_has_its_uuid_and_stamp() {
    let bytes = assistant("u1", "2026-08-31T14:31:24.717Z", text_block("  hello \n"));
    let turns = spoken(bytes.as_bytes());
    assert_eq!(turns.len(), 1);
    assert_eq!(turns[0].uuid, "u1");
    assert_eq!(turns[0].at, "2026-08-31T14:31:24.717Z");
    assert_eq!(turns[0].text, "hello");
}

#[test]
fn text_parts_are_joined_by_lines_and_tools_left_out() {
    let blocks = Value::Array(vec![block("one"), tool_use(), block("two")]);
    let bytes = assistant("u1", "2026-08-31T14:31:24.717Z", blocks);
    assert_eq!(spoken(bytes.as_bytes())[0].text, "one\ntwo");
}

#[test]
fn a_part_without_its_text_says_nothing() {
    let blocks = Value::Array(vec![object(&[("type", text("text"))]), text("loose")]);
    let bytes = assistant("u1", "", blocks);
    assert!(spoken(bytes.as_bytes()).is_empty());
    let bytes = assistant("u2", "", text("content that is no list"));
    assert!(spoken(bytes.as_bytes()).is_empty());
}

/// A row without a uuid is part of the conversation, and no turn to wait for.
#[test]
fn a_row_without_a_uuid_is_a_line_and_no_turn() {
    let row = object(&[
        ("type", text("assistant")),
        ("message", object(&[("content", text_block("hm"))])),
    ])
    .to_string();
    let bytes = format!("{row}\n{row}");
    assert!(spoken(bytes.as_bytes()).is_empty());
    let lines = conversation(&[], bytes.as_bytes());
    assert_eq!(lines.len(), 2);
    assert_eq!(lines[0].at, "");
}

/// The first copy counts, whatever kind of row has its uuid.
#[test]
fn a_uuid_seen_on_another_row_hides_the_later_one() {
    let bytes = format!(
        "{}\n{}",
        user("x", "2026-08-31T14:31:17.038Z", "hello"),
        assistant("x", "2026-08-31T14:31:24.717Z", text_block("copy"))
    );
    assert!(spoken(bytes.as_bytes()).is_empty());
    assert!(conversation(&[], bytes.as_bytes()).is_empty());
}

#[test]
fn lines_with_one_stamp_keep_their_order() {
    let at = "2026-08-31T14:31:17.038Z";
    let bytes = format!(
        "{}\n{}\n{}",
        assistant("a", at, text_block("third")),
        assistant("b", "2026-08-30T00:00:00.000Z", text_block("first")),
        assistant("c", at, text_block("fourth"))
    );
    let lines = conversation(&[turn("q", at, "second")], bytes.as_bytes());
    let said: Vec<&str> = lines.iter().map(|l| l.text.as_str()).collect();
    assert_eq!(said, ["first", "second", "third", "fourth"]);
}

#[test]
fn a_long_conversation_comes_out_in_order() {
    let mut rows = Vec::new();
    for i in 0..200u32 {
        let k = (i * 37) % 200;
        rows.push(assistant(
            &format!("u{i}"),
            &format!("2026-08-31T{:02}:{:02}:00.000Z", k / 60, k % 60),
            text_block(&format!("{k}")),
        ));
    }
    let lines = conversation(&[], rows.join("\n").as_bytes());
    assert_eq!(lines.len(), 200);
    for (i, line) in lines.iter().enumerate() {
        assert_eq!(line.text, format!("{i}"));
    }
}

#[test]
fn a_notice_behind_white_space_is_still_a_notice() {
    let lines = conversation(&[turn("a", "", " \n<task-notification>x")], b"");
    assert!(lines.is_empty());
    let lines = conversation(&[turn("a", "", "see <task-notification>")], b"");
    assert_eq!(lines.len(), 1);
}

#[test]
fn an_ending_has_the_uuid_and_stamp_of_its_turn() {
    let found = endings(&[turn("a", "2026-08-31T14:35:02.100Z", DONE)]);
    assert_eq!(found[0].uuid, "a");
    assert_eq!(found[0].at, "2026-08-31T14:35:02.100Z");
    assert_eq!(
        found[0].summary,
        "Background command \"Retry building all targets\" completed (exit code 0)"
    );
}

#[test]
fn a_tag_is_read_up_to_its_end() {
    assert_eq!(tag_value("<a> x </a><a>y</a>", "a"), "x");
    assert_eq!(tag_value("</a><a>x", "a"), "");
    assert_eq!(tag_value("<b>x</b>", "a"), "");
}

#[test]
fn only_assistant_rows_say_something() {
    let parts = Json::Array(vec![Json::Object(vec![
        ("type".to_string(), Json::Text("text".to_string())),
        ("text".to_string(), Json::Text("hi".to_string())),
    ])]);
    let message = Json::Object(vec![("content".to_string(), parts)]);
    let row = Json::Object(vec![
        ("type".to_string(), Json::Text("assistant".to_string())),
        ("message".to_string(), message),
    ]);
    assert_eq!(said(&row).as_deref(), Some("hi"));
    assert_eq!(said(&Json::Null), None);
    assert_eq!(
        said(&Json::Object(vec![(
            "type".to_string(),
            Json::Text("user".to_string())
        )])),
        None
    );
    let rows = vec![row];
    assert!(turns_of_session(&rows).is_empty());
    assert_eq!(conversation_of(&[], &rows)[0].text, "hi");
}

/// Every kind of value survives the way out of the parser.
#[test]
fn a_row_is_read_with_all_that_it_holds() {
    let rows = read_rows(b"{\"a\":null,\"b\":[true,1.5,\"\\u00e9\"],\"c\":{\"d\":-7}}\nnope\n[]");
    assert_eq!(rows.len(), 2);
    assert!(matches!(rows[0].get("a"), Some(Json::Null)));
    assert!(rows[0].get("z").is_none());
    let items = rows[0].get_items("b").unwrap();
    assert!(matches!(items[0], Json::Bool(true)));
    assert!(matches!(&items[1], Json::Number(n) if n == "1.5"));
    assert!(matches!(&items[2], Json::Text(t) if t == "\u{e9}"));
    let inner = rows[0].get("c").unwrap();
    assert!(matches!(inner.get("d"), Some(Json::Number(n)) if n == "-7"));
    assert!(inner.get_text("d").is_none());
    assert!(matches!(&rows[1], Json::Array(items) if items.is_empty()));
}
