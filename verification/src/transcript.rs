//! Reading a session's transcript: who said what, and when a task ended.
//!
//! Nothing in here talks to a machine. A transcript is a byte slice with one
//! JSON row a line by the time it arrives. The rules matter because every
//! failure that they guard against is silent: a reader that matches nothing and
//! a session that said nothing produce the same empty output.
use vstd::hash_set::StringHashSet;
use vstd::prelude::*;
use vstd::string::{StrSliceExecFns, StringExecFns};

pub use crate::chronology::Line;

use crate::chronology::{chronological, line_models, sort, LineModel};
use crate::json::{json_value, parse_json, values, Json, JsonValue};
use crate::number::{digit, is_digit};
use crate::text::{
    begins, chars_of, join, joined, parted, same, split_once, starts_with, trim, trim_start,
    trimmed, trimmed_start, words,
};

verus! {

// ---------------------------------------------------------------------------
// What a transcript is made of

/// A turn on the human side of a transcript.
#[derive(Debug)]
pub struct HumanTurn {
    pub uuid: String,
    pub at: String,
    pub text: String,
    /// The session was working when it was typed, and reads it later.
    pub queued: bool,
}

/// What a [`HumanTurn`] holds.
pub struct HumanModel {
    pub uuid: Seq<char>,
    pub at: Seq<char>,
    pub text: Seq<char>,
    pub queued: bool,
}

impl View for HumanTurn {
    type V = HumanModel;

    open spec fn view(&self) -> HumanModel {
        HumanModel { uuid: self.uuid@, at: self.at@, text: self.text@, queued: self.queued }
    }
}

/// What a list of human turns holds.
pub open spec fn human_models(turns: Seq<HumanTurn>) -> Seq<HumanModel> {
    turns.map_values(|turn: HumanTurn| turn@)
}

/// An assistant turn, with the uuid that tells a new one from a repeat.
#[derive(Debug)]
pub struct Turn {
    pub uuid: String,
    pub at: String,
    pub text: String,
}

/// What a [`Turn`] holds.
pub struct TurnModel {
    pub uuid: Seq<char>,
    pub at: Seq<char>,
    pub text: Seq<char>,
}

impl View for Turn {
    type V = TurnModel;

    open spec fn view(&self) -> TurnModel {
        TurnModel { uuid: self.uuid@, at: self.at@, text: self.text@ }
    }
}

/// What a list of turns holds.
pub open spec fn turn_models(turns: Seq<Turn>) -> Seq<TurnModel> {
    turns.map_values(|turn: Turn| turn@)
}

/// A background task that finished, however it finished.
#[derive(Debug)]
pub struct Ending {
    pub uuid: String,
    pub at: String,
    /// `completed` or `killed`, as it was written down. Never assume the first.
    pub status: String,
    pub summary: String,
}

/// What an [`Ending`] holds.
pub struct EndingModel {
    pub uuid: Seq<char>,
    pub at: Seq<char>,
    pub status: Seq<char>,
    pub summary: Seq<char>,
}

impl View for Ending {
    type V = EndingModel;

    open spec fn view(&self) -> EndingModel {
        EndingModel {
            uuid: self.uuid@,
            at: self.at@,
            status: self.status@,
            summary: self.summary@,
        }
    }
}

/// What a list of endings holds.
pub open spec fn ending_models(endings: Seq<Ending>) -> Seq<EndingModel> {
    endings.map_values(|ending: Ending| ending@)
}

impl EndingModel {
    /// The one ending that is success.
    pub open spec fn is_ok(self) -> bool {
        self.status == "completed"@
    }
}

impl Ending {
    /// Whether this is the ending a caller can treat as success.
    pub fn ok(&self) -> (r: bool)
        ensures
            r == self@.is_ok(),
    {
        same(self.status.as_str(), "completed")
    }
}

// ---------------------------------------------------------------------------
// Rows

/// The rows of a transcript: its bytes, cut at each line feed.
pub open spec fn rows_of(bytes: Seq<u8>) -> Seq<Seq<u8>>
    decreases bytes.len(),
{
    if bytes.len() == 0 {
        seq![bytes]
    } else {
        let rows = rows_of(bytes.drop_last());
        if bytes.last() == 10 {
            rows.push(Seq::empty())
        } else {
            rows.drop_last().push(rows.last().push(bytes.last()))
        }
    }
}

/// The values of the rows that spell one, in order. The others are skipped.
pub open spec fn values_of(rows: Seq<Seq<u8>>) -> Seq<JsonValue>
    decreases rows.len(),
{
    if rows.len() == 0 {
        Seq::empty()
    } else {
        match json_value(rows.last()) {
            Some(value) => values_of(rows.drop_last()).push(value),
            None => values_of(rows.drop_last()),
        }
    }
}

/// What the rows of a transcript spell.
pub open spec fn row_values(bytes: Seq<u8>) -> Seq<JsonValue> {
    values_of(rows_of(bytes))
}

proof fn lemma_rows_not_empty(bytes: Seq<u8>)
    ensures
        rows_of(bytes).len() > 0,
    decreases bytes.len(),
{
    if bytes.len() > 0 {
        lemma_rows_not_empty(bytes.drop_last());
    }
}

/// Reads a row into the list, unless it spells no value.
fn read_row(row: &Vec<u8>, out: &mut Vec<Json>, Ghost(rows): Ghost<Seq<Seq<u8>>>)
    requires
        values(old(out)@) == values_of(rows),
    ensures
        values(final(out)@) == values_of(rows.push(row@)),
{
    proof {
        assert(rows.push(row@).drop_last() =~= rows);
    }
    if let Some(json) = parse_json(row.as_slice()) {
        let ghost was = out@;
        out.push(json);
        assert(values(out@) =~= values(was).push(json@));
    }
}

/// Reads the rows of a transcript. A row that spells no JSON value, as the first
/// one of a truncated tail, is skipped and does not take the rest with it.
pub fn read_rows(bytes: &[u8]) -> (r: Vec<Json>)
    ensures
        values(r@) == row_values(bytes@),
{
    let mut out: Vec<Json> = Vec::new();
    let mut row: Vec<u8> = Vec::new();
    let mut i: usize = 0;
    proof {
        assert(bytes@.take(0) =~= Seq::<u8>::empty());
        assert(rows_of(bytes@.take(0)).drop_last() =~= Seq::<Seq<u8>>::empty());
        assert(values(out@) =~= values_of(rows_of(bytes@.take(0)).drop_last()));
        assert(row@ =~= rows_of(bytes@.take(0)).last());
    }
    while i < bytes.len()
        invariant
            i <= bytes@.len(),
            values(out@) == values_of(rows_of(bytes@.take(i as int)).drop_last()),
            row@ == rows_of(bytes@.take(i as int)).last(),
        decreases bytes.len() - i,
    {
        let ghost rows = rows_of(bytes@.take(i as int));
        let byte: u8 = bytes[i];
        proof {
            assert(bytes@.take(i + 1).drop_last() =~= bytes@.take(i as int));
            lemma_rows_not_empty(bytes@.take(i as int));
        }
        if byte == 10 {
            read_row(&row, &mut out, Ghost(rows.drop_last()));
            row = Vec::new();
            proof {
                assert(rows.drop_last().push(rows.last()) =~= rows);
                assert(rows.push(Seq::empty()).drop_last() =~= rows);
                assert(row@ =~= Seq::<u8>::empty());
            }
        } else {
            row.push(byte);
            proof {
                assert(rows.drop_last().push(row@).drop_last() =~= rows.drop_last());
            }
        }
        i += 1;
    }
    proof {
        assert(bytes@.take(i as int) =~= bytes@);
        lemma_rows_not_empty(bytes@);
        assert(rows_of(bytes@).drop_last().push(rows_of(bytes@).last()) =~= rows_of(bytes@));
    }
    read_row(&row, &mut out, Ghost(rows_of(bytes@).drop_last()));
    out
}

/// The uuid of a row, empty where it has none.
pub open spec fn uuid_of(row: JsonValue) -> Seq<char> {
    match row.text_at("uuid"@) {
        Some(uuid) => uuid,
        None => Seq::empty(),
    }
}

/// The stamp of a row, empty where it has none.
pub open spec fn stamp_of(row: JsonValue) -> Seq<char> {
    match row.text_at("timestamp"@) {
        Some(stamp) => stamp,
        None => Seq::empty(),
    }
}

/// The text under a key of a row, empty where there is none.
fn text_or_empty(row: &Json, key: &str) -> (r: String)
    ensures
        r@ == (match row@.text_at(key@) {
            Some(text) => text,
            None => Seq::empty(),
        }),
{
    match row.get_text(key) {
        Some(text) => text.to_owned(),
        None => String::new(),
    }
}

/// The texts of the content parts that are text.
pub open spec fn text_parts(parts: Seq<JsonValue>) -> Seq<Seq<char>>
    decreases parts.len(),
{
    if parts.len() == 0 {
        Seq::empty()
    } else {
        let earlier = text_parts(parts.drop_last());
        let part = parts.last();
        match part.text_at("text"@) {
            Some(text) => if part.text_at("type"@) == Some("text"@) {
                earlier.push(text)
            } else {
                earlier
            },
            None => earlier,
        }
    }
}

/// What the content parts of a turn say: the parts that are text, one a line,
/// without the white space around them, and nothing where that leaves nothing.
pub open spec fn parts_said(parts: Seq<JsonValue>) -> Option<Seq<char>> {
    let text = trimmed(joined(text_parts(parts), "\n"@));
    if text.len() == 0 {
        None
    } else {
        Some(text)
    }
}

/// What a row says: an assistant turn says its text parts, and no other row
/// says anything. A tool call is not speech.
pub open spec fn row_said(row: JsonValue) -> Option<Seq<char>> {
    if row.text_at("type"@) != Some("assistant"@) {
        None
    } else {
        match row.at("message"@) {
            Some(message) => match message.items_at("content"@) {
                Some(parts) => parts_said(parts),
                None => None,
            },
            None => None,
        }
    }
}

/// What the content parts of a turn say.
fn say_parts(parts: &Vec<Json>) -> (r: Option<String>)
    ensures
        parts_said(values(parts@)) == (match r {
            Some(text) => Some(text@),
            None => None,
        }),
{
    let ghost all = values(parts@);
    let mut said: Vec<&str> = Vec::new();
    let mut i: usize = 0;
    while i < parts.len()
        invariant
            i <= parts@.len(),
            all == values(parts@),
            words(said@) == text_parts(all.take(i as int)),
        decreases parts.len() - i,
    {
        proof {
            assert(all.take(i + 1).drop_last() =~= all.take(i as int));
        }
        let is_text = match parts[i].get_text("type") {
            Some(kind) => same(kind, "text"),
            None => false,
        };
        if is_text {
            if let Some(text) = parts[i].get_text("text") {
                let ghost was = said@;
                said.push(text);
                assert(words(said@) =~= words(was).push(text@));
            }
        }
        i += 1;
    }
    assert(all.take(i as int) =~= all);
    let text = trim(join(&said, "\n").as_str());
    if text.as_str().is_empty() {
        None
    } else {
        Some(text)
    }
}

/// What an assistant turn said, or `None` for every other kind of row.
pub fn said(row: &Json) -> (r: Option<String>)
    ensures
        row_said(row@) == (match r {
            Some(text) => Some(text@),
            None => None,
        }),
{
    let spoken = match row.get_text("type") {
        Some(kind) => same(kind, "assistant"),
        None => false,
    };
    if !spoken {
        return None;
    }
    match row.get("message") {
        Some(message) => match message.get_items("content") {
            Some(parts) => say_parts(parts),
            None => None,
        },
        None => None,
    }
}

// ---------------------------------------------------------------------------
// The session's side

/// Whether one of the rows has a uuid.
pub open spec fn mentions(rows: Seq<JsonValue>, uuid: Seq<char>) -> bool {
    exists|i: int| 0 <= i < rows.len() && uuid_of(#[trigger] rows[i]) == uuid
}

/// Whether a row repeats an earlier one: earlier stretches are written back into
/// the file, and a row with a uuid that was seen before is such a copy.
pub open spec fn repeats(earlier: Seq<JsonValue>, row: JsonValue) -> bool {
    uuid_of(row).len() > 0 && mentions(earlier, uuid_of(row))
}

/// The session's lines of a conversation: what each row says, the first time
/// it is there.
pub open spec fn session_lines(rows: Seq<JsonValue>) -> Seq<LineModel>
    decreases rows.len(),
{
    if rows.len() == 0 {
        Seq::empty()
    } else {
        let earlier = session_lines(rows.drop_last());
        let row = rows.last();
        if repeats(rows.drop_last(), row) {
            earlier
        } else {
            match row_said(row) {
                Some(text) => earlier.push(
                    LineModel { at: stamp_of(row), who: "session"@, text },
                ),
                None => earlier,
            }
        }
    }
}

/// The session's turns: what each row with a uuid says, the first time it is
/// there.
pub open spec fn session_turns(rows: Seq<JsonValue>) -> Seq<TurnModel>
    decreases rows.len(),
{
    if rows.len() == 0 {
        Seq::empty()
    } else {
        let earlier = session_turns(rows.drop_last());
        let row = rows.last();
        if uuid_of(row).len() == 0 || repeats(rows.drop_last(), row) {
            earlier
        } else {
            match row_said(row) {
                Some(text) => earlier.push(
                    TurnModel { uuid: uuid_of(row), at: stamp_of(row), text },
                ),
                None => earlier,
            }
        }
    }
}

/// The uuids of rows, without the empty one.
pub open spec fn seen_uuids(rows: Seq<JsonValue>) -> Set<Seq<char>> {
    Set::new(|uuid: Seq<char>| uuid.len() > 0 && mentions(rows, uuid))
}

proof fn lemma_seen_next(rows: Seq<JsonValue>, row: JsonValue)
    ensures
        uuid_of(row).len() > 0 ==> seen_uuids(rows.push(row)) == seen_uuids(rows).insert(
            uuid_of(row),
        ),
        uuid_of(row).len() == 0 ==> seen_uuids(rows.push(row)) == seen_uuids(rows),
        repeats(rows, row) == (uuid_of(row).len() > 0 && seen_uuids(rows).contains(uuid_of(row))),
{
    let next = rows.push(row);
    assert(next[rows.len() as int] == row);
    assert forall|uuid: Seq<char>| #[trigger]
        mentions(next, uuid) == (uuid == uuid_of(row) || mentions(rows, uuid)) by {
        if mentions(rows, uuid) {
            let i = choose|i: int| 0 <= i < rows.len() && uuid_of(#[trigger] rows[i]) == uuid;
            assert(uuid_of(next[i]) == uuid);
        }
        if mentions(next, uuid) {
            let i = choose|i: int| 0 <= i < next.len() && uuid_of(#[trigger] next[i]) == uuid;
            if i < rows.len() {
                assert(uuid_of(rows[i]) == uuid);
            }
        }
    }
    if uuid_of(row).len() > 0 {
        assert(seen_uuids(next) =~= seen_uuids(rows).insert(uuid_of(row)));
    } else {
        assert(seen_uuids(next) =~= seen_uuids(rows));
    }
}

/// The session's lines of a conversation, from its rows.
pub fn lines_of_session(rows: &Vec<Json>) -> (r: Vec<Line>)
    ensures
        line_models(r@) == session_lines(values(rows@)),
{
    let ghost all = values(rows@);
    let mut seen = StringHashSet::new();
    let mut out: Vec<Line> = Vec::new();
    let mut i: usize = 0;
    proof {
        assert(seen@ =~= seen_uuids(all.take(0)));
        assert(line_models(out@) =~= session_lines(all.take(0)));
    }
    while i < rows.len()
        invariant
            i <= rows@.len(),
            all == values(rows@),
            seen@ == seen_uuids(all.take(i as int)),
            line_models(out@) == session_lines(all.take(i as int)),
        decreases rows.len() - i,
    {
        let row = &rows[i];
        proof {
            assert(all.take(i + 1).drop_last() =~= all.take(i as int));
            assert(all.take(i + 1) =~= all.take(i as int).push(row@));
            lemma_seen_next(all.take(i as int), row@);
        }
        i += 1;
        let uuid = text_or_empty(row, "uuid");
        if !uuid.as_str().is_empty() && !seen.insert(uuid) {
            continue;
        }
        if let Some(text) = said(row) {
            let line = Line { at: text_or_empty(row, "timestamp"), who: "session", text };
            let ghost was = out@;
            out.push(line);
            assert(line_models(out@) =~= line_models(was).push(line@));
        }
    }
    assert(all.take(i as int) =~= all);
    out
}

/// The session's turns, from its rows.
pub fn turns_of_session(rows: &Vec<Json>) -> (r: Vec<Turn>)
    ensures
        turn_models(r@) == session_turns(values(rows@)),
{
    let ghost all = values(rows@);
    let mut seen = StringHashSet::new();
    let mut out: Vec<Turn> = Vec::new();
    let mut i: usize = 0;
    proof {
        assert(seen@ =~= seen_uuids(all.take(0)));
        assert(turn_models(out@) =~= session_turns(all.take(0)));
    }
    while i < rows.len()
        invariant
            i <= rows@.len(),
            all == values(rows@),
            seen@ == seen_uuids(all.take(i as int)),
            turn_models(out@) == session_turns(all.take(i as int)),
        decreases rows.len() - i,
    {
        let row = &rows[i];
        proof {
            assert(all.take(i + 1).drop_last() =~= all.take(i as int));
            assert(all.take(i + 1) =~= all.take(i as int).push(row@));
            lemma_seen_next(all.take(i as int), row@);
        }
        i += 1;
        let uuid = text_or_empty(row, "uuid");
        if uuid.as_str().is_empty() || !seen.insert(uuid.clone()) {
            continue;
        }
        if let Some(text) = said(row) {
            let turn = Turn { uuid, at: text_or_empty(row, "timestamp"), text };
            let ghost was = out@;
            out.push(turn);
            assert(turn_models(out@) =~= turn_models(was).push(turn@));
        }
    }
    assert(all.take(i as int) =~= all);
    out
}

/// Every assistant turn, with the uuid that tells a new one from a repeat.
///
/// Of the turns with one uuid the first is kept. A waiter that counted a copy as
/// new would announce an old message as the answer it was waiting for.
pub fn spoken(bytes: &[u8]) -> (r: Vec<Turn>)
    ensures
        turn_models(r@) == session_turns(row_values(bytes@)),
{
    turns_of_session(&read_rows(bytes))
}

// ---------------------------------------------------------------------------
// The human side

/// Whether a turn on the human side was put there by a machine: task
/// notifications are injected as user turns, and nobody typed them.
pub open spec fn is_notice(text: Seq<char>) -> bool {
    begins(trimmed_start(text), "<task-notification>"@)
}

/// The person's lines of a conversation: the turns that somebody typed.
pub open spec fn human_lines(turns: Seq<HumanModel>) -> Seq<LineModel>
    decreases turns.len(),
{
    if turns.len() == 0 {
        Seq::empty()
    } else {
        let earlier = human_lines(turns.drop_last());
        let turn = turns.last();
        if is_notice(turn.text) {
            earlier
        } else {
            earlier.push(LineModel { at: turn.at, who: "pippijn"@, text: turn.text })
        }
    }
}

/// The person's lines of a conversation.
pub fn lines_of_human(turns: &[HumanTurn]) -> (r: Vec<Line>)
    ensures
        line_models(r@) == human_lines(human_models(turns@)),
{
    let ghost all = human_models(turns@);
    let mut out: Vec<Line> = Vec::new();
    let mut i: usize = 0;
    assert(line_models(out@) =~= human_lines(all.take(0)));
    while i < turns.len()
        invariant
            i <= turns@.len(),
            all == human_models(turns@),
            line_models(out@) == human_lines(all.take(i as int)),
        decreases turns.len() - i,
    {
        let turn = &turns[i];
        assert(all.take(i + 1).drop_last() =~= all.take(i as int));
        if !starts_with(trim_start(turn.text.as_str()), "<task-notification>") {
            let line = Line { at: turn.at.clone(), who: "pippijn", text: turn.text.clone() };
            let ghost was = out@;
            out.push(line);
            assert(line_models(out@) =~= line_models(was).push(line@));
        }
        i += 1;
    }
    assert(all.take(i as int) =~= all);
    out
}

/// Both sides of a conversation before they are put in order.
pub open spec fn both_sides(turns: Seq<HumanModel>, rows: Seq<JsonValue>) -> Seq<LineModel> {
    human_lines(turns) + session_lines(rows)
}

/// Both sides of the conversation, in order, from the session's rows.
pub fn conversation_of(turns: &[HumanTurn], rows: &Vec<Json>) -> (r: Vec<Line>)
    ensures
        chronological(both_sides(human_models(turns@), values(rows@)), line_models(r@)),
{
    let mut lines = lines_of_human(turns);
    let mut session = lines_of_session(rows);
    let ghost human = line_models(lines@);
    let ghost said = line_models(session@);
    lines.append(&mut session);
    assert(line_models(lines@) =~= human + said);
    sort(lines)
}

/// Both sides of the conversation, in order.
///
/// The human side comes as turns that are told apart already: a message typed
/// while the session is working is not stored as a user row, so the rows alone
/// would lose it.
pub fn conversation(turns: &[HumanTurn], bytes: &[u8]) -> (r: Vec<Line>)
    ensures
        chronological(both_sides(human_models(turns@), row_values(bytes@)), line_models(r@)),
{
    conversation_of(turns, &read_rows(bytes))
}

// ---------------------------------------------------------------------------
// Task endings

/// What stands between `<tag>` and the next `</tag>`, without the white space
/// around it, and nothing where one of them is missing.
pub open spec fn tag_text(text: Seq<char>, tag: Seq<char>) -> Seq<char> {
    match parted(text, "<"@ + tag + ">"@) {
        Some((_, rest)) => match parted(rest, "</"@ + tag + ">"@) {
            Some((value, _)) => trimmed(value),
            None => Seq::empty(),
        },
        None => Seq::empty(),
    }
}

/// What stands in a tag.
pub fn tag_value(text: &str, tag: &str) -> (r: String)
    ensures
        r@ == tag_text(text@, tag@),
{
    let mut open = "<".to_owned();
    open.append(tag);
    open.append(">");
    let mut close = "</".to_owned();
    close.append(tag);
    close.append(">");
    match split_once(text, open.as_str()) {
        Some((_, rest)) => match split_once(rest, close.as_str()) {
            Some((value, _)) => trim(value),
            None => String::new(),
        },
        None => String::new(),
    }
}

/// The ending that a turn on the human side reports. What a person typed is no
/// notification, whatever tags it quotes; and a notification without a status is
/// a shape that nothing is known about, and no ending.
pub open spec fn ending_of(turn: HumanModel) -> Option<EndingModel> {
    let status = tag_text(turn.text, "status"@);
    if is_notice(turn.text) && status.len() > 0 {
        Some(
            EndingModel {
                uuid: turn.uuid,
                at: turn.at,
                status,
                summary: tag_text(turn.text, "summary"@),
            },
        )
    } else {
        None
    }
}

/// The endings that the human side reports, in its order.
pub open spec fn endings_of(turns: Seq<HumanModel>) -> Seq<EndingModel>
    decreases turns.len(),
{
    if turns.len() == 0 {
        Seq::empty()
    } else {
        match ending_of(turns.last()) {
            Some(ending) => endings_of(turns.drop_last()).push(ending),
            None => endings_of(turns.drop_last()),
        }
    }
}

/// The ending that a turn on the human side reports.
pub fn ending_in(turn: &HumanTurn) -> (r: Option<Ending>)
    ensures
        ending_of(turn@) == (match r {
            Some(ending) => Some(ending@),
            None => None,
        }),
{
    if !starts_with(trim_start(turn.text.as_str()), "<task-notification>") {
        return None;
    }
    let status = tag_value(turn.text.as_str(), "status");
    if status.as_str().is_empty() {
        return None;
    }
    Some(
        Ending {
            uuid: turn.uuid.clone(),
            at: turn.at.clone(),
            status,
            summary: tag_value(turn.text.as_str(), "summary"),
        },
    )
}

/// Background-task endings recorded in the transcript, newest last.
///
/// This is the only exact signal that a long job finished. The rows are written
/// by the harness itself, with a status that tells `completed` from `killed`.
pub fn endings(turns: &[HumanTurn]) -> (r: Vec<Ending>)
    ensures
        ending_models(r@) == endings_of(human_models(turns@)),
{
    let ghost all = human_models(turns@);
    let mut out: Vec<Ending> = Vec::new();
    let mut i: usize = 0;
    assert(ending_models(out@) =~= endings_of(all.take(0)));
    while i < turns.len()
        invariant
            i <= turns@.len(),
            all == human_models(turns@),
            ending_models(out@) == endings_of(all.take(i as int)),
        decreases turns.len() - i,
    {
        assert(all.take(i + 1).drop_last() =~= all.take(i as int));
        if let Some(ending) = ending_in(&turns[i]) {
            let ghost was = out@;
            out.push(ending);
            assert(ending_models(out@) =~= ending_models(was).push(ending@));
        }
        i += 1;
    }
    assert(all.take(i as int) =~= all);
    out
}

// ---------------------------------------------------------------------------
// The clock

/// Whether a text is a time of day, `HH:MM`.
pub open spec fn is_clock(s: Seq<char>) -> bool {
    s.len() == 5 && is_digit(s[0]) && is_digit(s[1]) && s[2] == ':' && is_digit(s[3]) && is_digit(
        s[4],
    )
}

/// The time of day in a stamp: the five characters behind the first `T`, where
/// they are one, and else the whole stamp.
pub open spec fn clock_of(stamp: Seq<char>) -> Seq<char> {
    match parted(stamp, "T"@) {
        Some((_, time)) => if time.len() >= 5 && is_clock(time.take(5)) {
            time.take(5)
        } else {
            stamp
        },
        None => stamp,
    }
}

/// `2026-08-31T14:31:24.717Z` as `14:31`.
///
/// Anything that is not that shape comes back whole: a stamp given back
/// unchanged is visibly not a clock, and a mangled one is not.
pub fn clock(stamp: &str) -> (r: String)
    ensures
        r@ == clock_of(stamp@),
{
    if let Some((_, time)) = split_once(stamp, "T") {
        let c = chars_of(time);
        if c.len() >= 5 && digit(c[0]) && digit(c[1]) && c[2] == ':' && digit(c[3]) && digit(c[4]) {
            assert(time@.take(5) =~= time@.subrange(0, 5));
            return time.substring_char(0, 5).to_owned();
        }
    }
    stamp.to_owned()
}

} // verus!
