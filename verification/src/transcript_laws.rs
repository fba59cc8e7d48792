//! What holds of every transcript.
use vstd::prelude::*;

use crate::chronology::{
    chronological, law_sorting_keeps_counts, law_sorting_keeps_every_line, lemma_member,
    line_models, Line, LineModel,
};
use crate::json::{json_value, JsonValue};
use crate::text::{
    is_space, joined, lemma_found, occurs, parted, trimmed, trimmed_end, trimmed_start,
};
use crate::text_laws::{law_parted_at, law_parting, law_trimming_the_start, white_between};
use crate::transcript::{
    both_sides, clock_of, ending_models, ending_of, endings_of, human_lines, human_models, is_clock, is_notice,
    mentions, parts_said, repeats, row_said, row_values, rows_of, session_lines, session_turns,
    stamp_of, tag_text, text_parts, turn_models, uuid_of, values_of, Ending, EndingModel,
    HumanModel, HumanTurn, Turn, TurnModel,
};

verus! {

proof fn lemma_rows_join(a: Seq<u8>, b: Seq<u8>)
    ensures
        rows_of(a + seq![10u8] + b) == rows_of(a) + rows_of(b),
        rows_of(b).len() > 0,
    decreases b.len(),
{
    let all = a + seq![10u8] + b;
    if b.len() == 0 {
        assert(all.drop_last() =~= a);
        assert(all.last() == 10);
        assert(rows_of(all) == rows_of(a).push(Seq::empty()));
        assert(b =~= Seq::<u8>::empty());
        assert(rows_of(a) + rows_of(b) =~= rows_of(a).push(Seq::empty()));
    } else {
        assert(all.drop_last() =~= a + seq![10u8] + b.drop_last());
        assert(all.last() == b.last());
        lemma_rows_join(a, b.drop_last());
        let head = rows_of(a);
        let tail = rows_of(b.drop_last());
        if b.last() == 10 {
            assert((head + tail).push(Seq::empty()) =~= head + tail.push(Seq::empty()));
        } else {
            assert((head + tail).last() == tail.last());
            assert((head + tail).drop_last() =~= head + tail.drop_last());
            let grown = tail.last().push(b.last());
            assert((head + tail.drop_last()).push(grown) =~= head + tail.drop_last().push(grown));
        }
    }
}

proof fn lemma_values_join(a: Seq<Seq<u8>>, b: Seq<Seq<u8>>)
    ensures
        values_of(a + b) == values_of(a) + values_of(b),
    decreases b.len(),
{
    if b.len() == 0 {
        assert(a + b =~= a);
        assert(values_of(a) + values_of(b) =~= values_of(a));
    } else {
        assert((a + b).drop_last() =~= a + b.drop_last());
        lemma_values_join(a, b.drop_last());
        match json_value(b.last()) {
            Some(value) => {
                assert((values_of(a) + values_of(b.drop_last())).push(value) =~= values_of(a)
                    + values_of(b.drop_last()).push(value));
            },
            None => {},
        }
    }
}

/// What a transcript spells is what the part before a line feed spells and then
/// what the part behind it spells.
pub proof fn law_rows_are_read_one_by_one(a: Seq<u8>, b: Seq<u8>)
    ensures
        row_values(a + seq![10u8] + b) == row_values(a) + row_values(b),
{
    lemma_rows_join(a, b);
    lemma_values_join(rows_of(a), rows_of(b));
}

proof fn lemma_one_row(a: Seq<u8>)
    requires
        !a.contains(10u8),
    ensures
        rows_of(a) == seq![a],
    decreases a.len(),
{
    if a.len() > 0 {
        assert(!a.drop_last().contains(10u8)) by {
            if a.drop_last().contains(10u8) {
                let i = choose|i: int| 0 <= i < a.drop_last().len() && a.drop_last()[i] == 10u8;
                assert(a[i] == 10u8);
            }
        }
        lemma_one_row(a.drop_last());
        assert(a[a.len() - 1] == a.last());
        assert(a.drop_last().push(a.last()) =~= a);
        assert(seq![a.drop_last()].drop_last().push(a) =~= seq![a]);
    }
}

/// A row that spells no value, as the half line at the start of a truncated
/// tail, is skipped and does not take the rest with it.
pub proof fn law_unreadable_row_is_skipped(row: Seq<u8>, rest: Seq<u8>)
    requires
        !row.contains(10u8),
        json_value(row) is None,
    ensures
        row_values(row + seq![10u8] + rest) == row_values(rest),
{
    law_rows_are_read_one_by_one(row, rest);
    lemma_one_row(row);
    assert(seq![row].drop_last() =~= Seq::<Seq<u8>>::empty());
    assert(values_of(seq![row].drop_last()) =~= Seq::<JsonValue>::empty());
    assert(values_of(seq![row]) == values_of(seq![row].drop_last()));
    assert(row_values(row) =~= Seq::<JsonValue>::empty());
    assert(row_values(row) + row_values(rest) =~= row_values(rest));
}

proof fn lemma_repeats_stay(rows: Seq<JsonValue>, more: Seq<JsonValue>, row: JsonValue)
    requires
        repeats(rows, row),
    ensures
        repeats(rows + more, row),
{
    let i = choose|i: int| 0 <= i < rows.len() && uuid_of(#[trigger] rows[i]) == uuid_of(row);
    assert((rows + more)[i] == rows[i]);
}

/// Rows that were there already and are written back into the file add nothing
/// to the session's turns, and nor do rows without a uuid.
pub proof fn law_copies_add_no_turns(rows: Seq<JsonValue>, copies: Seq<JsonValue>)
    requires
        forall|i: int|
            0 <= i < copies.len() ==> uuid_of(#[trigger] copies[i]).len() == 0 || repeats(
                rows,
                copies[i],
            ),
    ensures
        session_turns(rows + copies) == session_turns(rows),
    decreases copies.len(),
{
    if copies.len() == 0 {
        assert(rows + copies =~= rows);
    } else {
        let fewer = copies.drop_last();
        assert((rows + copies).drop_last() =~= rows + fewer);
        assert forall|i: int| 0 <= i < fewer.len() implies uuid_of(#[trigger] fewer[i]).len() == 0
            || repeats(rows, fewer[i]) by {
            assert(fewer[i] == copies[i]);
        }
        law_copies_add_no_turns(rows, fewer);
        let row = copies[copies.len() - 1];
        if uuid_of(row).len() > 0 {
            lemma_repeats_stay(rows, fewer, row);
        }
    }
}

/// Rows that were there already and are written back into the file add nothing
/// to the session's lines. A row without a uuid cannot be told from a new one.
pub proof fn law_copies_add_no_lines(rows: Seq<JsonValue>, copies: Seq<JsonValue>)
    requires
        forall|i: int| 0 <= i < copies.len() ==> repeats(rows, #[trigger] copies[i]),
    ensures
        session_lines(rows + copies) == session_lines(rows),
    decreases copies.len(),
{
    if copies.len() == 0 {
        assert(rows + copies =~= rows);
    } else {
        let fewer = copies.drop_last();
        assert((rows + copies).drop_last() =~= rows + fewer);
        assert forall|i: int| 0 <= i < fewer.len() implies repeats(rows, #[trigger] fewer[i]) by {
            assert(fewer[i] == copies[i]);
        }
        law_copies_add_no_lines(rows, fewer);
        lemma_repeats_stay(rows, fewer, copies[copies.len() - 1]);
    }
}

/// Rows that come behind others take away none of the session's turns and change
/// none.
pub proof fn law_turns_stay(rows: Seq<JsonValue>, more: Seq<JsonValue>)
    ensures
        session_turns(rows).is_prefix_of(session_turns(rows + more)),
    decreases more.len(),
{
    if more.len() == 0 {
        assert(rows + more =~= rows);
    } else {
        assert((rows + more).drop_last() =~= rows + more.drop_last());
        law_turns_stay(rows, more.drop_last());
    }
}

/// Every turn has a uuid, the rows mention it, and no two turns share one.
pub proof fn law_turns_are_distinct(rows: Seq<JsonValue>)
    ensures
        forall|i: int|
            0 <= i < session_turns(rows).len() ==> (#[trigger] session_turns(rows)[i]).uuid.len()
                > 0 && mentions(rows, session_turns(rows)[i].uuid),
        forall|i: int, j: int|
            0 <= i < j < session_turns(rows).len() ==> (#[trigger] session_turns(rows)[i]).uuid != (
            #[trigger] session_turns(rows)[j]).uuid,
    decreases rows.len(),
{
    if rows.len() > 0 {
        let fewer = rows.drop_last();
        law_turns_are_distinct(fewer);
        let before = session_turns(fewer);
        let turns = session_turns(rows);
        assert forall|uuid: Seq<char>| #[trigger] mentions(fewer, uuid) implies mentions(
            rows,
            uuid,
        ) by {
            let i = choose|i: int| 0 <= i < fewer.len() && uuid_of(#[trigger] fewer[i]) == uuid;
            assert(uuid_of(rows[i]) == uuid);
        }
        assert(uuid_of(rows[rows.len() - 1]) == uuid_of(rows.last()));
        assert(mentions(rows, uuid_of(rows.last())));
        assert forall|i: int| 0 <= i < turns.len() implies (#[trigger] turns[i]).uuid.len() > 0
            && mentions(rows, turns[i].uuid) by {
            if i < before.len() {
                assert(turns[i] == before[i]);
            }
        }
        assert forall|i: int, j: int| 0 <= i < j < turns.len() implies (#[trigger] turns[i]).uuid
            != (#[trigger] turns[j]).uuid by {
            assert(turns[i] == before[i]);
            if j < before.len() {
                assert(turns[j] == before[j]);
            }
        }
    }
}

proof fn lemma_trimmed_empty()
    ensures
        trimmed(Seq::empty()) == Seq::<char>::empty(),
{
    let nothing = Seq::<char>::empty();
    assert(trimmed_start(nothing) == nothing);
    assert(trimmed_end(nothing) == nothing);
}

/// A turn without a text part says nothing, however many tool calls it makes.
pub proof fn law_tool_calls_are_not_speech(parts: Seq<JsonValue>)
    requires
        forall|i: int|
            0 <= i < parts.len() ==> (#[trigger] parts[i]).text_at("type"@) != Some("text"@),
    ensures
        parts_said(parts) is None,
{
    lemma_no_text_parts(parts);
    lemma_trimmed_empty();
    assert(joined(text_parts(parts), "\n"@) =~= Seq::<char>::empty());
}

proof fn lemma_no_text_parts(parts: Seq<JsonValue>)
    requires
        forall|i: int|
            0 <= i < parts.len() ==> (#[trigger] parts[i]).text_at("type"@) != Some("text"@),
    ensures
        text_parts(parts) == Seq::<Seq<char>>::empty(),
    decreases parts.len(),
{
    if parts.len() > 0 {
        assert(parts[parts.len() - 1] == parts.last());
        assert forall|i: int| 0 <= i < parts.drop_last().len() implies (
        #[trigger] parts.drop_last()[i]).text_at("type"@) != Some("text"@) by {
            assert(parts.drop_last()[i] == parts[i]);
        }
        lemma_no_text_parts(parts.drop_last());
    }
}

/// Every line of the session says something.
pub proof fn law_session_lines_say_something(rows: Seq<JsonValue>)
    ensures
        forall|i: int|
            0 <= i < session_lines(rows).len() ==> (#[trigger] session_lines(rows)[i]).text.len()
                > 0 && session_lines(rows)[i].who == "session"@,
    decreases rows.len(),
{
    if rows.len() > 0 {
        let before = session_lines(rows.drop_last());
        law_session_lines_say_something(rows.drop_last());
        assert forall|i: int| 0 <= i < session_lines(rows).len() implies (
        #[trigger] session_lines(rows)[i]).text.len() > 0 && session_lines(rows)[i].who
            == "session"@ by {
            if i < before.len() {
                assert(session_lines(rows)[i] == before[i]);
            }
        }
    }
}

proof fn lemma_human_lines(turns: Seq<HumanModel>)
    ensures
        forall|i: int|
            0 <= i < human_lines(turns).len() ==> !is_notice(
                (#[trigger] human_lines(turns)[i]).text,
            ) && human_lines(turns)[i].who == "pippijn"@,
    decreases turns.len(),
{
    if turns.len() > 0 {
        let before = human_lines(turns.drop_last());
        lemma_human_lines(turns.drop_last());
        assert forall|i: int| 0 <= i < human_lines(turns).len() implies !is_notice(
            (#[trigger] human_lines(turns)[i]).text,
        ) && human_lines(turns)[i].who == "pippijn"@ by {
            if i < before.len() {
                assert(human_lines(turns)[i] == before[i]);
            }
        }
    }
}

/// In a conversation no task notification stands under the person's name.
pub proof fn law_notices_are_nobodys_words(
    turns: Seq<HumanModel>,
    rows: Seq<JsonValue>,
    lines: Seq<LineModel>,
    i: int,
)
    requires
        chronological(both_sides(turns, rows), lines),
        0 <= i < lines.len(),
        lines[i].who == "pippijn"@,
    ensures
        !is_notice(lines[i].text),
{
    let all = both_sides(turns, rows);
    lemma_member(all, lines, lines[i]);
    assert(lines.contains(lines[i]));
    let k = choose|k: int| 0 <= k < all.len() && all[k] == lines[i];
    lemma_human_lines(turns);
    law_session_lines_say_something(rows);
    let human = human_lines(turns);
    if k < human.len() {
        assert(human[k] == lines[i]);
    } else {
        assert(session_lines(rows)[k - human.len()] == lines[i]);
        reveal_strlit("pippijn");
        reveal_strlit("session");
        assert("pippijn"@[0] != "session"@[0]);
    }
}

/// A conversation holds every line of both sides, and no other.
pub proof fn law_conversation_holds_both_sides(
    turns: Seq<HumanModel>,
    rows: Seq<JsonValue>,
    lines: Seq<LineModel>,
    line: LineModel,
)
    requires
        chronological(both_sides(turns, rows), lines),
    ensures
        lines.contains(line) <==> human_lines(turns).contains(line) || session_lines(
            rows,
        ).contains(line),
{
    let human = human_lines(turns);
    let session = session_lines(rows);
    let all = both_sides(turns, rows);
    lemma_member(all, lines, line);
    if human.contains(line) {
        let k = choose|k: int| 0 <= k < human.len() && human[k] == line;
        assert(all[k] == line);
    }
    if session.contains(line) {
        let k = choose|k: int| 0 <= k < session.len() && session[k] == line;
        assert(all[human.len() + k] == line);
    }
    if all.contains(line) {
        let k = choose|k: int| 0 <= k < all.len() && all[k] == line;
        if k < human.len() {
            assert(human[k] == line);
        } else {
            assert(session[k - human.len()] == line);
        }
    }
}

/// Every ending comes from a turn that reports it, and has a status.
pub proof fn law_endings_are_reported(turns: Seq<HumanModel>)
    ensures
        forall|i: int|
            0 <= i < endings_of(turns).len() ==> (#[trigger] endings_of(turns)[i]).status.len() > 0
                && exists|k: int|
                0 <= k < turns.len() && ending_of(#[trigger] turns[k]) == Some(
                    endings_of(turns)[i],
                ),
    decreases turns.len(),
{
    if turns.len() > 0 {
        let fewer = turns.drop_last();
        let before = endings_of(fewer);
        let all = endings_of(turns);
        law_endings_are_reported(fewer);
        assert forall|i: int| 0 <= i < all.len() implies (#[trigger] all[i]).status.len() > 0
            && exists|k: int|
            0 <= k < turns.len() && ending_of(#[trigger] turns[k]) == Some(all[i]) by {
            if i < before.len() {
                assert(all[i] == before[i]);
                let k = choose|k: int|
                    0 <= k < fewer.len() && ending_of(#[trigger] fewer[k]) == Some(before[i]);
                assert(ending_of(turns[k]) == Some(all[i]));
            } else {
                assert(ending_of(turns[turns.len() - 1]) == Some(all[i]));
            }
        }
    }
}

/// A turn is the person's own words or reports an ending, and never both:
/// ordinary conversation does not look like a task ending.
pub proof fn law_conversation_is_no_ending(turn: HumanModel)
    ensures
        !is_notice(turn.text) ==> ending_of(turn) is None && endings_of(seq![turn]).len() == 0,
        ending_of(turn) is Some ==> human_lines(seq![turn]).len() == 0,
{
    let one = seq![turn];
    assert(one.drop_last() =~= Seq::<HumanModel>::empty());
    assert(endings_of(one.drop_last()).len() == 0);
    assert(human_lines(one.drop_last()).len() == 0);
}

/// Every turn that reports an ending gives that ending.
pub proof fn law_a_reported_ending_is_there(turns: Seq<HumanModel>, k: int)
    requires
        0 <= k < turns.len(),
    ensures
        ending_of(turns[k]) matches Some(ending) ==> endings_of(turns).contains(ending),
    decreases turns.len(),
{
    let all = endings_of(turns);
    if let Some(ending) = ending_of(turns[k]) {
        if k == turns.len() - 1 {
            assert(all[all.len() - 1] == ending);
        } else {
            let fewer = turns.drop_last();
            assert(fewer[k] == turns[k]);
            law_a_reported_ending_is_there(fewer, k);
            let before = endings_of(fewer);
            let i = choose|i: int| 0 <= i < before.len() && before[i] == ending;
            assert(all[i] == ending);
        }
    }
}

/// Endings keep the order of the turns, and later turns take none away: what is
/// newest stands last.
pub proof fn law_endings_stay(turns: Seq<HumanModel>, more: Seq<HumanModel>)
    ensures
        endings_of(turns + more) == endings_of(turns) + endings_of(more),
    decreases more.len(),
{
    if more.len() == 0 {
        assert(turns + more =~= turns);
        assert(endings_of(turns) + endings_of(more) =~= endings_of(turns));
    } else {
        assert((turns + more).drop_last() =~= turns + more.drop_last());
        law_endings_stay(turns, more.drop_last());
        assert(endings_of(turns + more) =~= endings_of(turns) + endings_of(more));
    }
}

/// What is shown for a stamp is a time of day or the whole stamp.
pub proof fn law_a_clock_is_a_clock_or_untouched(stamp: Seq<char>)
    ensures
        is_clock(clock_of(stamp)) || clock_of(stamp) == stamp,
{
}

// ---------------------------------------------------------------------------
// Rows

/// A row is one value, or none where it spells none.
pub proof fn law_one_row_is_one_value(row: Seq<u8>)
    requires
        !row.contains(10u8),
    ensures
        row_values(row) == match json_value(row) {
            Some(value) => seq![value],
            None => Seq::empty(),
        },
{
    lemma_one_row(row);
    let one = seq![row];
    assert(one.drop_last() =~= Seq::<Seq<u8>>::empty());
    assert(values_of(one.drop_last()) =~= Seq::<JsonValue>::empty());
    assert(row_values(row) =~= match json_value(row) {
        Some(value) => seq![value],
        None => Seq::empty(),
    });
}

/// The uuid and the stamp of a row are the strings under those keys, and nothing
/// where there is no string.
pub proof fn law_uuid_and_stamp_of_a_row(row: JsonValue)
    ensures
        uuid_of(row) == match row.at("uuid"@) {
            Some(JsonValue::Text(uuid)) => uuid,
            _ => Seq::empty(),
        },
        stamp_of(row) == match row.at("timestamp"@) {
            Some(JsonValue::Text(stamp)) => stamp,
            _ => Seq::empty(),
        },
{
}

/// A row says something exactly where its type is that of an assistant turn and
/// the content of its message is a list of parts that say it.
pub proof fn law_what_a_row_says(row: JsonValue, text: Seq<char>)
    ensures
        row_said(row) == Some(text) <==> {
            &&& row.at("type"@) == Some(JsonValue::Text("assistant"@))
            &&& row.at("message"@) matches Some(message)
            &&& message.at("content"@) matches Some(JsonValue::Array(parts))
            &&& parts_said(parts) == Some(text)
        },
{
}

/// Parts say the text of each part whose type is text, one a line, without the
/// white space around it all; and nothing where that leaves nothing.
pub proof fn law_what_parts_say(parts: Seq<JsonValue>)
    ensures
        ({
            let texts = parts.filter_map(
                |part: JsonValue|
                    match (part.at("type"@), part.at("text"@)) {
                        (Some(JsonValue::Text(kind)), Some(JsonValue::Text(text))) => if kind
                            == "text"@ {
                            Some(text)
                        } else {
                            None
                        },
                        _ => None,
                    },
            );
            let text = trimmed(joined(texts, "\n"@));
            parts_said(parts) == if text.len() == 0 {
                None
            } else {
                Some(text)
            }
        }),
{
    lemma_text_parts(parts);
}

proof fn lemma_text_parts(parts: Seq<JsonValue>)
    ensures
        text_parts(parts) == parts.filter_map(
            |part: JsonValue|
                match (part.at("type"@), part.at("text"@)) {
                    (Some(JsonValue::Text(kind)), Some(JsonValue::Text(text))) => if kind
                        == "text"@ {
                        Some(text)
                    } else {
                        None
                    },
                    _ => None,
                },
        ),
    decreases parts.len(),
{
    if parts.len() > 0 {
        lemma_text_parts(parts.drop_last());
        let part = parts.last();
        if part.text_at("text"@) is Some && part.text_at("type"@) == Some("text"@) {
            let earlier = text_parts(parts.drop_last());
            let text = part.text_at("text"@)->0;
            assert(earlier.push(text) =~= earlier + seq![text]);
        }
    }
}

/// One more row adds what it says at the end, and changes nothing before. It
/// adds a turn where it has a uuid that no row before it has; and a line where
/// it has such a uuid or none.
pub proof fn law_one_more_row(rows: Seq<JsonValue>, row: JsonValue)
    ensures
        ({
            let uuid = uuid_of(row);
            let first = forall|i: int| 0 <= i < rows.len() ==> uuid_of(#[trigger] rows[i]) != uuid;
            &&& session_turns(rows.push(row)) == session_turns(rows) + match row_said(row) {
                Some(text) => if uuid.len() > 0 && first {
                    seq![TurnModel { uuid, at: stamp_of(row), text }]
                } else {
                    Seq::empty()
                },
                None => Seq::empty(),
            }
            &&& session_lines(rows.push(row)) == session_lines(rows) + match row_said(row) {
                Some(text) => if uuid.len() == 0 || first {
                    seq![LineModel { at: stamp_of(row), who: "session"@, text }]
                } else {
                    Seq::empty()
                },
                None => Seq::empty(),
            }
        }),
        session_turns(Seq::empty()) == Seq::<TurnModel>::empty(),
        session_lines(Seq::empty()) == Seq::<LineModel>::empty(),
{
    let next = rows.push(row);
    assert(next.drop_last() =~= rows);
    assert(next.last() == row);
    match row_said(row) {
        Some(text) => {
            let turn = TurnModel { uuid: uuid_of(row), at: stamp_of(row), text };
            let line = LineModel { at: stamp_of(row), who: "session"@, text };
            assert(session_turns(rows).push(turn) =~= session_turns(rows) + seq![turn]);
            assert(session_lines(rows).push(line) =~= session_lines(rows) + seq![line]);
        },
        None => {},
    }
    assert(session_turns(rows) + Seq::empty() =~= session_turns(rows));
    assert(session_lines(rows) + Seq::empty() =~= session_lines(rows));
}

// ---------------------------------------------------------------------------
// Both sides

/// A turn was put there by a machine exactly where, behind white space at most,
/// it begins with the tag of a task notification.
pub proof fn law_what_a_notice_is(text: Seq<char>)
    ensures
        is_notice(text) <==> exists|at: int|
            {
                &&& 0 <= at
                &&& at + "<task-notification>"@.len() <= text.len()
                &&& white_between(text, 0, at)
                &&& #[trigger] text.subrange(at, at + "<task-notification>"@.len())
                    == "<task-notification>"@
            },
{
    let tag = "<task-notification>"@;
    reveal_strlit("<task-notification>");
    let from = law_trimming_the_start(text);
    let rest = text.skip(from);
    if is_notice(text) {
        assert(rest.subrange(0, tag.len() as int) == tag);
        assert(text.subrange(from, from + tag.len()) =~= tag);
    }
    if exists|at: int|
        {
            &&& 0 <= at
            &&& at + "<task-notification>"@.len() <= text.len()
            &&& white_between(text, 0, at)
            &&& #[trigger] text.subrange(at, at + "<task-notification>"@.len())
                == "<task-notification>"@
        } {
        let at = choose|at: int|
            {
                &&& 0 <= at
                &&& at + "<task-notification>"@.len() <= text.len()
                &&& white_between(text, 0, at)
                &&& #[trigger] text.subrange(at, at + "<task-notification>"@.len())
                    == "<task-notification>"@
            };
        assert(text.subrange(at, at + tag.len())[0] == tag[0]);
        assert(text[at] == '<');
        assert(!is_space(text[at]));
        if from < at {
            assert(is_space(text[from]));
        }
        if at < from {
            assert(is_space(text[at]));
        }
        assert(rest.subrange(0, tag.len() as int) =~= tag);
    }
}

/// The person's lines are the turns that no machine put there, all of them and
/// in their order, each under the person's name with its own stamp and text.
/// Whether a message was read at once or queued makes no difference.
pub proof fn law_the_persons_lines(turns: Seq<HumanModel>)
    ensures
        human_lines(turns) == turns.filter_map(
            |turn: HumanModel|
                if is_notice(turn.text) {
                    None
                } else {
                    Some(LineModel { at: turn.at, who: "pippijn"@, text: turn.text })
                },
        ),
    decreases turns.len(),
{
    if turns.len() > 0 {
        law_the_persons_lines(turns.drop_last());
        let turn = turns.last();
        let earlier = human_lines(turns.drop_last());
        let line = LineModel { at: turn.at, who: "pippijn"@, text: turn.text };
        assert(earlier.push(line) =~= earlier + seq![line]);
    }
}

/// Every message that somebody typed is a line of the conversation under the
/// person's name, with its stamp and its text, also where it was typed while the
/// session was working.
pub proof fn law_what_was_typed_is_shown(
    turns: Seq<HumanTurn>,
    rows: Seq<JsonValue>,
    lines: Seq<Line>,
    k: int,
)
    requires
        chronological(both_sides(human_models(turns), rows), line_models(lines)),
        0 <= k < turns.len(),
        !is_notice(turns[k].text@),
    ensures
        exists|j: int|
            {
                &&& 0 <= j < lines.len()
                &&& (#[trigger] lines[j]).at@ == turns[k].at@
                &&& lines[j].who@ == "pippijn"@
                &&& lines[j].text@ == turns[k].text@
            },
{
    let models = human_models(turns);
    let line = LineModel { at: turns[k].at@, who: "pippijn"@, text: turns[k].text@ };
    assert(models[k] == turns[k]@);
    lemma_typed_is_a_line(models, k);
    law_conversation_holds_both_sides(models, rows, line_models(lines), line);
    let shown = line_models(lines);
    let j = choose|j: int| 0 <= j < shown.len() && shown[j] == line;
    assert(lines[j]@ == line);
}

proof fn lemma_typed_is_a_line(turns: Seq<HumanModel>, k: int)
    requires
        0 <= k < turns.len(),
        !is_notice(turns[k].text),
    ensures
        human_lines(turns).contains(
            LineModel { at: turns[k].at, who: "pippijn"@, text: turns[k].text },
        ),
    decreases turns.len(),
{
    let all = human_lines(turns);
    let line = LineModel { at: turns[k].at, who: "pippijn"@, text: turns[k].text };
    if k == turns.len() - 1 {
        assert(all[all.len() - 1] == line);
    } else {
        let fewer = turns.drop_last();
        assert(fewer[k] == turns[k]);
        lemma_typed_is_a_line(fewer, k);
        let before = human_lines(fewer);
        let i = choose|i: int| 0 <= i < before.len() && before[i] == line;
        assert(all[i] == line);
    }
}

/// The conversation has as many lines under the person's name as there are turns
/// that somebody typed, and those with one stamp stand in the order of the
/// turns.
pub proof fn law_typed_messages_keep_number_and_order(
    turns: Seq<HumanModel>,
    rows: Seq<JsonValue>,
    lines: Seq<LineModel>,
    at: Seq<char>,
)
    requires
        chronological(both_sides(turns, rows), lines),
    ensures
        lines.filter(|line: LineModel| line.who == "pippijn"@).len() == turns.filter(
            |turn: HumanModel| !is_notice(turn.text),
        ).len(),
        lines.filter(|line: LineModel| line.at == at).filter(
            |line: LineModel| line.who == "pippijn"@,
        ) == turns.filter(|turn: HumanModel| !is_notice(turn.text) && turn.at == at).map_values(
            |turn: HumanModel| LineModel { at, who: "pippijn"@, text: turn.text },
        ),
{
    let human = human_lines(turns);
    let session = session_lines(rows);
    let all = both_sides(turns, rows);
    let theirs = |line: LineModel| line.who == "pippijn"@;
    let then = |line: LineModel| line.at == at;
    law_sorting_keeps_counts(all, lines, theirs);
    law_sorting_keeps_every_line(all, lines, at);
    Seq::filter_distributes_over_add(human, session, theirs);
    Seq::filter_distributes_over_add(human, session, then);
    Seq::filter_distributes_over_add(human.filter(then), session.filter(then), theirs);
    lemma_none_of_theirs(rows, at);
    lemma_all_of_theirs(turns, at);
    assert(human.filter(theirs) + session.filter(theirs) =~= human.filter(theirs));
    assert(human.filter(then).filter(theirs) + session.filter(then).filter(theirs) =~= human.filter(
        then,
    ).filter(theirs));
}

proof fn lemma_none_of_theirs(rows: Seq<JsonValue>, at: Seq<char>)
    ensures
        session_lines(rows).filter(|line: LineModel| line.who == "pippijn"@).len() == 0,
        session_lines(rows).filter(|line: LineModel| line.at == at).filter(
            |line: LineModel| line.who == "pippijn"@,
        ).len() == 0,
{
    let session = session_lines(rows);
    let theirs = |line: LineModel| line.who == "pippijn"@;
    let then = |line: LineModel| line.at == at;
    reveal_strlit("pippijn");
    reveal_strlit("session");
    assert("pippijn"@[0] != "session"@[0]);
    law_session_lines_say_something(rows);
    if session.filter(theirs).len() > 0 {
        let line = session.filter(theirs)[0];
        assert(session.filter(theirs).contains(line));
        session.lemma_filter_contains_rev(theirs, line);
        session.lemma_filter_pred(theirs, 0);
        let k = choose|k: int| 0 <= k < session.len() && session[k] == line;
        assert(session[k].who == "session"@);
    }
    let some = session.filter(then);
    if some.filter(theirs).len() > 0 {
        let line = some.filter(theirs)[0];
        assert(some.filter(theirs).contains(line));
        some.lemma_filter_contains_rev(theirs, line);
        some.lemma_filter_pred(theirs, 0);
        session.lemma_filter_contains_rev(then, line);
        let k = choose|k: int| 0 <= k < session.len() && session[k] == line;
        assert(session[k].who == "session"@);
    }
}

proof fn lemma_all_of_theirs(turns: Seq<HumanModel>, at: Seq<char>)
    ensures
        human_lines(turns).filter(|line: LineModel| line.who == "pippijn"@).len() == turns.filter(
            |turn: HumanModel| !is_notice(turn.text),
        ).len(),
        human_lines(turns).filter(|line: LineModel| line.at == at).filter(
            |line: LineModel| line.who == "pippijn"@,
        ) == turns.filter(|turn: HumanModel| !is_notice(turn.text) && turn.at == at).map_values(
            |turn: HumanModel| LineModel { at, who: "pippijn"@, text: turn.text },
        ),
    decreases turns.len(),
{
    reveal(Seq::filter);
    let theirs = |line: LineModel| line.who == "pippijn"@;
    let then = |line: LineModel| line.at == at;
    let typed = |turn: HumanModel| !is_notice(turn.text) && turn.at == at;
    let shown = |turn: HumanModel| LineModel { at, who: "pippijn"@, text: turn.text };
    if turns.len() > 0 {
        let fewer = turns.drop_last();
        lemma_all_of_theirs(fewer, at);
        let turn = turns.last();
        let earlier = human_lines(fewer);
        let line = LineModel { at: turn.at, who: "pippijn"@, text: turn.text };
        if !is_notice(turn.text) {
            earlier.lemma_filter_push(line, theirs);
            earlier.lemma_filter_push(line, then);
            if turn.at == at {
                earlier.filter(then).lemma_filter_push(line, theirs);
                assert(fewer.filter(typed).push(turn).map_values(shown) =~= fewer.filter(
                    typed,
                ).map_values(shown).push(shown(turn)));
            }
        }
    } else {
        assert(human_lines(turns).filter(then).filter(theirs) =~= turns.filter(typed).map_values(
            shown,
        ));
    }
}

/// Where both sides have lines with one stamp, the person's stand first.
pub proof fn law_the_person_stands_first(
    turns: Seq<HumanModel>,
    rows: Seq<JsonValue>,
    lines: Seq<LineModel>,
    at: Seq<char>,
)
    requires
        chronological(both_sides(turns, rows), lines),
    ensures
        lines.filter(|line: LineModel| line.at == at) == human_lines(turns).filter(
            |line: LineModel| line.at == at,
        ) + session_lines(rows).filter(|line: LineModel| line.at == at),
        lines.len() == human_lines(turns).len() + session_lines(rows).len(),
{
    let then = |line: LineModel| line.at == at;
    law_sorting_keeps_every_line(both_sides(turns, rows), lines, at);
    Seq::filter_distributes_over_add(human_lines(turns), session_lines(rows), then);
}

// ---------------------------------------------------------------------------
// Task endings

/// A tag holds what stands between its first opening and the next closing,
/// without the white space around it.
pub proof fn law_what_a_tag_holds(
    front: Seq<char>,
    tag: Seq<char>,
    value: Seq<char>,
    back: Seq<char>,
)
    requires
        forall|i: int|
            0 <= i < front.len() ==> #[trigger] (front + ("<"@ + tag + ">"@) + (value + ("</"@ + tag
                + ">"@) + back)).subrange(i, i + ("<"@ + tag + ">"@).len()) != "<"@ + tag + ">"@,
        forall|i: int|
            0 <= i < value.len() ==> #[trigger] (value + ("</"@ + tag + ">"@) + back).subrange(
                i,
                i + ("</"@ + tag + ">"@).len(),
            ) != "</"@ + tag + ">"@,
    ensures
        tag_text(front + ("<"@ + tag + ">"@) + (value + ("</"@ + tag + ">"@) + back), tag)
            == trimmed(value),
{
    let open = "<"@ + tag + ">"@;
    let close = "</"@ + tag + ">"@;
    law_parted_at(front, open, value + close + back);
    law_parted_at(value, close, back);
}

/// A tag that is not opened, or not closed behind its first opening, holds
/// nothing.
pub proof fn law_a_missing_tag_holds_nothing(front: Seq<char>, tag: Seq<char>, rest: Seq<char>)
    ensures
        !occurs(rest, "<"@ + tag + ">"@) ==> tag_text(rest, tag).len() == 0,
        !occurs(rest, "</"@ + tag + ">"@) && (forall|i: int|
            0 <= i < front.len() ==> #[trigger] (front + ("<"@ + tag + ">"@) + rest).subrange(
                i,
                i + ("<"@ + tag + ">"@).len(),
            ) != "<"@ + tag + ">"@) ==> tag_text(front + ("<"@ + tag + ">"@) + rest, tag).len()
            == 0,
{
    let open = "<"@ + tag + ">"@;
    let close = "</"@ + tag + ">"@;
    lemma_found(rest, open, 0);
    lemma_found(rest, close, 0);
    if forall|i: int|
        0 <= i < front.len() ==> #[trigger] (front + open + rest).subrange(i, i + open.len())
            != open {
        law_parted_at(front, open, rest);
    }
}

/// A task notification whose status is not blank is an ending with that status,
/// the summary that it gives, and the uuid and stamp of its turn, whatever those
/// are and whether the turn is queued or not.
pub proof fn law_a_notification_with_a_status_is_an_ending(
    turn: HumanTurn,
    front: Seq<char>,
    status: Seq<char>,
    back: Seq<char>,
)
    requires
        is_notice(turn.text@),
        turn.text@ == front + "<status>"@ + (status + "</status>"@ + back),
        forall|i: int|
            0 <= i < front.len() ==> #[trigger] turn.text@.subrange(i, i + "<status>"@.len())
                != "<status>"@,
        forall|i: int|
            0 <= i < status.len() ==> #[trigger] (status + "</status>"@ + back).subrange(
                i,
                i + "</status>"@.len(),
            ) != "</status>"@,
        trimmed(status).len() > 0,
    ensures
        ending_of(turn@) == Some(
            EndingModel {
                uuid: turn.uuid@,
                at: turn.at@,
                status: trimmed(status),
                summary: tag_text(turn.text@, "summary"@),
            },
        ),
{
    lemma_status_tags();
    law_what_a_tag_holds(front, "status"@, status, back);
}

proof fn lemma_status_tags()
    ensures
        "<"@ + "status"@ + ">"@ == "<status>"@,
        "</"@ + "status"@ + ">"@ == "</status>"@,
{
    reveal_strlit("<");
    reveal_strlit("</");
    reveal_strlit(">");
    reveal_strlit("status");
    reveal_strlit("<status>");
    reveal_strlit("</status>");
    assert("<"@ + "status"@ + ">"@ =~= "<status>"@);
    assert("</"@ + "status"@ + ">"@ =~= "</status>"@);
}

/// What is reported as an ending is a task notification with a status in it, and
/// says of its turn what the turn says.
pub proof fn law_an_ending_is_a_notification(turn: HumanTurn)
    ensures
        ending_of(turn@) matches Some(ending) ==> {
            &&& is_notice(turn.text@)
            &&& ending.uuid == turn.uuid@
            &&& ending.at == turn.at@
            &&& ending.summary == tag_text(turn.text@, "summary"@)
            &&& ending.status.len() > 0
            &&& exists|front: Seq<char>, status: Seq<char>, back: Seq<char>|
                turn.text@ == #[trigger] (front + "<status>"@ + (status + "</status>"@ + back))
                    && ending.status == trimmed(status)
        },
{
    lemma_status_tags();
    if ending_of(turn@) is Some {
        let text = turn.text@;
        law_parting(text, "<status>"@);
        let (front, rest) = parted(text, "<status>"@)->0;
        law_parting(rest, "</status>"@);
        let (status, back) = parted(rest, "</status>"@)->0;
        assert(text == front + "<status>"@ + (status + "</status>"@ + back));
    }
}

/// The endings are what the turns report, one after the other, and nothing else.
pub proof fn law_endings_in_order(turns: Seq<HumanModel>)
    ensures
        endings_of(turns) == turns.filter_map(|turn: HumanModel| ending_of(turn)),
    decreases turns.len(),
{
    if turns.len() > 0 {
        law_endings_in_order(turns.drop_last());
        if let Some(ending) = ending_of(turns.last()) {
            let earlier = endings_of(turns.drop_last());
            assert(earlier.push(ending) =~= earlier + seq![ending]);
        }
    }
}

/// One status is success, and no other.
pub proof fn law_one_status_is_success(ending: Ending)
    ensures
        ending@.is_ok() <==> ending.status@ == "completed"@,
{
}

// ---------------------------------------------------------------------------
// The clock

/// Whether five characters from a place on are two digits, a colon and two
/// digits.
pub open spec fn clock_at(s: Seq<char>, at: int) -> bool {
    &&& at + 5 <= s.len()
    &&& '0' <= s[at] <= '9'
    &&& '0' <= s[at + 1] <= '9'
    &&& s[at + 2] == ':'
    &&& '0' <= s[at + 3] <= '9'
    &&& '0' <= s[at + 4] <= '9'
}

/// The time of day is the five characters behind the first `T` where they are
/// one; a stamp without a `T`, or with anything else behind it, is left as it is.
pub proof fn law_what_a_clock_shows(day: Seq<char>, time: Seq<char>)
    requires
        !day.contains('T'),
    ensures
        clock_of(day + seq!['T'] + time) == if clock_at(time, 0) {
            time.take(5)
        } else {
            day + seq!['T'] + time
        },
        clock_of(day) == day,
{
    let mark = "T"@;
    reveal_strlit("T");
    assert(mark =~= seq!['T']);
    let stamp = day + mark + time;
    assert forall|i: int| 0 <= i < day.len() implies #[trigger] stamp.subrange(i, i + mark.len())
        != mark by {
        assert(stamp.subrange(i, i + 1)[0] == day[i]);
        assert(day.contains(day[i]));
    }
    law_parted_at(day, mark, time);
    law_parting(day, mark);
    if parted(day, mark) is Some {
        let (front, back) = parted(day, mark)->0;
        assert(day[front.len() as int] == 'T');
        assert(day.contains('T'));
    }
}

// ---------------------------------------------------------------------------
// Lists

/// A list of turns, endings or lines holds what each of them holds, in order.
pub proof fn law_what_lists_hold(
    humans: Seq<HumanTurn>,
    turns: Seq<Turn>,
    endings: Seq<Ending>,
    lines: Seq<Line>,
    i: int,
)
    ensures
        human_models(humans).len() == humans.len(),
        0 <= i < humans.len() ==> human_models(humans)[i] == (HumanModel {
            uuid: humans[i].uuid@,
            at: humans[i].at@,
            text: humans[i].text@,
            queued: humans[i].queued,
        }),
        turn_models(turns).len() == turns.len(),
        0 <= i < turns.len() ==> turn_models(turns)[i] == (TurnModel {
            uuid: turns[i].uuid@,
            at: turns[i].at@,
            text: turns[i].text@,
        }),
        ending_models(endings).len() == endings.len(),
        0 <= i < endings.len() ==> ending_models(endings)[i] == (EndingModel {
            uuid: endings[i].uuid@,
            at: endings[i].at@,
            status: endings[i].status@,
            summary: endings[i].summary@,
        }),
        line_models(lines).len() == lines.len(),
        0 <= i < lines.len() ==> line_models(lines)[i] == (LineModel {
            at: lines[i].at@,
            who: lines[i].who@,
            text: lines[i].text@,
        }),
{
}

} // verus!
