//! What the functions of this library give their callers: each law speaks of a
//! call, or of two calls, and of what came back.
use vstd::prelude::*;

use crate::args::{
    flag_of, is_verb, law_a_flag_value_is_read_back, law_a_flag_without_a_value,
    law_a_target_is_lifted_out, law_a_verb_is_no_target_name, law_no_target_leaves_every_argument,
    law_what_a_timeout_is, law_words_of_a_command_line, names_no_target, take_target, timeout_of,
    ArgsError,
};
use crate::chronology::{law_sorting_keeps_every_line, line_models, Line};
use crate::cli::{
    command, info_text, law_how_many_exchanges, law_how_much_scrollback,
    law_how_read_prints_a_line, law_how_windows_are_printed, law_what_a_verb_asks_for,
    law_what_is_shown_of_a_message, law_what_task_waits_for, law_what_wait_waits_for,
    law_which_lines_read_prints, padded, pane_request, read_report, read_request, shorten,
    status_report, unknown_command, wait_request, Awaited, AwaitedModel, Command, CommandModel,
    ReadRequest, USAGE,
};
use crate::config::{
    law_where_the_file_is, law_where_to_point, load, path, resolve, said_by_environment, Config,
    ConfigError, TargetModel,
};
use crate::json::json_value;
use crate::number::{decimal, number_read, NumberError};
use crate::order::before;
use crate::remote::{
    info_lines, is_newest, law_gaps_are_left_out, law_lines_that_say_something,
    law_nothing_is_newer, law_what_goes_into_a_snippet, law_what_is_run,
    law_which_lines_are_windows, newest, readable, window_list, window_models, windows_of, Agent,
    Info, Remote, RemoteError, RemoteErrorModel, Request, RequestModel,
};
use crate::send::{
    draft, follow_up, message, message_words, on_screen, sent_report, Delivery, Draft, SendError,
};
use crate::send_laws::{
    is_no_flag, law_a_flag_takes_its_value, law_wait_takes_no_value, law_what_may_be_sent,
    law_what_on_screen_means, law_what_was_there_before,
};
use crate::text::{joined, lines_of, squeezed, text_of, texts, trimmed, word_of, words};
use crate::text_laws::white_between;
use crate::transcript::{
    both_sides, clock, clock_of, conversation, ending_models, ending_of, endings, endings_of,
    human_lines, human_models, is_notice, row_said, row_values, session_lines, spoken, stamp_of,
    tag_text, turn_models, uuid_of, Ending, HumanTurn, Turn, TurnModel,
};
use crate::transcript_laws::{
    clock_at, law_a_notification_with_a_status_is_an_ending, law_a_reported_ending_is_there,
    law_an_ending_is_a_notification, law_endings_are_reported, law_one_more_row,
    law_one_row_is_one_value, law_rows_are_read_one_by_one, law_the_person_stands_first,
    law_turns_are_distinct, law_what_a_clock_shows, law_what_was_typed_is_shown,
};
use crate::unicode::quoted;
use crate::watch::{
    first_awaited, is_about, law_how_turns_are_printed, law_known_endings, law_known_turns,
    law_what_is_said_of_an_ending, law_what_news_is, law_which_ending_is_reported, news_of, Next,
    NextModel, ReplyWatch, TaskReport, TaskWatch,
};

verus! {

// ---------------------------------------------------------------------------
// The transcript

/// Every message that somebody typed, queued or not, is a line of what
/// `conversation` gives, and no line stands behind one with a later stamp.
pub proof fn law_conversation(turns: &[HumanTurn], bytes: &[u8], r: Vec<Line>)
    requires
        call_ensures(conversation, (turns, bytes), r),
    ensures
        forall|k: int|
            0 <= k < turns@.len() && !is_notice((#[trigger] turns@[k]).text@) ==> exists|j: int|
                {
                    &&& 0 <= j < r@.len()
                    &&& (#[trigger] r@[j]).at@ == turns@[k].at@
                    &&& r@[j].who@ == "pippijn"@
                    &&& r@[j].text@ == turns@[k].text@
                },
        forall|i: int, j: int|
            0 <= i < j < r@.len() ==> !before((#[trigger] r@[j]).at@, (#[trigger] r@[i]).at@),
        r@.len() == human_lines(human_models(turns@)).len() + session_lines(
            row_values(bytes@),
        ).len(),
{
    let rows = row_values(bytes@);
    let models = line_models(r@);
    let all = both_sides(human_models(turns@), rows);
    assert forall|k: int|
        0 <= k < turns@.len() && !is_notice((#[trigger] turns@[k]).text@) implies exists|j: int|
        {
            &&& 0 <= j < r@.len()
            &&& (#[trigger] r@[j]).at@ == turns@[k].at@
            &&& r@[j].who@ == "pippijn"@
            &&& r@[j].text@ == turns@[k].text@
        } by {
        law_what_was_typed_is_shown(turns@, rows, r@, k);
    }
    law_sorting_keeps_every_line(all, models, Seq::empty());
    law_the_person_stands_first(human_models(turns@), rows, models, Seq::empty());
    assert forall|i: int, j: int| 0 <= i < j < r@.len() implies !before(
        (#[trigger] r@[j]).at@,
        (#[trigger] r@[i]).at@,
    ) by {
        assert(models[i] == r@[i]@ && models[j] == r@[j]@);
    }
}

/// A transcript with one more row gives the turns that it gave before, and then
/// the turn of that row where it says something under a uuid that no row before
/// it has.
pub proof fn law_spoken(
    bytes: &[u8],
    longer: &[u8],
    row: Seq<u8>,
    before: Vec<Turn>,
    after: Vec<Turn>,
)
    requires
        call_ensures(spoken, (bytes,), before),
        call_ensures(spoken, (longer,), after),
        longer@ == bytes@ + seq![10u8] + row,
        !row.contains(10u8),
    ensures
        turn_models(before@).is_prefix_of(turn_models(after@)),
        json_value(row) is None ==> turn_models(after@) == turn_models(before@),
        json_value(row) matches Some(value) ==> ({
            let rows = row_values(bytes@);
            let first = forall|i: int|
                0 <= i < rows.len() ==> uuid_of(#[trigger] rows[i]) != uuid_of(value);
            turn_models(after@) == turn_models(before@) + match row_said(value) {
                Some(text) => if uuid_of(value).len() > 0 && first {
                    seq![TurnModel { uuid: uuid_of(value), at: stamp_of(value), text }]
                } else {
                    Seq::empty()
                },
                None => Seq::empty(),
            }
        }),
        forall|i: int, j: int|
            0 <= i < j < after@.len() ==> (#[trigger] after@[i]).uuid@ != (
            #[trigger] after@[j]).uuid@,
{
    let rows = row_values(bytes@);
    law_rows_are_read_one_by_one(bytes@, row);
    law_one_row_is_one_value(row);
    match json_value(row) {
        Some(value) => {
            law_one_more_row(rows, value);
            assert(rows + seq![value] =~= rows.push(value));
        },
        None => {
            assert(rows + Seq::empty() =~= rows);
        },
    }
    law_turns_are_distinct(row_values(longer@));
    let models = turn_models(after@);
    assert forall|i: int, j: int| 0 <= i < j < after@.len() implies (#[trigger] after@[i]).uuid@ != (
    #[trigger] after@[j]).uuid@ by {
        assert(models[i] == after@[i]@ && models[j] == after@[j]@);
    }
}

/// A task notification with a status is among what `endings` gives, whatever
/// else its turn is.
pub proof fn law_endings(
    turns: &[HumanTurn],
    r: Vec<Ending>,
    k: int,
    front: Seq<char>,
    status: Seq<char>,
    back: Seq<char>,
)
    requires
        call_ensures(endings, (turns,), r),
        0 <= k < turns@.len(),
        is_notice(turns@[k].text@),
        turns@[k].text@ == front + "<status>"@ + (status + "</status>"@ + back),
        forall|i: int|
            0 <= i < front.len() ==> #[trigger] turns@[k].text@.subrange(i, i + "<status>"@.len())
                != "<status>"@,
        forall|i: int|
            0 <= i < status.len() ==> #[trigger] (status + "</status>"@ + back).subrange(
                i,
                i + "</status>"@.len(),
            ) != "</status>"@,
        trimmed(status).len() > 0,
    ensures
        exists|j: int|
            {
                &&& 0 <= j < r@.len()
                &&& (#[trigger] r@[j]).uuid@ == turns@[k].uuid@
                &&& r@[j].at@ == turns@[k].at@
                &&& r@[j].status@ == trimmed(status)
                &&& r@[j].summary@ == tag_text(turns@[k].text@, "summary"@)
            },
{
    let models = human_models(turns@);
    law_a_notification_with_a_status_is_an_ending(turns@[k], front, status, back);
    law_a_reported_ending_is_there(models, k);
    let found = ending_models(r@);
    let ending = ending_of(models[k])->0;
    let j = choose|j: int| 0 <= j < found.len() && found[j] == ending;
    assert(r@[j]@ == ending);
}

/// What `endings` gives is said by a task notification, and never by what a
/// person typed.
pub proof fn law_endings_come_from_notices(turns: &[HumanTurn], r: Vec<Ending>, j: int)
    requires
        call_ensures(endings, (turns,), r),
        0 <= j < r@.len(),
    ensures
        exists|k: int|
            {
                &&& 0 <= k < turns@.len()
                &&& is_notice((#[trigger] turns@[k]).text@)
                &&& r@[j].uuid@ == turns@[k].uuid@
                &&& r@[j].at@ == turns@[k].at@
                &&& r@[j].status@ == tag_text(turns@[k].text@, "status"@)
                &&& r@[j].summary@ == tag_text(turns@[k].text@, "summary"@)
            },
        r@[j].status@.len() > 0,
{
    let models = human_models(turns@);
    law_endings_are_reported(models);
    let found = ending_models(r@);
    assert(found[j] == r@[j]@);
    assert(endings_of(models)[j] == found[j]);
    let k = choose|k: int|
        0 <= k < models.len() && ending_of(#[trigger] models[k]) == Some(
            endings_of(models)[j],
        );
    assert(models[k] == turns@[k]@);
    law_an_ending_is_a_notification(turns@[k]);
}

/// `clock` gives the time of day of a stamp, and anything else as it is.
pub proof fn law_clock(stamp: &str, r: String, day: Seq<char>, time: Seq<char>)
    requires
        call_ensures(clock, (stamp,), r),
        !day.contains('T'),
    ensures
        stamp@ == day + seq!['T'] + time && clock_at(time, 0) ==> r@ == time.take(5),
        stamp@ == day + seq!['T'] + time && !clock_at(time, 0) ==> r@ == stamp@,
        stamp@ == day ==> r@ == stamp@,
{
    law_what_a_clock_shows(day, time);
}

// ---------------------------------------------------------------------------
// Waiting

/// A wait for a reply ends exactly where a turn is there that was not there when
/// it began and whose text is about what is wanted; and then every such turn is
/// printed, and no other.
pub proof fn law_waiting_for_a_reply(
    before: &[Turn],
    wanted: Option<String>,
    limit: u64,
    watch: &ReplyWatch,
    now: &[Turn],
    r: Option<String>,
)
    requires
        call_ensures(ReplyWatch::begin, (before, wanted, limit), *watch),
        call_ensures(ReplyWatch::observe, (watch, now), r),
    ensures
        r is Some <==> exists|k: int|
            0 <= k < now@.len() && is_about((#[trigger] now@[k]).text@, text_of(wanted)) && forall|
                j: int,
            |
                0 <= j < before@.len() ==> (#[trigger] before@[j]).uuid@ != now@[k].uuid@,
{
    let known = watch@.known;
    let fresh = |turn: Turn| !known.contains(turn.uuid@) && is_about(turn.text@, text_of(wanted));
    law_what_news_is(now@, known, text_of(wanted));
    let kept = now@.filter(fresh);
    if r is Some {
        now@.lemma_filter_pred(fresh, 0);
        assert(kept.contains(kept[0]));
        now@.lemma_filter_contains_rev(fresh, kept[0]);
        let k = choose|k: int| 0 <= k < now@.len() && now@[k] == kept[0];
        law_known_turns(before@, now@[k].uuid@);
    }
    if exists|k: int|
        0 <= k < now@.len() && is_about((#[trigger] now@[k]).text@, text_of(wanted)) && forall|
            j: int,
        |
            0 <= j < before@.len() ==> (#[trigger] before@[j]).uuid@ != now@[k].uuid@ {
        let k = choose|k: int|
            0 <= k < now@.len() && is_about((#[trigger] now@[k]).text@, text_of(wanted)) && forall|
                j: int,
            |
                0 <= j < before@.len() ==> (#[trigger] before@[j]).uuid@ != now@[k].uuid@;
        law_known_turns(before@, now@[k].uuid@);
        now@.lemma_filter_contains(fresh, k);
        assert(kept.len() > 0);
    }
}

/// What a wait prints of the one turn that is new is its clock and all that it
/// says.
pub proof fn law_one_reply(
    before: &[Turn],
    limit: u64,
    watch: &ReplyWatch,
    now: &[Turn],
    r: Option<String>,
)
    requires
        call_ensures(ReplyWatch::begin, (before, None::<String>, limit), *watch),
        call_ensures(ReplyWatch::observe, (watch, now), r),
        now@.len() == 1,
        forall|j: int| 0 <= j < before@.len() ==> (#[trigger] before@[j]).uuid@ != now@[0].uuid@,
    ensures
        r matches Some(report) && report@ == clock_of(now@[0].at@) + "  "@ + now@[0].text@
            + "\n\n"@,
{
    let known = watch@.known;
    law_known_turns(before@, now@[0].uuid@);
    let models = turn_models(now@);
    assert(models.last() == now@[0]@);
    assert(models.drop_last() =~= Seq::<TurnModel>::empty());
    let news = news_of(models, known, None);
    assert(news_of(models.drop_last(), known, None) =~= Seq::<TurnModel>::empty());
    assert(news =~= seq![now@[0]@]);
    law_how_turns_are_printed(Seq::empty(), Seq::empty(), now@[0]);
}

/// A wait for a task reports the first ending that was not there when it began
/// and whose summary is about what is wanted, and a failure exactly where that
/// one did not complete.
pub proof fn law_waiting_for_a_task(
    before: &[Ending],
    wanted: Option<String>,
    limit: u64,
    watch: &TaskWatch,
    now: &[Ending],
    r: Option<TaskReport>,
)
    requires
        call_ensures(TaskWatch::begin, (before, wanted, limit), *watch),
        call_ensures(TaskWatch::observe, (watch, now), r),
    ensures
        r is None ==> forall|k: int|
            0 <= k < now@.len() ==> !is_about((#[trigger] now@[k]).summary@, text_of(wanted))
                || exists|j: int|
                0 <= j < before@.len() && (#[trigger] before@[j]).uuid@ == now@[k].uuid@,
        r matches Some(report) ==> exists|k: int|
            {
                &&& 0 <= k < now@.len()
                &&& is_about((#[trigger] now@[k]).summary@, text_of(wanted))
                &&& forall|j: int|
                    0 <= j < before@.len() ==> (#[trigger] before@[j]).uuid@ != now@[k].uuid@
                &&& report.line@ == clock_of(now@[k].at@) + "  "@ + now@[k].status@ + "  "@
                    + now@[k].summary@ + "\n"@
                &&& report.failure is None <==> now@[k].status@ == "completed"@
            },
{
    let known = watch@.known;
    law_which_ending_is_reported(now@, known, text_of(wanted));
    match first_awaited(ending_models(now@), known, text_of(wanted)) {
        Some(ending) => {
            let k = choose|k: int|
                {
                    &&& 0 <= k < now@.len()
                    &&& (#[trigger] now@[k])@ == ending
                    &&& !known.contains(now@[k].uuid@)
                    &&& is_about(now@[k].summary@, text_of(wanted))
                    &&& forall|j: int|
                        0 <= j < k ==> known.contains((#[trigger] now@[j]).uuid@) || !is_about(
                            now@[j].summary@,
                            text_of(wanted),
                        )
                };
            law_known_endings(before@, now@[k].uuid@);
            law_what_is_said_of_an_ending(now@[k]);
        },
        None => {
            assert forall|k: int| 0 <= k < now@.len() implies !is_about(
                (#[trigger] now@[k]).summary@,
                text_of(wanted),
            ) || exists|j: int|
                0 <= j < before@.len() && (#[trigger] before@[j]).uuid@ == now@[k].uuid@ by {
                law_known_endings(before@, now@[k].uuid@);
            }
        },
    }
}

/// No wait gives up before the limit that it was given, nor asks after it.
pub proof fn law_waiting_stops_at_the_limit(
    turns: &[Turn],
    endings: &[Ending],
    wanted: Option<String>,
    limit: u64,
    reply: &ReplyWatch,
    task: &TaskWatch,
    elapsed: u128,
    a: Next,
    b: Next,
)
    requires
        call_ensures(ReplyWatch::begin, (turns, wanted, limit), *reply),
        call_ensures(TaskWatch::begin, (endings, wanted, limit), *task),
        call_ensures(ReplyWatch::next, (reply, elapsed), a),
        call_ensures(TaskWatch::next, (task, elapsed), b),
    ensures
        elapsed < limit * 1000 ==> a@ == (NextModel::Ask { before_millis: 15000, after_millis: 0 })
            && b@ == (NextModel::Ask { before_millis: 15000, after_millis: 0 }),
        elapsed >= limit * 1000 ==> a@ is GiveUp && b@ is GiveUp,
{
}

// ---------------------------------------------------------------------------
// Sending

/// Words without a flag are the message, with a blank between two; and a flag
/// among them, with its value where it takes one, changes nothing.
pub proof fn law_drafting(
    args: &[&str],
    r: Result<Draft, SendError>,
    front: Seq<Seq<char>>,
    flag: Seq<char>,
    value: Seq<char>,
    back: Seq<Seq<char>>,
)
    requires
        call_ensures(draft, (args,), r),
        forall|i: int| 0 <= i < front.len() ==> is_no_flag(#[trigger] front[i]),
        forall|i: int| 0 <= i < back.len() ==> is_no_flag(#[trigger] back[i]),
        flag == "--timeout"@ || flag == "--match"@,
        front + back != seq!["-"@],
    ensures
        words(args@) == front + seq!["--wait"@] + back ==> (r matches Ok(Draft::Words(text))
            && text@ == joined(front + back, " "@)),
        words(args@) == front + seq![flag, value] + back ==> (r matches Ok(Draft::Words(text))
            && text@ == joined(front + back, " "@)),
        words(args@) == front + back && args@.len() > 0 ==> (r matches Ok(Draft::Words(text))
            && text@ == joined(front + back, " "@)),
{
    law_wait_takes_no_value(front, back);
    law_wait_takes_no_value(back, Seq::empty());
    law_a_flag_takes_its_value(front, flag, value, back);
}

/// A lone `-` is the standard input, with flags around it or without.
pub proof fn law_drafting_from_stdin(
    args: &[&str],
    r: Result<Draft, SendError>,
    flag: Seq<char>,
    value: Seq<char>,
)
    requires
        call_ensures(draft, (args,), r),
        flag == "--timeout"@ || flag == "--match"@,
    ensures
        words(args@) == seq!["-"@] ==> r matches Ok(Draft::Stdin),
        words(args@) == seq!["-"@] + seq!["--wait"@] ==> r matches Ok(Draft::Stdin),
        words(args@) == seq!["-"@] + seq![flag, value] ==> r matches Ok(Draft::Stdin),
        args@.len() == 0 <==> r matches Err(SendError::NoArgument),
{
    reveal_strlit("-");
    reveal_strlit("--wait");
    reveal_strlit("--timeout");
    reveal_strlit("--match");
    let front = seq!["-"@];
    let nothing = Seq::<Seq<char>>::empty();
    assert("-"@.len() == 1);
    assert(is_no_flag(front[0]));
    law_wait_takes_no_value(front, nothing);
    law_a_flag_takes_its_value(front, flag, value, nothing);
    assert(front + seq!["--wait"@] + nothing =~= front + seq!["--wait"@]);
    assert(front + seq![flag, value] + nothing =~= front + seq![flag, value]);
    assert(message_words(nothing) =~= nothing);
    assert(front + nothing =~= front);
}

/// What may be sent is the text without the white space around it, if that is
/// one line of something.
pub proof fn law_message(text: &str, r: Result<String, SendError>)
    requires
        call_ensures(message, (text,), r),
    ensures
        r matches Ok(sent) ==> sent@ == trimmed(text@) && sent@.len() > 0 && !sent@.contains('\n'),
        r matches Err(SendError::Nothing) <==> white_between(text@, 0, text@.len() as int),
        trimmed(text@).contains('\n') ==> r matches Err(SendError::SeveralLines(_)),
        r is Ok <==> trimmed(text@).len() > 0 && !trimmed(text@).contains('\n'),
{
    law_what_may_be_sent(text@, trimmed(text@));
}

/// A message counts as on the screen exactly where it stands there without
/// regard to white space.
pub proof fn law_on_screen(screen: &str, text: &str, r: bool)
    requires
        call_ensures(on_screen, (screen, text), r),
    ensures
        r <==> exists|front: Seq<char>, back: Seq<char>|
            squeezed(screen@) == #[trigger] (front + squeezed(text@) + back),
{
    law_what_on_screen_means(screen@, text@);
}

/// A delivery begins with its message, and knows every turn that is there.
pub proof fn law_beginning_a_delivery(
    text: String,
    turns: &[HumanTurn],
    delivery: Delivery,
    uuid: Seq<char>,
)
    requires
        call_ensures(Delivery::begin, (text, turns), delivery),
    ensures
        delivery@.message == text@,
        delivery@.stage is Typing,
        delivery@.known.contains(uuid) <==> exists|k: int|
            0 <= k < turns@.len() && (#[trigger] turns@[k]).uuid@ == uuid,
{
    law_what_was_there_before(turns@, uuid);
}

/// What is said of a message that was taken tells read from queued, and counts
/// its characters.
pub proof fn law_reporting_a_message(text: &str, queued: bool, r: String)
    requires
        call_ensures(sent_report, (text, queued), r),
    ensures
        queued ==> r@ == "sent, "@
            + "queued — it was working, so it will read this when the turn ends"@ + " ("@
            + decimal(text@.len()) + " chars)\n"@,
        !queued ==> r@ == "sent, "@ + "read"@ + " ("@ + decimal(text@.len()) + " chars)\n"@,
{
}

/// Nothing is waited for after a message without `--wait`; with it, for an hour
/// and for any reply unless something else is said.
pub proof fn law_following_up(
    args: &[&str],
    r: Option<Result<(u64, Option<String>), ArgsError>>,
)
    requires
        call_ensures(follow_up, (args,), r),
    ensures
        r is None <==> !words(args@).contains("--wait"@),
        words(args@).contains("--wait"@) && !words(args@).contains("--timeout"@) && !words(
            args@,
        ).contains("--match"@) ==> (r matches Some(Ok((limit, wanted))) && limit == 3600 && wanted
            is None),
{
    if !words(args@).contains("--timeout"@) {
        law_what_a_timeout_is(words(args@), Seq::empty(), Seq::empty());
    }
    if !words(args@).contains("--match"@) {
        law_a_flag_without_a_value(words(args@), "--match"@);
    }
}

// ---------------------------------------------------------------------------
// The command line

/// A target is lifted out wherever it stands, and a verb in its place is an
/// error where nothing else is left.
pub proof fn law_taking_a_target<'a>(
    args: &[&'a str],
    r: Result<(Option<String>, Vec<&'a str>), ArgsError>,
    front: Seq<Seq<char>>,
    flag: Seq<char>,
    name: Seq<char>,
    back: Seq<Seq<char>>,
)
    requires
        call_ensures(take_target, (args,), r),
        names_no_target(front),
        names_no_target(back),
        flag == "-t"@ || flag == "--target"@,
        name.len() == 0 || name[0] != '-',
    ensures
        words(args@) == front + seq![flag, name] + back && (front + back).len() > 0 ==> (
        r matches Ok((target, rest)) && text_of(target) == Some(name) && words(rest@) == front
            + back),
        words(args@) == seq![flag, name] && is_verb(name) ==> r is Err,
        words(args@) == front ==> (r matches Ok((target, rest)) && target is None && words(rest@)
            == front),
{
    law_words_of_a_command_line(flag);
    law_words_of_a_command_line(name);
    if (front + back).len() > 0 {
        law_a_target_is_lifted_out(front, flag, name, back);
    }
    if is_verb(name) {
        law_a_verb_is_no_target_name(flag, name);
    }
    law_no_target_leaves_every_argument(front);
}

/// The value of a flag is the word behind it, wherever the two stand.
pub proof fn law_taking_a_flag(
    args: &[&str],
    flag: &str,
    r: Result<Option<String>, ArgsError>,
    front: Seq<Seq<char>>,
    value: Seq<char>,
    back: Seq<Seq<char>>,
)
    requires
        call_ensures(flag_of, (args, flag), r),
        !front.contains(flag@),
    ensures
        words(args@) == front + seq![flag@, value] + back ==> (r matches Ok(got) && text_of(got)
            == Some(value)),
        words(args@) == front ==> (r matches Ok(got) && got is None),
        words(args@) == front + seq![flag@] ==> r is Err,
{
    law_a_flag_value_is_read_back(front, flag@, value, back);
    law_a_flag_without_a_value(front, flag@);
}

/// The timeout is the number behind `--timeout`, an hour without one, and never
/// that hour where what is behind it is no number.
pub proof fn law_taking_a_timeout(
    args: &[&str],
    r: Result<u64, ArgsError>,
    front: Seq<Seq<char>>,
    value: Seq<char>,
    back: Seq<Seq<char>>,
)
    requires
        call_ensures(timeout_of, (args,), r),
        !front.contains("--timeout"@),
    ensures
        words(args@) == front + seq!["--timeout"@, value] + back ==> match number_read(
            value,
            0xffff_ffff_ffff_ffff,
        ) {
            Ok(seconds) => r matches Ok(limit) && limit == seconds,
            Err(_) => r is Err,
        },
        words(args@) == front ==> (r matches Ok(limit) && limit == 3600),
        words(args@) == front + seq!["--timeout"@] ==> r is Err,
{
    law_what_a_timeout_is(front, value, back);
}

/// Each verb is told from the others, and gets the words behind it.
pub proof fn law_telling_verbs_apart<'a>(args: &[&'a str], r: Command<'a>, rest: Seq<Seq<char>>)
    requires
        call_ensures(command, (args,), r),
    ensures
        args@.len() == 0 ==> r@ is Status,
        words(args@) == seq!["status"@] ==> r@ is Status,
        words(args@) == seq!["read"@] + rest ==> r@ == CommandModel::Read(rest),
        words(args@) == seq!["pane"@] + rest ==> r@ == CommandModel::Pane(rest),
        words(args@) == seq!["send"@] + rest ==> r@ == CommandModel::Send(rest),
        words(args@) == seq!["wait"@] + rest ==> r@ == CommandModel::Wait(rest),
        words(args@) == seq!["help"@] + rest ==> r@ is Help,
{
    law_what_a_verb_asks_for("read"@, rest);
    assert(args@.len() == 0 ==> words(args@) =~= Seq::<Seq<char>>::empty());
}

/// What is asked of `read` is shown whole exactly where `--full` is among its
/// words, and twelve exchanges are shown where no number is.
pub proof fn law_asking_to_read(
    args: &[&str],
    r: Result<ReadRequest, NumberError>,
    flags: Seq<Seq<char>>,
    word: Seq<char>,
    rest: Seq<Seq<char>>,
)
    requires
        call_ensures(read_request, (args,), r),
        forall|i: int| 0 <= i < flags.len() ==> "--"@.is_prefix_of(#[trigger] flags[i]),
        !"--"@.is_prefix_of(word),
    ensures
        r matches Ok(request) ==> (request.full <==> words(args@).contains("--full"@)),
        words(args@) == flags ==> (r matches Ok(request) && request.want == 12),
        words(args@) == flags + seq![word] + rest ==> match number_read(word, usize::MAX as nat) {
            Ok(want) => r matches Ok(request) && request.want == want,
            Err(_) => r is Err,
        },
{
    law_how_many_exchanges(flags, word, rest);
}

/// `pane` shows as much scrollback as its first word says, and none without one.
pub proof fn law_asking_for_a_pane(
    args: &[&str],
    r: Result<usize, NumberError>,
    word: Seq<char>,
    rest: Seq<Seq<char>>,
)
    requires
        call_ensures(pane_request, (args,), r),
    ensures
        args@.len() == 0 ==> (r matches Ok(back) && back == 0),
        words(args@) == seq![word] + rest ==> match number_read(word, usize::MAX as nat) {
            Ok(want) => r matches Ok(back) && back == want,
            Err(_) => r is Err,
        },
{
    law_how_much_scrollback(word, rest);
    assert(args@.len() == 0 ==> words(args@) =~= Seq::<Seq<char>>::empty());
}

/// `wait` waits for any reply and for an hour where nothing else is said; for
/// idleness with `--idle`, and for a task with `--task`.
pub proof fn law_asking_to_wait(
    args: &[&str],
    r: Result<(u64, Awaited), ArgsError>,
    front: Seq<Seq<char>>,
    back: Seq<Seq<char>>,
)
    requires
        call_ensures(wait_request, (args,), r),
        !words(args@).contains("--timeout"@),
    ensures
        words(args@).contains("--idle"@) ==> (r matches Ok((limit, what)) && limit == 3600 && what@
            is Idle),
        !words(args@).contains("--idle"@) && !words(args@).contains("--task"@) && !words(
            args@,
        ).contains("--match"@) ==> (r matches Ok((limit, what)) && limit == 3600 && what@
            == AwaitedModel::Reply(None)),
        !words(args@).contains("--idle"@) && !front.contains("--task"@) && words(args@) == front
            + seq!["--task"@] + back ==> (r matches Ok((limit, what)) && limit == 3600 && what@
            == AwaitedModel::Task(
            if back.len() > 0 && !"--"@.is_prefix_of(back[0]) {
                Some(back[0])
            } else {
                None
            },
        )),
{
    law_what_a_timeout_is(words(args@), Seq::empty(), Seq::empty());
    law_what_wait_waits_for(words(args@), 3600);
    if !words(args@).contains("--match"@) {
        law_a_flag_without_a_value(words(args@), "--match"@);
    }
    if !words(args@).contains("--idle"@) && !front.contains("--task"@) && words(args@) == front
        + seq!["--task"@] + back {
        law_what_task_waits_for(front, back, 3600);
    }
}

// ---------------------------------------------------------------------------
// Reports

/// `read` prints the last line last, with its clock, whose it is and, with
/// `--full`, its whole text; before it stands what is printed without it.
pub proof fn law_reading_in_full(
    lines: &[Line],
    fewer: &[Line],
    request: &ReadRequest,
    r: String,
    less: String,
)
    requires
        call_ensures(read_report, (lines, request), r),
        call_ensures(read_report, (fewer, request), less),
        lines@.len() > 0,
        fewer@ == lines@.drop_last(),
        lines@.len() <= request.want,
    ensures
        request.full ==> r@ == less@ + (clock_of(lines@.last().at@) + "  "@ + lines@.last().who@
            + "  "@ + lines@.last().text@ + "\n\n"@),
        !request.full && lines@.last().text@.len() <= 700 ==> r@ == less@ + (clock_of(
            lines@.last().at@,
        ) + "  "@ + lines@.last().who@ + "  "@ + lines@.last().text@ + "\n\n"@),
        !request.full && lines@.last().text@.len() > 700 ==> r@ == less@ + (clock_of(
            lines@.last().at@,
        ) + "  "@ + lines@.last().who@ + "  "@ + (lines@.last().text@.subrange(0, 700) + "… (+"@
            + decimal((lines@.last().text@.len() - 700) as nat) + " chars, --full for all)"@)
            + "\n\n"@),
{
    let line = lines@.last();
    let models = line_models(lines@);
    assert(line_models(fewer@) =~= models.drop_last());
    assert(line_models(seq![line]) =~= seq![line@]);
    assert(models =~= models.drop_last() + line_models(seq![line]));
    let want = request.want as nat;
    law_which_lines_read_prints(
        Seq::empty(),
        models.drop_last(),
        line_models(seq![line]),
        request.full,
        want,
    );
    law_how_read_prints_a_line(line, want);
    law_what_is_shown_of_a_message(line.text@);
}

/// Where there are more lines than wanted, `read` prints the last ones as it
/// would print them alone, and how many are before them.
pub proof fn law_reading_the_last(
    lines: &[Line],
    last: &[Line],
    earlier: Seq<Line>,
    request: &ReadRequest,
    r: String,
    alone: String,
)
    requires
        call_ensures(read_report, (lines, request), r),
        call_ensures(read_report, (last, request), alone),
        lines@ == earlier + last@,
        earlier.len() > 0,
        last@.len() == request.want,
    ensures
        r@ == alone@ + "("@ + decimal(earlier.len()) + " earlier, ask for more)\n"@,
{
    assert(line_models(lines@) =~= line_models(earlier) + line_models(last@));
    law_which_lines_read_prints(
        line_models(earlier),
        line_models(last@),
        Seq::empty(),
        request.full,
        request.want as nat,
    );
}

/// A message is shortened only where it is long and `--full` is not asked for.
pub proof fn law_shortening(text: &str, full: bool, r: String)
    requires
        call_ensures(shorten, (text, full), r),
    ensures
        full || text@.len() <= 700 ==> r@ == text@,
        !full && text@.len() > 700 ==> r@ == text@.subrange(0, 700) + "… (+"@ + decimal(
            (text@.len() - 700) as nat,
        ) + " chars, --full for all)"@,
{
    law_what_is_shown_of_a_message(text@);
}

/// `status` says what the session says of itself, and then what is known of the
/// windows: that there are none, or why they are not known, or each of them on a
/// line behind the others.
pub proof fn law_reporting_a_status(
    agent: &Agent,
    info: &Info,
    windows: &Result<Vec<(String, String)>, String>,
    fewer: &Result<Vec<(String, String)>, String>,
    r: String,
    less: String,
)
    requires
        call_ensures(status_report, (agent, info, windows), r),
        call_ensures(status_report, (agent, info, fewer), less),
    ensures
        info_text(agent@.name, *info).is_prefix_of(r@),
        *windows matches Err(error) ==> r@ == info_text(agent@.name, *info)
            + ("  windows unavailable: "@ + error@ + "\n"@),
        *windows matches Ok(list) ==> list@.len() == 0 ==> r@ == info_text(agent@.name, *info)
            + "  (tmux is running but has no windows)\n"@,
        *windows matches Ok(list) ==> *fewer matches Ok(front) ==> front@.len() > 0 && list@
            == front@.push(list@.last()) ==> r@ == less@ + ("  "@ + padded(list@.last().0@, 20)
            + " "@ + list@.last().1@ + "\n"@),
{
    if let Ok(list) = *windows {
        if let Ok(front) = *fewer {
            if front@.len() > 0 && list@ == front@.push(list@.last()) {
                let (name, command) = list@.last();
                let one = window_models(seq![(name, command)]);
                assert(window_models(list@) =~= window_models(front@) + one);
                law_how_windows_are_printed(window_models(front@), one, name, command, Seq::empty());
                assert(r@ =~= less@ + ("  "@ + padded(name@, 20) + " "@ + command@ + "\n"@));
            }
        }
        if list@.len() == 0 {
            assert(window_models(list@) =~= Seq::<(Seq<char>, Seq<char>)>::empty());
        }
    }
    assert(info_text(agent@.name, *info) =~= r@.subrange(
        0,
        info_text(agent@.name, *info).len() as int,
    ));
}

/// A word that is no verb is quoted, and the usage follows.
pub proof fn law_an_unknown_verb(verb: &str, r: String)
    requires
        call_ensures(unknown_command, (verb,), r),
    ensures
        r@ == "no such command "@ + quoted(verb@) + "\n\n"@ + USAGE@,
{
}

// ---------------------------------------------------------------------------
// Where to point

/// A named target is where the config says, whatever the environment says; the
/// default is, but for what the environment says; and a name that no target has
/// is an error.
pub proof fn law_resolving(
    config: &Config,
    named: Option<&str>,
    path: &str,
    host: Option<String>,
    window: Option<String>,
    r: Result<(String, String), ConfigError>,
    name: Seq<char>,
    target: TargetModel,
)
    requires
        call_ensures(resolve, (config, named, path, host, window), r),
    ensures
        word_of(named) == Some(name) && config@.target(name) == Some(target) ==> (
        r matches Ok((far, at)) && far@ == target.host && at@ == target.window),
        word_of(named) == Some(name) && config@.target(name) is None ==> (r matches Err(error)
            && error@ is UnknownTarget),
        named is None && config@.default == Some(name) && config@.target(name) == Some(target) ==> (
        r matches Ok((far, at)) && far@ == (match said_by_environment(text_of(host)) {
            Some(said) => said,
            None => target.host,
        }) && at@ == (match said_by_environment(text_of(window)) {
            Some(said) => said,
            None => target.window,
        })),
        named is None && config@.default is None ==> match (
            said_by_environment(text_of(host)),
            said_by_environment(text_of(window)),
        ) {
            (Some(a), Some(b)) => r matches Ok((far, at)) && far@ == a && at@ == b,
            _ => r is Err,
        },
{
    law_where_to_point(config@, name, target, path@, text_of(host), text_of(window));
}

/// The config file is looked for under the directory for configs, and else under
/// the home directory.
pub proof fn law_finding_the_file(
    xdg: Option<&str>,
    home: Option<&str>,
    r: Result<String, ConfigError>,
)
    requires
        call_ensures(path, (xdg, home), r),
    ensures
        xdg matches Some(dir) ==> dir@.len() > 0 ==> (r matches Ok(at) && dir@.is_prefix_of(at@)
            && "outpost/config.toml"@ == at@.skip(at@.len() - "outpost/config.toml"@.len())),
        xdg is None && home is None ==> r is Err,
        xdg is None && home is Some ==> r is Ok,
{
    if let Some(dir) = xdg {
        if dir@.len() > 0 {
            law_where_the_file_is(dir@, word_of(home), dir@);
            let tail = "outpost/config.toml"@;
            let at = r->Ok_0@;
            assert(at.skip(at.len() - tail.len()) =~= tail);
            assert(dir@ =~= at.subrange(0, dir@.len() as int));
        }
    }
}

/// A file that is not there is a config that says nothing; one that is there
/// counts as it is, or is an error.
pub proof fn law_loading(
    at: &str,
    file: Option<Result<Config, String>>,
    r: Result<Config, ConfigError>,
)
    requires
        call_ensures(load, (at, file), r),
    ensures
        file is None ==> (r matches Ok(config) && config@.default is None && config@.targets.len()
            == 0),
        file matches Some(Ok(config)) ==> r == Ok::<Config, ConfigError>(config),
        file matches Some(Err(_)) ==> r is Err,
{
}

// ---------------------------------------------------------------------------
// The far side

/// A request that was answered gives the answer; one that was not tells a host
/// that was not reached from one that refused.
pub proof fn law_judging(
    remote: &Remote,
    code: Option<i32>,
    stdout: String,
    stderr: &str,
    r: Result<String, RemoteError>,
)
    requires
        call_ensures(Remote::judge, (remote, code, stdout, stderr), r),
    ensures
        code == Some(0i32) ==> (r matches Ok(answer) && answer@ == stdout@),
        code == Some(255i32) ==> (r matches Err(error) && error@ == (RemoteErrorModel::Unreachable {
            host: remote.host@,
            stderr: trimmed(stderr@),
        })),
        code matches Some(other) ==> other != 0 && other != 255 ==> (r matches Err(error) && error@
            == (RemoteErrorModel::Failed {
            host: remote.host@,
            code: other,
            stderr: trimmed(stderr@),
        })),
        code is None ==> (r matches Err(error) && error@ == (RemoteErrorModel::Killed {
            host: remote.host@,
        })),
{
}

/// What is typed goes to the standard input of the snippet and into no snippet,
/// and the snippet goes to ssh behind the host.
pub proof fn law_typing(
    remote: &Remote,
    text: &str,
    other: &str,
    a: Request,
    b: Request,
    args: Vec<String>,
)
    requires
        call_ensures(Remote::type_text, (remote, text), a),
        call_ensures(Remote::type_text, (remote, other), b),
        call_ensures(Remote::ssh_args, (remote, &a), args),
    ensures
        a.script@ == b.script@,
        text_of(a.stdin) == Some(text@),
        texts(args@) == seq!["-o"@, "BatchMode=yes"@, remote.host@, a.script@],
{
    assert(a.script@ == a@.script);
    assert(b.script@ == b@.script);
}

/// Looking at a window, pressing Enter in it and listing windows reads nothing,
/// and each names what it is about.
pub proof fn law_asking_the_far_side(
    remote: &Remote,
    back: usize,
    pane: Request,
    enter: Request,
    list: Request,
)
    requires
        call_ensures(Remote::pane, (remote, back), pane),
        call_ensures(Remote::press_enter, (remote,), enter),
        call_ensures(Remote::windows, (remote,), list),
    ensures
        pane@ == (RequestModel {
            script: "tmux capture-pane -p -S -"@ + decimal(back as nat) + " -t "@ + remote.target@
                + " 2>&1"@,
            stdin: None,
        }),
        enter@ == (RequestModel {
            script: "tmux send-keys -t "@ + remote.target@ + " Enter"@,
            stdin: None,
        }),
        list@ == (RequestModel {
            script:
                "tmux list-windows -a -F '#{session_name}:#{window_name} #{pane_current_command}' 2>&1"@,
            stdin: None,
        }),
{
}

/// The newest session is one of those that are there, none was updated later,
/// and none before it in the list as late; only of none there is none.
pub proof fn law_finding_the_newest(
    infos: Vec<Info>,
    agent: &Agent,
    r: Result<Info, RemoteError>,
)
    requires
        call_ensures(newest, (infos, agent), r),
    ensures
        r is Ok <==> infos@.len() > 0,
        r matches Ok(info) ==> exists|at: int|
            {
                &&& 0 <= at < infos@.len()
                &&& #[trigger] infos@[at] == info
                &&& forall|i: int|
                    0 <= i < infos@.len() ==> (#[trigger] infos@[i]).updated_at <= info.updated_at
                &&& forall|i: int|
                    0 <= i < at ==> (#[trigger] infos@[i]).updated_at < info.updated_at
            },
{
    if let Ok(info) = r {
        let at = choose|at: int|
            is_newest(infos@, at) && #[trigger] infos@[at] == info;
        assert forall|i: int| 0 <= i < infos@.len() implies (#[trigger] infos@[i]).updated_at
            <= info.updated_at by {
            law_nothing_is_newer(infos@, at, i);
        }
        assert forall|i: int| 0 <= i < at implies (#[trigger] infos@[i]).updated_at
            < info.updated_at by {
            law_nothing_is_newer(infos@, at, i);
        }
    }
}

/// What can be read is all that is there of a list with gaps, and the lines that
/// say something are all that are not white space.
pub proof fn law_reading_what_sessions_say(
    gaps: Vec<Option<Info>>,
    infos: Vec<Info>,
    answer: &str,
    lines: Vec<String>,
)
    requires
        call_ensures(readable, (gaps,), infos),
        call_ensures(info_lines, (answer,), lines),
    ensures
        infos@ == gaps@.filter_map(|info: Option<Info>| info),
        texts(lines@) == lines_of(answer@).filter(
            |line: Seq<char>| !white_between(line, 0, line.len() as int),
        ),
{
    law_gaps_are_left_out(gaps@);
    law_lines_that_say_something(lines_of(answer@));
}

/// A line with a blank in it is a window of its own, between the windows of the
/// lines before it and of those behind it.
pub proof fn law_listing_windows(
    answer: &str,
    r: Vec<(String, String)>,
    above: Seq<Seq<char>>,
    name: Seq<char>,
    command: Seq<char>,
    below: Seq<Seq<char>>,
)
    requires
        call_ensures(window_list, (answer,), r),
        lines_of(answer@) == above + seq![name + seq![' '] + command] + below,
        !name.contains(' '),
    ensures
        window_models(r@) == windows_of(above) + seq![(name, command)] + windows_of(below),
{
    let one = seq![name + seq![' '] + command];
    law_which_lines_are_windows(above, one, name, command);
    law_which_lines_are_windows(above + one, below, name, command);
}

/// A transcript is asked for only under a session id, and the snippet names the
/// agent and the id; what the sessions say is asked for in the same way.
pub proof fn law_asking_for_a_transcript(
    remote: &Remote,
    agent: &Agent,
    id: &str,
    r: Result<Request, RemoteError>,
    info: Request,
)
    requires
        call_ensures(Remote::transcript, (remote, agent, id), r),
        call_ensures(Remote::info, (remote, agent), info),
    ensures
        r is Ok <==> forall|i: int|
            0 <= i < id@.len() ==> ('0' <= #[trigger] id@[i] <= '9' || 'a' <= id@[i] <= 'f' || 'A'
                <= id@[i] <= 'F' || id@[i] == '-'),
        r matches Ok(request) ==> request@ == (RequestModel {
            script: "for d in ~/."@ + agent@.name
                + "/projects/*/; do\n                 f=\"${d}"@ + id@
                + ".jsonl\"\n                 if [ -f \"$f\" ]; then tail -c "@ + decimal(8388608)
                + " \"$f\"; exit 0; fi\n               done\n               echo \"no transcript for "@
                + id@ + "\" >&2; exit 3"@,
            stdin: None,
        }),
        info@ == (RequestModel {
            script: "for f in ~/."@ + agent@.name
                + "/sessions/*.json; do cat \"$f\"; echo; done 2>/dev/null || true"@,
            stdin: None,
        }),
{
    law_what_goes_into_a_snippet(id@);
    law_what_is_run(Seq::empty(), 0, agent@.name, id@);
}

/// The environment points at a session exactly where it says both host and
/// window, and they are taken as they are.
pub proof fn law_taking_the_environment(
    host: Option<String>,
    window: Option<String>,
    r: Result<Remote, RemoteError>,
)
    requires
        call_ensures(Remote::from_env, (host, window), r),
    ensures
        r matches Ok(remote) ==> text_of(host) == Some(remote.host@) && text_of(window) == Some(
            remote.target@,
        ),
        r is Ok <==> said_by_environment(text_of(host)) is Some && said_by_environment(
            text_of(window),
        ) is Some,
{
}

} // verus!
