//! What holds of every message that is sent.
use vstd::prelude::*;

use crate::args::{flag_value, timeout_value, ArgsErrorModel};
use crate::number::decimal;
use crate::send::{
    advanced, after, draft_of, is_on_screen, message_of, message_words, sent_text, taken_by, takes,
    uuids_of, wait_after, Action, DeliveryModel, Draft, DraftModel, Event, EventModel, SendError,
    Stage, PATIENCE,
};
use crate::text::{is_space, joined, lines_of, occurs, occurs_at, squeezed, trimmed};
use crate::text_laws::{
    law_blank_is_all_white, law_standing_in_a_text, lemma_squeezed_add, white_between,
};
use crate::transcript::{human_models, HumanModel, HumanTurn};

verus! {

/// A delivery after several events.
pub open spec fn after_all(delivery: DeliveryModel, events: Seq<EventModel>) -> DeliveryModel
    decreases events.len(),
{
    if events.len() == 0 {
        delivery
    } else {
        after(after_all(delivery, events.drop_last()), events.last())
    }
}

/// What is to be done after an event, when the events before it have happened.
pub open spec fn action_at(delivery: DeliveryModel, events: Seq<EventModel>, i: int) -> Action {
    advanced(after_all(delivery, events.take(i)), events[i]).1
}

/// Whether an event shows a message on the screen.
pub open spec fn shows(event: EventModel, message: Seq<char>) -> bool {
    event matches EventModel::Screen(screen) && is_on_screen(screen, message)
}

/// Whether a message was typed and then seen on the screen.
pub open spec fn was_seen(events: Seq<EventModel>, message: Seq<char>) -> bool {
    exists|i: int, j: int|
        0 <= i < j < events.len() && (#[trigger] events[i]) is Typed && shows(
            #[trigger] events[j],
            message,
        )
}

/// Whether a message was typed, then seen on the screen, and Enter pressed then.
pub open spec fn was_entered(events: Seq<EventModel>, message: Seq<char>) -> bool {
    exists|k: int|
        0 <= k < events.len() && was_seen(events.take(k), message) && (#[trigger] events[k]) is Entered
}

proof fn lemma_seen_stays(events: Seq<EventModel>, event: EventModel, message: Seq<char>)
    requires
        was_seen(events, message),
    ensures
        was_seen(events.push(event), message),
{
    let (i, j) = choose|i: int, j: int|
        0 <= i < j < events.len() && (#[trigger] events[i]) is Typed && shows(
            #[trigger] events[j],
            message,
        );
    let more = events.push(event);
    assert(more[i] is Typed && shows(more[j], message));
}

/// What has happened before a delivery is at a stage.
proof fn lemma_history(delivery: DeliveryModel, events: Seq<EventModel>)
    requires
        delivery.stage is Typing,
    ensures
        ({
            let now = after_all(delivery, events);
            &&& now.message == delivery.message
            &&& now.known == delivery.known
            &&& now.stage is Looking ==> exists|i: int|
                0 <= i < events.len() && (#[trigger] events[i]) is Typed
            &&& now.stage is Entering ==> was_seen(events, delivery.message)
            &&& now.stage is Waiting || now.stage is Asking ==> was_entered(
                events,
                delivery.message,
            )
        }),
    decreases events.len(),
{
    if events.len() > 0 {
        let before = events.drop_last();
        let event = events.last();
        lemma_history(delivery, before);
        assert(events =~= before.push(event));
        let was = after_all(delivery, before);
        let now = after_all(delivery, events);
        assert(events[events.len() - 1] == event);
        if now.stage is Looking && was.stage is Looking {
            let i = choose|i: int| 0 <= i < before.len() && (#[trigger] before[i]) is Typed;
            assert(events[i] is Typed);
        }
        if now.stage is Entering {
            if was.stage is Looking {
                let i = choose|i: int| 0 <= i < before.len() && (#[trigger] before[i]) is Typed;
                assert(events[i] is Typed);
                assert(shows(events[events.len() - 1], delivery.message));
            } else {
                lemma_seen_stays(before, event, delivery.message);
            }
        }
        if now.stage is Waiting || now.stage is Asking {
            if was.stage is Entering {
                assert(events.take(events.len() - 1) =~= before);
                assert(events[events.len() - 1] is Entered);
            } else {
                let k = choose|k: int|
                    0 <= k < before.len() && was_seen(before.take(k), delivery.message) && (
                    #[trigger] before[k]) is Entered;
                assert(events.take(k) =~= before.take(k));
                assert(events[k] is Entered);
            }
        }
    }
}

/// Enter is pressed only where the message was typed and then seen on the
/// screen.
pub proof fn law_enter_only_after_the_message_was_seen(
    delivery: DeliveryModel,
    events: Seq<EventModel>,
    i: int,
)
    requires
        delivery.stage is Typing,
        0 <= i < events.len(),
        action_at(delivery, events, i) is PressEnter,
    ensures
        shows(events[i], delivery.message),
        was_seen(events.take(i + 1), delivery.message),
{
    let before = events.take(i);
    lemma_history(delivery, before);
    let k = choose|k: int| 0 <= k < before.len() && (#[trigger] before[k]) is Typed;
    let upto = events.take(i + 1);
    assert(upto[k] is Typed);
    assert(upto[i] == events[i]);
}

/// A message is reported as sent only where it was typed, seen on the screen and
/// entered, and the transcript then has a turn that was not there before and has
/// the message in it; and it is reported as queued exactly where that turn is.
pub proof fn law_sent_only_when_taken(
    delivery: DeliveryModel,
    events: Seq<EventModel>,
    i: int,
    queued: bool,
)
    requires
        delivery.stage is Typing,
        0 <= i < events.len(),
        action_at(delivery, events, i) == (Action::ReportSent { queued }),
    ensures
        was_entered(events.take(i), delivery.message),
        events[i] matches EventModel::Turns(turns) && exists|k: int|
            0 <= k < turns.len() && takes(#[trigger] turns[k], delivery.known, delivery.message)
                && turns[k].queued == queued,
{
    lemma_history(delivery, events.take(i));
    if let EventModel::Turns(turns) = events[i] {
        lemma_taken_by(turns, delivery.known, delivery.message);
    }
}

/// The turn that takes a message is one of the turns, and does.
proof fn lemma_taken_by(turns: Seq<HumanModel>, known: Set<Seq<char>>, message: Seq<char>)
    ensures
        match taken_by(turns, known, message) {
            Some(turn) => exists|k: int|
                0 <= k < turns.len() && takes(#[trigger] turns[k], known, message) && turns[k]
                    == turn,
            None => forall|k: int|
                0 <= k < turns.len() ==> !takes(#[trigger] turns[k], known, message),
        },
    decreases turns.len(),
{
    if turns.len() > 0 {
        if takes(turns[0], known, message) {
            assert(turns[0] == turns[0]);
        } else {
            let rest = turns.skip(1);
            lemma_taken_by(rest, known, message);
            match taken_by(rest, known, message) {
                Some(turn) => {
                    let k = choose|k: int|
                        0 <= k < rest.len() && takes(#[trigger] rest[k], known, message) && rest[k]
                            == turn;
                    assert(turns[k + 1] == rest[k]);
                },
                None => {
                    assert forall|k: int| 0 <= k < turns.len() implies !takes(
                        #[trigger] turns[k],
                        known,
                        message,
                    ) by {
                        if k > 0 {
                            assert(turns[k] == rest[k - 1]);
                        }
                    }
                },
            }
        }
    }
}

/// A turn that takes the message is never passed over: while the transcript is
/// being asked, the delivery is reported as sent as soon as there is one.
pub proof fn law_taken_is_reported(delivery: DeliveryModel, turns: Seq<HumanModel>, k: int)
    requires
        delivery.stage is Asking,
        0 <= k < turns.len(),
        takes(turns[k], delivery.known, delivery.message),
    ensures
        advanced(delivery, EventModel::Turns(turns)).1 is ReportSent,
{
    lemma_taken_by(turns, delivery.known, delivery.message);
}

/// A message is given up only where it was entered and [`PATIENCE`] has run out
/// since, and the transcript is not asked for it any more then.
pub proof fn law_silence_is_waited_out(delivery: DeliveryModel, events: Seq<EventModel>, i: int)
    requires
        delivery.stage is Typing,
        0 <= i < events.len(),
    ensures
        action_at(delivery, events, i) == Action::ReportFailure(SendError::NotTaken) ==> was_entered(
            events.take(i),
            delivery.message,
        ) && (events[i] matches EventModel::Elapsed(millis) && millis >= PATIENCE * 1000),
        action_at(delivery, events, i) is Poll ==> was_entered(events.take(i), delivery.message) && (
        events[i] matches EventModel::Elapsed(millis) && millis < PATIENCE * 1000),
{
    lemma_history(delivery, events.take(i));
}

/// How far a stage is from the start.
spec fn rank(stage: Stage) -> int {
    match stage {
        Stage::Typing => 0,
        Stage::Looking => 1,
        Stage::Entering => 2,
        Stage::Waiting => 3,
        Stage::Asking => 3,
        Stage::Over => 4,
    }
}

proof fn lemma_stages_only_advance(delivery: DeliveryModel, events: Seq<EventModel>, i: int)
    requires
        0 <= i <= events.len(),
    ensures
        rank(after_all(delivery, events.take(i)).stage) <= rank(after_all(delivery, events).stage),
    decreases events.len(),
{
    if i == events.len() {
        assert(events.take(i) =~= events);
    } else {
        let before = events.drop_last();
        assert(before.take(i) =~= events.take(i));
        lemma_stages_only_advance(delivery, before, i);
    }
}

/// Enter is pressed at most once for a message.
pub proof fn law_enter_at_most_once(
    delivery: DeliveryModel,
    events: Seq<EventModel>,
    i: int,
    j: int,
)
    requires
        0 <= i < j < events.len(),
        action_at(delivery, events, i) is PressEnter,
    ensures
        !(action_at(delivery, events, j) is PressEnter),
{
    let upto = events.take(i + 1);
    assert(upto.drop_last() =~= events.take(i));
    assert(upto.last() == events[i]);
    assert(events.take(j).take(i + 1) =~= upto);
    lemma_stages_only_advance(delivery, events.take(j), i + 1);
}

/// Once something was reported, nothing more is done.
pub proof fn law_one_report(delivery: DeliveryModel, events: Seq<EventModel>, i: int, j: int)
    requires
        0 <= i < j < events.len(),
        action_at(delivery, events, i) is ReportSent || action_at(
            delivery,
            events,
            i,
        ) is ReportFailure,
    ensures
        action_at(delivery, events, j) is Nothing,
{
    let upto = events.take(i + 1);
    assert(upto.drop_last() =~= events.take(i));
    assert(upto.last() == events[i]);
    assert(events.take(j).take(i + 1) =~= upto);
    lemma_stages_only_advance(delivery, events.take(j), i + 1);
}

// ---------------------------------------------------------------------------
// The message and the screen

/// A message that may be sent is one line, and is not empty.
pub proof fn law_a_message_is_one_line(text: Seq<char>)
    ensures
        message_of(text) matches Ok(message) ==> message.len() > 0 && !message.contains('\n'),
{
}

/// No flag is part of a message.
pub proof fn law_flags_are_not_message_text(args: Seq<Seq<char>>)
    ensures
        !message_words(args).contains("--wait"@),
        !message_words(args).contains("--timeout"@),
        !message_words(args).contains("--match"@),
    decreases args.len(),
{
    if args.len() > 0 {
        law_flags_are_not_message_text(args.skip(1));
        if args.len() > 1 {
            law_flags_are_not_message_text(args.skip(2));
        }
        let rest = message_words(args.skip(1));
        let all = message_words(args);
        assert forall|word: Seq<char>| #[trigger] all.contains(word) implies word == args[0]
            || rest.contains(word) || (args.len() > 1 && message_words(args.skip(2)).contains(
            word,
        )) by {
            let i = choose|i: int| 0 <= i < all.len() && all[i] == word;
            if all == seq![args[0]] + rest && i > 0 {
                assert(rest[i - 1] == word);
            }
        }
    }
}

/// Where no word is a flag, all of them are the message.
pub proof fn law_other_words_are_kept(args: Seq<Seq<char>>)
    requires
        !args.contains("--wait"@),
        !args.contains("--timeout"@),
        !args.contains("--match"@),
    ensures
        message_words(args) == args,
    decreases args.len(),
{
    if args.len() > 0 {
        let rest = args.skip(1);
        assert forall|word: Seq<char>| #[trigger] rest.contains(word) implies args.contains(
            word,
        ) by {
            let i = choose|i: int| 0 <= i < rest.len() && rest[i] == word;
            assert(args[i + 1] == word);
        }
        law_other_words_are_kept(rest);
        assert(args.contains(args[0]));
        assert(seq![args[0]] + rest =~= args);
    }
}

proof fn lemma_squeezed_spaces(s: Seq<char>)
    requires
        forall|i: int| 0 <= i < s.len() ==> is_space(#[trigger] s[i]),
    ensures
        squeezed(s) == Seq::<char>::empty(),
    decreases s.len(),
{
    if s.len() > 0 {
        assert(is_space(s[s.len() - 1]));
        assert forall|i: int| 0 <= i < s.drop_last().len() implies is_space(
            #[trigger] s.drop_last()[i],
        ) by {
            assert(s.drop_last()[i] == s[i]);
        }
        lemma_squeezed_spaces(s.drop_last());
    } else {
        assert(s =~= Seq::empty());
    }
}

/// Wherever a composer wraps, the message counts as on the screen or not as it
/// would without the wrap.
pub proof fn law_a_wrap_changes_nothing(
    front: Seq<char>,
    wrap: Seq<char>,
    back: Seq<char>,
    message: Seq<char>,
)
    requires
        forall|i: int| 0 <= i < wrap.len() ==> is_space(#[trigger] wrap[i]),
    ensures
        is_on_screen(front + wrap + back, message) == is_on_screen(front + back, message),
{
    lemma_squeezed_add(front + wrap, back);
    lemma_squeezed_add(front, wrap);
    lemma_squeezed_add(front, back);
    lemma_squeezed_spaces(wrap);
    assert(squeezed(front) + squeezed(wrap) =~= squeezed(front));
}

/// A message that stands on the screen as it was typed is on the screen.
pub proof fn law_what_is_shown_is_on_screen(
    front: Seq<char>,
    message: Seq<char>,
    back: Seq<char>,
)
    ensures
        is_on_screen(front + message + back, message),
{
    lemma_squeezed_add(front + message, back);
    lemma_squeezed_add(front, message);
    let screen = squeezed(front + message + back);
    let at = squeezed(front).len() as int;
    assert(screen.subrange(at, at + squeezed(message).len()) =~= squeezed(message));
    assert(occurs_at(screen, squeezed(message), at));
}

/// A message is on the screen exactly where, without any white space, the screen
/// is something, the message, and something.
pub proof fn law_what_on_screen_means(screen: Seq<char>, message: Seq<char>)
    ensures
        is_on_screen(screen, message) <==> exists|front: Seq<char>, back: Seq<char>|
            squeezed(screen) == #[trigger] (front + squeezed(message) + back),
{
    law_standing_in_a_text(squeezed(screen), squeezed(message));
}

/// Whether a word is none of the flags that `send` takes.
pub open spec fn is_no_flag(word: Seq<char>) -> bool {
    word != "--wait"@ && word != "--timeout"@ && word != "--match"@
}

proof fn lemma_words_before(front: Seq<Seq<char>>, back: Seq<Seq<char>>)
    requires
        forall|i: int| 0 <= i < front.len() ==> is_no_flag(#[trigger] front[i]),
    ensures
        message_words(front + back) == front + message_words(back),
    decreases front.len(),
{
    if front.len() == 0 {
        assert(front + back =~= back);
        assert(front + message_words(back) =~= message_words(back));
    } else {
        let rest = front.skip(1);
        assert((front + back)[0] == front[0]);
        assert((front + back).skip(1) =~= rest + back);
        assert forall|i: int| 0 <= i < rest.len() implies is_no_flag(#[trigger] rest[i]) by {
            assert(rest[i] == front[i + 1]);
        }
        lemma_words_before(rest, back);
        assert(is_no_flag(front[0]));
        assert(seq![front[0]] + (rest + message_words(back)) =~= front + message_words(back));
    }
}

/// `--wait` takes no value: it alone is left out, and every word before it and
/// behind it counts as it would without it.
pub proof fn law_wait_takes_no_value(front: Seq<Seq<char>>, back: Seq<Seq<char>>)
    requires
        forall|i: int| 0 <= i < front.len() ==> is_no_flag(#[trigger] front[i]),
    ensures
        message_words(front + seq!["--wait"@] + back) == front + message_words(back),
        message_words(front + back) == front + message_words(back),
        message_words(front) == front,
{
    let tail = seq!["--wait"@] + back;
    assert(front + seq!["--wait"@] + back =~= front + tail);
    lemma_words_before(front, tail);
    assert(tail[0] == "--wait"@);
    assert(tail.skip(1) =~= back);
    lemma_words_before(front, back);
    let nothing = Seq::<Seq<char>>::empty();
    lemma_words_before(front, nothing);
    assert(front + nothing =~= front);
    assert(message_words(nothing) =~= nothing);
}

/// `--timeout` and `--match` take the word behind them, and no other: the two
/// are left out, and every other word counts as it would without them.
pub proof fn law_a_flag_takes_its_value(
    front: Seq<Seq<char>>,
    flag: Seq<char>,
    value: Seq<char>,
    back: Seq<Seq<char>>,
)
    requires
        forall|i: int| 0 <= i < front.len() ==> is_no_flag(#[trigger] front[i]),
        flag == "--timeout"@ || flag == "--match"@,
    ensures
        message_words(front + seq![flag, value] + back) == front + message_words(back),
        message_words(front + seq![flag]) == front,
{
    reveal_strlit("--wait");
    reveal_strlit("--timeout");
    reveal_strlit("--match");
    assert(flag != "--wait"@) by {
        assert(flag[2] != "--wait"@[2]);
    }
    let tail = seq![flag, value] + back;
    assert(front + seq![flag, value] + back =~= front + tail);
    lemma_words_before(front, tail);
    assert(tail[0] == flag);
    assert(tail.skip(2) =~= back);
    lemma_words_before(front, seq![flag]);
    assert(front + message_words(seq![flag]) =~= front);
}

/// A text comes from the standard input exactly where the words of the message
/// are a lone `-`; else it is the words with a blank between two. Without any
/// argument there is neither.
pub proof fn law_where_a_text_comes_from(args: Seq<Seq<char>>)
    ensures
        draft_of(args) == Err::<DraftModel, SendError>(SendError::NoArgument) <==> args.len() == 0,
        args.len() > 0 && message_words(args) == seq!["-"@] ==> draft_of(args) == Ok::<
            DraftModel,
            SendError,
        >(DraftModel::Stdin),
        args.len() > 0 && message_words(args) != seq!["-"@] ==> draft_of(args) == Ok::<
            DraftModel,
            SendError,
        >(DraftModel::Words(joined(message_words(args), " "@))),
{
}

/// What may be sent is the text without the white space around it, where that is
/// one line; nothing but white space is nothing to send; and of several lines
/// the error says how many.
pub proof fn law_what_may_be_sent(text: Seq<char>, message: Seq<char>)
    ensures
        message_of(text) == Ok::<Seq<char>, SendError>(message) <==> message == trimmed(text)
            && message.len() > 0 && forall|i: int|
            0 <= i < message.len() ==> #[trigger] message[i] != '\n',
        message_of(text) == Err::<Seq<char>, SendError>(SendError::Nothing) <==> white_between(
            text,
            0,
            text.len() as int,
        ),
        trimmed(text).contains('\n') ==> message_of(text) == Err::<Seq<char>, SendError>(
            SendError::SeveralLines(lines_of(trimmed(text)).len() as u64),
        ),
{
    law_blank_is_all_white(text);
    if message_of(text) == Ok::<Seq<char>, SendError>(message) {
        assert forall|i: int| 0 <= i < message.len() implies #[trigger] message[i] != '\n' by {
            assert(message.contains(message[i]));
        }
    }
}

/// `send` waits afterwards exactly where it is told to, and then as long and for
/// the text that it is told; the timeout is looked at first.
pub proof fn law_what_send_waits_for(args: Seq<Seq<char>>)
    ensures
        wait_after(args) is None <==> !args.contains("--wait"@),
        args.contains("--wait"@) ==> match timeout_value(args) {
            Err(error) => wait_after(args) == Some(
                Err::<(nat, Option<Seq<char>>), ArgsErrorModel>(error),
            ),
            Ok(limit) => match flag_value(args, "--match"@) {
                Err(error) => wait_after(args) == Some(
                    Err::<(nat, Option<Seq<char>>), ArgsErrorModel>(error),
                ),
                Ok(wanted) => wait_after(args) == Some(
                    Ok::<(nat, Option<Seq<char>>), ArgsErrorModel>((limit, wanted)),
                ),
            },
        },
{
}

// ---------------------------------------------------------------------------
// The delivery, step by step

/// What was there before is every turn that was there, and nothing else.
pub proof fn law_what_was_there_before(turns: Seq<HumanTurn>, uuid: Seq<char>)
    ensures
        uuids_of(human_models(turns)).contains(uuid) <==> exists|k: int|
            0 <= k < turns.len() && (#[trigger] turns[k]).uuid@ == uuid,
    decreases turns.len(),
{
    let models = human_models(turns);
    if turns.len() > 0 {
        let fewer = turns.drop_last();
        law_what_was_there_before(fewer, uuid);
        assert(human_models(fewer) =~= models.drop_last());
        assert(models.last() == turns[turns.len() - 1]@);
        if exists|k: int| 0 <= k < fewer.len() && (#[trigger] fewer[k]).uuid@ == uuid {
            let k = choose|k: int| 0 <= k < fewer.len() && (#[trigger] fewer[k]).uuid@ == uuid;
            assert(turns[k].uuid@ == uuid);
        }
        if exists|k: int| 0 <= k < turns.len() && (#[trigger] turns[k]).uuid@ == uuid {
            let k = choose|k: int| 0 <= k < turns.len() && (#[trigger] turns[k]).uuid@ == uuid;
            if k < fewer.len() {
                assert(fewer[k].uuid@ == uuid);
            }
        }
    }
}

/// The turn that takes a message is the first that was not there before and has
/// the message in its text; there is none only where no turn is such a one.
pub proof fn law_who_takes_a_message(
    turns: Seq<HumanTurn>,
    known: Set<Seq<char>>,
    message: Seq<char>,
)
    ensures
        match taken_by(human_models(turns), known, message) {
            Some(turn) => exists|k: int|
                {
                    &&& 0 <= k < turns.len()
                    &&& (#[trigger] turns[k])@ == turn
                    &&& turns[k].queued == turn.queued
                    &&& !known.contains(turns[k].uuid@)
                    &&& occurs(turns[k].text@, message)
                    &&& forall|j: int|
                        0 <= j < k ==> known.contains((#[trigger] turns[j]).uuid@) || !occurs(
                            turns[j].text@,
                            message,
                        )
                },
            None => forall|j: int|
                0 <= j < turns.len() ==> known.contains((#[trigger] turns[j]).uuid@) || !occurs(
                    turns[j].text@,
                    message,
                ),
        },
    decreases turns.len(),
{
    let models = human_models(turns);
    if turns.len() > 0 {
        assert(models[0] == turns[0]@);
        if !takes(models[0], known, message) {
            let rest = turns.skip(1);
            assert(models.skip(1) =~= human_models(rest));
            law_who_takes_a_message(rest, known, message);
            match taken_by(human_models(rest), known, message) {
                Some(turn) => {
                    let k = choose|k: int|
                        {
                            &&& 0 <= k < rest.len()
                            &&& (#[trigger] rest[k])@ == turn
                            &&& rest[k].queued == turn.queued
                            &&& !known.contains(rest[k].uuid@)
                            &&& occurs(rest[k].text@, message)
                            &&& forall|j: int|
                                0 <= j < k ==> known.contains((#[trigger] rest[j]).uuid@)
                                    || !occurs(rest[j].text@, message)
                        };
                    assert(turns[k + 1] == rest[k]);
                    assert forall|j: int| 0 <= j < k + 1 implies known.contains(
                        (#[trigger] turns[j]).uuid@,
                    ) || !occurs(turns[j].text@, message) by {
                        if j > 0 {
                            assert(rest[j - 1] == turns[j]);
                        }
                    }
                },
                None => {
                    assert forall|j: int| 0 <= j < turns.len() implies known.contains(
                        (#[trigger] turns[j]).uuid@,
                    ) || !occurs(turns[j].text@, message) by {
                        if j > 0 {
                            assert(rest[j - 1] == turns[j]);
                        }
                    }
                },
            }
        }
    }
}

/// A message that is typed is looked for; where it is on the screen Enter is
/// pressed and then the time is taken, and where it is not, that is reported.
pub proof fn law_from_typing_to_enter(delivery: DeliveryModel, screen: Seq<char>)
    requires
        delivery.stage is Typing,
    ensures
        ({
            let events = seq![
                EventModel::Typed,
                EventModel::Screen(screen),
                EventModel::Entered,
            ];
            &&& action_at(delivery, events, 0) is Look
            &&& is_on_screen(screen, delivery.message) ==> {
                &&& action_at(delivery, events, 1) is PressEnter
                &&& action_at(delivery, events, 2) is TakeTime
                &&& after_all(delivery, events) == (DeliveryModel {
                    stage: Stage::Waiting,
                    ..delivery
                })
            }
            &&& !is_on_screen(screen, delivery.message) ==> {
                &&& action_at(delivery, events, 1) == Action::ReportFailure(SendError::NotOnScreen)
                &&& action_at(delivery, events, 2) is Nothing
                &&& after_all(delivery, events) == (DeliveryModel {
                    stage: Stage::Over,
                    ..delivery
                })
            }
        }),
{
    let events = seq![EventModel::Typed, EventModel::Screen(screen), EventModel::Entered];
    assert(events.take(0) =~= Seq::<EventModel>::empty());
    assert(after_all(delivery, events.take(0)) == delivery);
    assert(events.take(1).drop_last() =~= events.take(0));
    assert(events.take(1).last() is Typed);
    assert(events.take(2).drop_last() =~= events.take(1));
    assert(events.take(2).last() == EventModel::Screen(screen));
    assert(events.drop_last() =~= events.take(2));
    assert(events.last() is Entered);
}

/// Once Enter was pressed the transcript is asked again and again, each time
/// after three quarters of a second, as long as twenty seconds have not gone by.
/// The first turn that takes the message ends it, and says whether it is queued.
pub proof fn law_from_enter_to_a_report(
    delivery: DeliveryModel,
    millis: nat,
    turns: Seq<HumanModel>,
)
    requires
        delivery.stage is Waiting,
    ensures
        millis < 20000 ==> {
            let asking = DeliveryModel { stage: Stage::Asking, ..delivery };
            &&& advanced(delivery, EventModel::Elapsed(millis)).1 == (Action::Poll {
                after_millis: 750,
            })
            &&& after(delivery, EventModel::Elapsed(millis)) == asking
            &&& match taken_by(turns, delivery.known, delivery.message) {
                Some(turn) => {
                    &&& advanced(asking, EventModel::Turns(turns)).1 == (Action::ReportSent {
                        queued: turn.queued,
                    })
                    &&& after(asking, EventModel::Turns(turns)).stage is Over
                },
                None => {
                    &&& advanced(asking, EventModel::Turns(turns)).1 is TakeTime
                    &&& after(asking, EventModel::Turns(turns)) == delivery
                },
            }
        },
        millis >= 20000 ==> {
            &&& advanced(delivery, EventModel::Elapsed(millis)).1 == Action::ReportFailure(
                SendError::NotTaken,
            )
            &&& after(delivery, EventModel::Elapsed(millis)).stage is Over
        },
{
}

/// What was not asked for changes nothing, and nothing is done about it.
pub proof fn law_out_of_turn(delivery: DeliveryModel, event: EventModel)
    requires
        !(delivery.stage is Typing && event is Typed),
        !(delivery.stage is Looking && event is Screen),
        !(delivery.stage is Entering && event is Entered),
        !(delivery.stage is Waiting && event is Elapsed),
        !(delivery.stage is Asking && event is Turns),
    ensures
        after(delivery, event) == delivery,
        advanced(delivery, event).1 is Nothing,
{
}

/// What is reported of a message says whether it was read or is queued, and how
/// many characters it has.
pub proof fn law_what_is_reported(message: Seq<char>)
    ensures
        sent_text(message, false) == "sent, "@ + "read"@ + " ("@ + decimal(message.len())
            + " chars)\n"@,
        sent_text(message, true) == "sent, "@
            + "queued — it was working, so it will read this when the turn ends"@ + " ("@
            + decimal(message.len()) + " chars)\n"@,
{
}

/// What is said about an error names the number of lines, or how long was waited.
pub proof fn law_what_is_said_about_sending(count: u64)
    ensures
        SendError::NoArgument.message_spec() == "usage: outpost send <text>"@,
        SendError::Nothing.message_spec() == "nothing to send"@,
        SendError::SeveralLines(count).message_spec() == "that is "@ + decimal(count as nat)
            + " lines — this types into a composer, where a newline submits. send them one at a time"@,
        SendError::NotOnScreen.message_spec()
            == "typed it, but it is not on screen — not pressing Enter.\nthe window may not be the composer. `outpost pane` to look."@,
        SendError::NotTaken.message_spec()
            == "typed and submitted, but it has not appeared in the transcript in "@ + decimal(20)
            + "s.\nit may be mid-turn with a slow write, or it may have stopped reading input.\n`outpost pane` to see which — do NOT send it again blind."@,
{
}

/// An event holds what happened, and a draft its text.
pub proof fn law_what_events_and_drafts_hold(
    text: String,
    millis: u128,
    turns: Vec<HumanTurn>,
)
    ensures
        Event::Typed@ is Typed,
        Event::Screen(text)@ == EventModel::Screen(text@),
        Event::Entered@ is Entered,
        Event::Elapsed(millis)@ == EventModel::Elapsed(millis as nat),
        Event::Turns(turns)@ == EventModel::Turns(human_models(turns@)),
        Draft::Stdin@ is Stdin,
        Draft::Words(text)@ == DraftModel::Words(text@),
{
}

} // verus!
