//! Waiting for a session: for a reply, for the end of a task, for idleness.
//!
//! Each watch is told how long it has been and says whether to ask the session
//! once more, and when; and it is told what the session shows, and says whether
//! what it waits for has come.
use vstd::hash_set::StringHashSet;
use vstd::prelude::*;
use vstd::string::StringExecFns;

use crate::number::{decimal, write_number};
use crate::text::{contains, occurs, same, text_of};
use crate::text_laws::law_standing_in_a_text;
use crate::transcript::{
    clock, clock_of, ending_models, turn_models, Ending, EndingModel, Turn, TurnModel,
};
use crate::unicode::{lowercase, lowercased, quote, quoted};

verus! {

// ---------------------------------------------------------------------------
// Time

/// How many milliseconds lie between two questions of a wait. A question costs
/// an ssh round trip and a transcript tail, and what is waited for is usually a
/// build measured in tens of minutes.
pub const WAIT_EVERY: u64 = 15000;

/// Whether a time that has gone by is within a limit.
pub open spec fn is_in_time(elapsed_millis: nat, limit_seconds: nat) -> bool {
    elapsed_millis < limit_seconds * 1000
}

/// Whether a time that has gone by is within a limit.
pub fn in_time(elapsed_millis: u128, limit_seconds: u64) -> (r: bool)
    ensures
        r == is_in_time(elapsed_millis as nat, limit_seconds as nat),
{
    elapsed_millis < limit_seconds as u128 * 1000
}

/// What a wait does next.
#[derive(Debug)]
pub enum Next {
    /// Let some milliseconds go by, ask the session, and let some more go by
    /// where the answer is not what is waited for.
    Ask { before_millis: u64, after_millis: u64 },
    /// Stop, and say this. It is not success: a script must be able to tell "it
    /// answered" from "it did not".
    GiveUp(String),
}

/// What a [`Next`] holds.
pub enum NextModel {
    Ask { before_millis: nat, after_millis: nat },
    GiveUp(Seq<char>),
}

impl View for Next {
    type V = NextModel;

    open spec fn view(&self) -> NextModel {
        match self {
            Next::Ask { before_millis, after_millis } => NextModel::Ask {
                before_millis: *before_millis as nat,
                after_millis: *after_millis as nat,
            },
            Next::GiveUp(message) => NextModel::GiveUp(message@),
        }
    }
}

/// What a wait for something new does next: it has just seen what is there, so
/// it lets time go by and then asks, until the limit is reached.
pub open spec fn pause_then_ask(elapsed: nat, limit: nat, message: Seq<char>) -> NextModel {
    if is_in_time(elapsed, limit) {
        NextModel::Ask { before_millis: WAIT_EVERY as nat, after_millis: 0 }
    } else {
        NextModel::GiveUp(message)
    }
}

/// What a wait for a state does next: it may be there already, so it asks and
/// then lets time go by, until the limit is reached.
pub open spec fn ask_then_pause(elapsed: nat, limit: nat, message: Seq<char>) -> NextModel {
    if is_in_time(elapsed, limit) {
        NextModel::Ask { before_millis: 0, after_millis: WAIT_EVERY as nat }
    } else {
        NextModel::GiveUp(message)
    }
}

// ---------------------------------------------------------------------------
// What is wanted

/// Whether a text is about what is wanted: it holds the wanted text, whatever
/// the case of the letters, or nothing in particular is wanted.
pub open spec fn is_about(text: Seq<char>, wanted: Option<Seq<char>>) -> bool {
    match wanted {
        Some(wanted) => occurs(lowercased(text), lowercased(wanted)),
        None => true,
    }
}

/// Whether a text is about what is wanted.
pub fn about(text: &str, wanted: &Option<String>) -> (r: bool)
    ensures
        r == is_about(text@, text_of(*wanted)),
{
    match wanted {
        Some(wanted) => contains(lowercase(text).as_str(), lowercase(wanted.as_str()).as_str()),
        None => true,
    }
}

// ---------------------------------------------------------------------------
// A reply

/// The uuids of turns.
pub open spec fn turn_uuids(turns: Seq<TurnModel>) -> Set<Seq<char>>
    decreases turns.len(),
{
    if turns.len() == 0 {
        Set::empty()
    } else {
        turn_uuids(turns.drop_last()).insert(turns.last().uuid)
    }
}

/// Whether a turn is news: it was not there before, and is about what is wanted.
pub open spec fn is_news(
    turn: TurnModel,
    known: Set<Seq<char>>,
    wanted: Option<Seq<char>>,
) -> bool {
    !known.contains(turn.uuid) && is_about(turn.text, wanted)
}

/// The turns that are news.
pub open spec fn news_of(
    turns: Seq<TurnModel>,
    known: Set<Seq<char>>,
    wanted: Option<Seq<char>>,
) -> Seq<TurnModel>
    decreases turns.len(),
{
    if turns.len() == 0 {
        Seq::empty()
    } else if is_news(turns.last(), known, wanted) {
        news_of(turns.drop_last(), known, wanted).push(turns.last())
    } else {
        news_of(turns.drop_last(), known, wanted)
    }
}

/// Turns as they are printed, one after the other.
pub open spec fn printed_turns(turns: Seq<TurnModel>) -> Seq<char>
    decreases turns.len(),
{
    if turns.len() == 0 {
        Seq::empty()
    } else {
        printed_turns(turns.drop_last()) + clock_of(turns.last().at) + "  "@ + turns.last().text
            + "\n\n"@
    }
}

/// What is said when the session said nothing that was waited for.
pub open spec fn no_reply(watch: WatchModel) -> Seq<char> {
    match watch.wanted {
        Some(wanted) => "nothing matching "@ + quoted(wanted) + " in "@ + decimal(watch.limit)
            + "s. `outpost read` to see what it did say."@,
        None => "nothing new in "@ + decimal(watch.limit)
            + "s. `outpost pane` to see whether it is still working."@,
    }
}

/// A wait for the session to say something it has not said before.
///
/// Waiting for anything new is the wrong thing whenever somebody else is also
/// talking to the session: a wanted text makes the wait about the thing wanted
/// rather than about the next thing to happen.
pub struct ReplyWatch {
    known: StringHashSet,
    wanted: Option<String>,
    limit: u64,
}

/// What a [`ReplyWatch`] or a [`TaskWatch`] holds.
pub struct WatchModel {
    /// The uuids that were there before.
    pub known: Set<Seq<char>>,
    /// The text that is waited for.
    pub wanted: Option<Seq<char>>,
    /// For how many seconds it is waited for.
    pub limit: nat,
}

impl View for ReplyWatch {
    type V = WatchModel;

    closed spec fn view(&self) -> WatchModel {
        WatchModel {
            known: self.known@,
            wanted: text_of(self.wanted),
            limit: self.limit as nat,
        }
    }
}

impl ReplyWatch {
    /// Begins to wait for so many seconds, when the session has said `turns`.
    pub fn begin(turns: &[Turn], wanted: Option<String>, limit: u64) -> (r: ReplyWatch)
        ensures
            r@ == (WatchModel {
                known: turn_uuids(turn_models(turns@)),
                wanted: text_of(wanted),
                limit: limit as nat,
            }),
    {
        let ghost all = turn_models(turns@);
        let mut known = StringHashSet::new();
        let mut i: usize = 0;
        while i < turns.len()
            invariant
                i <= turns@.len(),
                all == turn_models(turns@),
                known@ == turn_uuids(all.take(i as int)),
            decreases turns.len() - i,
        {
            assert(all.take(i + 1).drop_last() =~= all.take(i as int));
            known.insert(turns[i].uuid.clone());
            i += 1;
        }
        assert(all.take(i as int) =~= all);
        ReplyWatch { known, wanted, limit }
    }

    /// What is printed when the session has now said `turns`: the news, or
    /// nothing as long as there is none.
    pub fn observe(&self, turns: &[Turn]) -> (r: Option<String>)
        ensures
            ({
                let news = news_of(turn_models(turns@), self@.known, self@.wanted);
                match r {
                    Some(report) => news.len() > 0 && report@ == printed_turns(news),
                    None => news.len() == 0,
                }
            }),
    {
        let ghost all = turn_models(turns@);
        let mut out = String::new();
        let mut any = false;
        let mut i: usize = 0;
        while i < turns.len()
            invariant
                i <= turns@.len(),
                all == turn_models(turns@),
                any == (news_of(all.take(i as int), self@.known, self@.wanted).len() > 0),
                out@ == printed_turns(news_of(all.take(i as int), self@.known, self@.wanted)),
            decreases turns.len() - i,
        {
            let turn = &turns[i];
            let ghost before = news_of(all.take(i as int), self@.known, self@.wanted);
            proof {
                assert(all.take(i + 1).drop_last() =~= all.take(i as int));
                assert(before.push(turn@).drop_last() =~= before);
            }
            if !self.known.contains(turn.uuid.as_str()) && about(turn.text.as_str(), &self.wanted) {
                any = true;
                out.append(clock(turn.at.as_str()).as_str());
                out.append("  ");
                out.append(turn.text.as_str());
                out.append("\n\n");
            }
            i += 1;
        }
        assert(all.take(i as int) =~= all);
        if any {
            Some(out)
        } else {
            None
        }
    }

    /// What is done next, when so many milliseconds have gone by since the wait
    /// began.
    pub fn next(&self, elapsed_millis: u128) -> (r: Next)
        ensures
            r@ == pause_then_ask(elapsed_millis as nat, self@.limit, no_reply(self@)),
    {
        if in_time(elapsed_millis, self.limit) {
            Next::Ask { before_millis: WAIT_EVERY, after_millis: 0 }
        } else {
            Next::GiveUp(self.expired())
        }
    }

    /// What is said when nothing came in time.
    fn expired(&self) -> (r: String)
        ensures
            r@ == no_reply(self@),
    {
        let seconds: u64 = self.limit;
        match &self.wanted {
            Some(wanted) => {
                let mut out = "nothing matching ".to_owned();
                out.append(quote(wanted.as_str()).as_str());
                out.append(" in ");
                out.append(write_number(seconds).as_str());
                out.append("s. `outpost read` to see what it did say.");
                out
            },
            None => {
                let mut out = "nothing new in ".to_owned();
                out.append(write_number(seconds).as_str());
                out.append("s. `outpost pane` to see whether it is still working.");
                out
            },
        }
    }
}

// ---------------------------------------------------------------------------
// The end of a task

/// The uuids of endings.
pub open spec fn ending_uuids(endings: Seq<EndingModel>) -> Set<Seq<char>>
    decreases endings.len(),
{
    if endings.len() == 0 {
        Set::empty()
    } else {
        ending_uuids(endings.drop_last()).insert(endings.last().uuid)
    }
}

/// Whether an ending is the one that is waited for: it was not there before, and
/// its summary is about what is wanted.
pub open spec fn is_awaited(
    ending: EndingModel,
    known: Set<Seq<char>>,
    wanted: Option<Seq<char>>,
) -> bool {
    !known.contains(ending.uuid) && is_about(ending.summary, wanted)
}

/// The first ending that is waited for.
pub open spec fn first_awaited(
    endings: Seq<EndingModel>,
    known: Set<Seq<char>>,
    wanted: Option<Seq<char>>,
) -> Option<EndingModel>
    decreases endings.len(),
{
    if endings.len() == 0 {
        None
    } else if is_awaited(endings[0], known, wanted) {
        Some(endings[0])
    } else {
        first_awaited(endings.skip(1), known, wanted)
    }
}

/// What is printed about an ending.
pub open spec fn ending_text(ending: EndingModel) -> Seq<char> {
    clock_of(ending.at) + "  "@ + ending.status + "  "@ + ending.summary + "\n"@
}

/// What is said about an ending that is not success: a task that was killed must
/// not look like one that did nothing wrong.
pub open spec fn ending_failure(ending: EndingModel) -> Option<Seq<char>> {
    if ending.is_ok() {
        None
    } else {
        Some("the task did not complete — it was "@ + ending.status)
    }
}

/// What is said when a task has ended.
#[derive(Debug)]
pub struct TaskReport {
    /// What is printed.
    pub line: String,
    /// What is wrong, unless the task completed.
    pub failure: Option<String>,
}

/// What is said when no task ended that was waited for.
pub open spec fn no_ending(watch: WatchModel) -> Seq<char> {
    "no background task ended in "@ + decimal(watch.limit)
        + "s. `outpost read` to see what it is doing."@
}

/// A wait for a background task to end.
pub struct TaskWatch {
    known: StringHashSet,
    wanted: Option<String>,
    limit: u64,
}

impl View for TaskWatch {
    type V = WatchModel;

    closed spec fn view(&self) -> WatchModel {
        WatchModel {
            known: self.known@,
            wanted: text_of(self.wanted),
            limit: self.limit as nat,
        }
    }
}

impl TaskWatch {
    /// Begins to wait for so many seconds, when `endings` are there already.
    pub fn begin(endings: &[Ending], wanted: Option<String>, limit: u64) -> (r: TaskWatch)
        ensures
            r@ == (WatchModel {
                known: ending_uuids(ending_models(endings@)),
                wanted: text_of(wanted),
                limit: limit as nat,
            }),
    {
        let ghost all = ending_models(endings@);
        let mut known = StringHashSet::new();
        let mut i: usize = 0;
        while i < endings.len()
            invariant
                i <= endings@.len(),
                all == ending_models(endings@),
                known@ == ending_uuids(all.take(i as int)),
            decreases endings.len() - i,
        {
            assert(all.take(i + 1).drop_last() =~= all.take(i as int));
            known.insert(endings[i].uuid.clone());
            i += 1;
        }
        assert(all.take(i as int) =~= all);
        TaskWatch { known, wanted, limit }
    }

    /// What is said when `endings` are there now: how the task ended, or nothing
    /// as long as it has not.
    pub fn observe(&self, endings: &[Ending]) -> (r: Option<TaskReport>)
        ensures
            match first_awaited(ending_models(endings@), self@.known, self@.wanted) {
                Some(ending) => r matches Some(report) && report.line@ == ending_text(ending)
                    && text_of(report.failure) == ending_failure(ending),
                None => r is None,
            },
    {
        let ghost all = ending_models(endings@);
        let mut i: usize = 0;
        assert(all.skip(0) =~= all);
        while i < endings.len()
            invariant
                i <= endings@.len(),
                all == ending_models(endings@),
                first_awaited(all, self@.known, self@.wanted) == first_awaited(
                    all.skip(i as int),
                    self@.known,
                    self@.wanted,
                ),
            decreases endings.len() - i,
        {
            let ending = &endings[i];
            assert(all.skip(i as int)[0] == ending@);
            if !self.known.contains(ending.uuid.as_str()) && about(
                ending.summary.as_str(),
                &self.wanted,
            ) {
                let mut line = clock(ending.at.as_str());
                line.append("  ");
                line.append(ending.status.as_str());
                line.append("  ");
                line.append(ending.summary.as_str());
                line.append("\n");
                let failure = if ending.ok() {
                    None
                } else {
                    let mut out = "the task did not complete — it was ".to_owned();
                    out.append(ending.status.as_str());
                    Some(out)
                };
                return Some(TaskReport { line, failure });
            }
            assert(all.skip(i as int).skip(1) =~= all.skip(i + 1));
            i += 1;
        }
        None
    }

    /// What is done next, when so many milliseconds have gone by since the wait
    /// began.
    pub fn next(&self, elapsed_millis: u128) -> (r: Next)
        ensures
            r@ == pause_then_ask(elapsed_millis as nat, self@.limit, no_ending(self@)),
    {
        if in_time(elapsed_millis, self.limit) {
            Next::Ask { before_millis: WAIT_EVERY, after_millis: 0 }
        } else {
            Next::GiveUp(self.expired())
        }
    }

    /// What is said when no task ended in time.
    fn expired(&self) -> (r: String)
        ensures
            r@ == no_ending(self@),
    {
        let mut out = "no background task ended in ".to_owned();
        out.append(write_number(self.limit).as_str());
        out.append("s. `outpost read` to see what it is doing.");
        out
    }
}

// ---------------------------------------------------------------------------
// Idleness

/// How many consecutive idle readings count as actually idle. One is not
/// enough: a session between two turns is idle for a moment.
pub const SETTLED: usize = 2;

/// A wait for the session to stop working.
pub struct IdleWatch {
    settled: usize,
    last: String,
    limit: u64,
}

/// What an [`IdleWatch`] holds.
pub struct IdleModel {
    /// How many idle readings came last, counted up to [`SETTLED`].
    pub settled: nat,
    /// The last reading.
    pub last: Seq<char>,
    /// For how many seconds idleness is waited for.
    pub limit: nat,
}

impl View for IdleWatch {
    type V = IdleModel;

    closed spec fn view(&self) -> IdleModel {
        IdleModel { settled: self.settled as nat, last: self.last@, limit: self.limit as nat }
    }
}

/// The count of idle readings after one more. Any reading that is not idle
/// restarts it; a command that runs is not idle.
pub open spec fn settled_after(settled: nat, status: Seq<char>) -> nat {
    if status != "idle"@ {
        0
    } else if settled < SETTLED {
        settled + 1
    } else {
        settled
    }
}

/// What is said when the session did not stop working.
pub open spec fn not_idle(watch: IdleModel) -> Seq<char> {
    "still "@ + quoted(watch.last) + " after "@ + decimal(watch.limit) + "s"@
}

impl IdleWatch {
    /// Begins to wait for so many seconds, with no reading yet.
    pub fn begin(limit: u64) -> (r: IdleWatch)
        ensures
            r@ == (IdleModel { settled: 0, last: Seq::empty(), limit: limit as nat }),
    {
        IdleWatch { settled: 0, last: String::new(), limit }
    }

    /// Takes note of a reading. What is printed when the session is idle, or
    /// nothing as long as it is not.
    pub fn observe(&mut self, status: String) -> (r: Option<String>)
        ensures
            final(self)@ == (IdleModel {
                settled: settled_after(old(self)@.settled, status@),
                last: status@,
                limit: old(self)@.limit,
            }),
            text_of(r) == (if final(self)@.settled >= SETTLED {
                Some("idle\n"@)
            } else {
                None
            }),
    {
        if same(status.as_str(), "idle") {
            if self.settled < SETTLED {
                self.settled += 1;
            }
        } else {
            self.settled = 0;
        }
        self.last = status;
        if self.settled >= SETTLED {
            Some("idle\n".to_owned())
        } else {
            None
        }
    }

    /// What is done next, when so many milliseconds have gone by since the wait
    /// began.
    pub fn next(&self, elapsed_millis: u128) -> (r: Next)
        ensures
            r@ == ask_then_pause(elapsed_millis as nat, self@.limit, not_idle(self@)),
    {
        if in_time(elapsed_millis, self.limit) {
            Next::Ask { before_millis: 0, after_millis: WAIT_EVERY }
        } else {
            Next::GiveUp(self.expired())
        }
    }

    /// What is said when the session did not stop in time.
    fn expired(&self) -> (r: String)
        ensures
            r@ == not_idle(self@),
    {
        let seconds: u64 = self.limit;
        let mut out = "still ".to_owned();
        out.append(quote(self.last.as_str()).as_str());
        out.append(" after ");
        out.append(write_number(seconds).as_str());
        out.append("s");
        out
    }
}

// ---------------------------------------------------------------------------
// Laws

/// No wait gives up before its limit, and none asks once it is reached.
pub proof fn law_a_wait_ends_at_its_limit(elapsed: nat, limit: nat, message: Seq<char>)
    ensures
        pause_then_ask(elapsed, limit, message) is GiveUp <==> elapsed >= limit * 1000,
        ask_then_pause(elapsed, limit, message) is GiveUp <==> elapsed >= limit * 1000,
{
}

/// The count of idle readings after several, from the start.
pub open spec fn settled_by(readings: Seq<Seq<char>>) -> nat
    decreases readings.len(),
{
    if readings.len() == 0 {
        0
    } else {
        settled_after(settled_by(readings.drop_last()), readings.last())
    }
}

/// Whether a number of readings, the last ones, are all idle.
pub open spec fn ends_idle(readings: Seq<Seq<char>>, count: nat) -> bool {
    readings.len() >= count && forall|i: int|
        readings.len() - count <= i < readings.len() ==> #[trigger] readings[i] == "idle"@
}

proof fn lemma_settled_by(readings: Seq<Seq<char>>)
    ensures
        settled_by(readings) <= SETTLED,
        ends_idle(readings, settled_by(readings)),
        settled_by(readings) < SETTLED ==> !ends_idle(readings, settled_by(readings) + 1),
    decreases readings.len(),
{
    if readings.len() > 0 {
        let before = readings.drop_last();
        lemma_settled_by(before);
        let was = settled_by(before);
        let now = settled_by(readings);
        assert(readings[readings.len() - 1] == readings.last());
        if readings.last() == "idle"@ {
            assert forall|i: int| readings.len() - now <= i < readings.len() implies
                #[trigger] readings[i] == "idle"@ by {
                if i < readings.len() - 1 {
                    assert(readings[i] == before[i]);
                }
            }
            if now < SETTLED && ends_idle(readings, now + 1) {
                assert(ends_idle(before, was + 1)) by {
                    assert forall|i: int| before.len() - (was + 1) <= i < before.len() implies
                        #[trigger] before[i] == "idle"@ by {
                        assert(before[i] == readings[i]);
                    }
                }
            }
        }
    }
}

/// A session counts as idle exactly where the last readings were, [`SETTLED`] of
/// them: a flicker in the middle of a turn cannot add up to a false result.
pub proof fn law_idle_is_settled(readings: Seq<Seq<char>>)
    ensures
        settled_by(readings) >= SETTLED <==> ends_idle(readings, SETTLED as nat),
{
    lemma_settled_by(readings);
    let count = settled_by(readings);
    if count < SETTLED && ends_idle(readings, SETTLED as nat) {
        assert(ends_idle(readings, count + 1));
    }
}

proof fn lemma_known_turn(turns: Seq<TurnModel>, i: int)
    requires
        0 <= i < turns.len(),
    ensures
        turn_uuids(turns).contains(turns[i].uuid),
    decreases turns.len(),
{
    if i < turns.len() - 1 {
        lemma_known_turn(turns.drop_last(), i);
        assert(turns.drop_last()[i] == turns[i]);
    }
}

/// News is one of the turns, and about what is wanted.
proof fn lemma_news(turns: Seq<TurnModel>, known: Set<Seq<char>>, wanted: Option<Seq<char>>)
    ensures
        forall|i: int|
            0 <= i < news_of(turns, known, wanted).len() ==> is_news(
                #[trigger] news_of(turns, known, wanted)[i],
                known,
                wanted,
            ),
    decreases turns.len(),
{
    if turns.len() > 0 {
        let before = news_of(turns.drop_last(), known, wanted);
        lemma_news(turns.drop_last(), known, wanted);
        assert forall|i: int| 0 <= i < news_of(turns, known, wanted).len() implies is_news(
            #[trigger] news_of(turns, known, wanted)[i],
            known,
            wanted,
        ) by {
            if i < before.len() {
                assert(news_of(turns, known, wanted)[i] == before[i]);
            }
        }
    }
}

/// What was there when a wait began is never announced as the answer, however
/// often it is written again.
pub proof fn law_old_turns_are_no_news(
    before: Seq<TurnModel>,
    now: Seq<TurnModel>,
    wanted: Option<Seq<char>>,
    i: int,
    k: int,
)
    requires
        0 <= i < before.len(),
        0 <= k < news_of(now, turn_uuids(before), wanted).len(),
    ensures
        news_of(now, turn_uuids(before), wanted)[k].uuid != before[i].uuid,
{
    lemma_known_turn(before, i);
    lemma_news(now, turn_uuids(before), wanted);
}

/// A turn that was not there and is about what is wanted ends the wait.
pub proof fn law_a_new_turn_is_news(
    now: Seq<TurnModel>,
    known: Set<Seq<char>>,
    wanted: Option<Seq<char>>,
    i: int,
)
    requires
        0 <= i < now.len(),
        is_news(now[i], known, wanted),
    ensures
        news_of(now, known, wanted).contains(now[i]),
    decreases now.len(),
{
    let news = news_of(now, known, wanted);
    if i == now.len() - 1 {
        assert(news[news.len() - 1] == now[i]);
    } else {
        let less = now.drop_last();
        assert(less[i] == now[i]);
        law_a_new_turn_is_news(less, known, wanted, i);
        let before = news_of(less, known, wanted);
        let k = choose|k: int| 0 <= k < before.len() && before[k] == now[i];
        assert(news[k] == now[i]);
    }
}

/// The ending that a wait reports was not there when it began.
pub proof fn law_old_endings_are_not_reported(
    before: Seq<EndingModel>,
    now: Seq<EndingModel>,
    wanted: Option<Seq<char>>,
    i: int,
)
    requires
        0 <= i < before.len(),
    ensures
        first_awaited(now, ending_uuids(before), wanted) matches Some(ending) ==> ending.uuid
            != before[i].uuid,
    decreases now.len(),
{
    lemma_known_ending(before, i);
    if now.len() > 0 && !is_awaited(now[0], ending_uuids(before), wanted) {
        law_old_endings_are_not_reported(before, now.skip(1), wanted, i);
    }
}

/// An ending that was not there and is about what is wanted ends the wait, and
/// what is reported then is such an ending.
pub proof fn law_an_awaited_ending_is_reported(
    now: Seq<EndingModel>,
    known: Set<Seq<char>>,
    wanted: Option<Seq<char>>,
    i: int,
)
    requires
        0 <= i < now.len(),
        is_awaited(now[i], known, wanted),
    ensures
        first_awaited(now, known, wanted) matches Some(ending) && now.contains(ending)
            && is_awaited(ending, known, wanted),
    decreases now.len(),
{
    if is_awaited(now[0], known, wanted) {
        assert(now.contains(now[0]));
    } else {
        let rest = now.skip(1);
        assert(rest[i - 1] == now[i]);
        law_an_awaited_ending_is_reported(rest, known, wanted, i - 1);
        let ending = first_awaited(rest, known, wanted)->0;
        let k = choose|k: int| 0 <= k < rest.len() && rest[k] == ending;
        assert(now[k + 1] == ending);
    }
}

proof fn lemma_known_ending(endings: Seq<EndingModel>, i: int)
    requires
        0 <= i < endings.len(),
    ensures
        ending_uuids(endings).contains(endings[i].uuid),
    decreases endings.len(),
{
    if i < endings.len() - 1 {
        lemma_known_ending(endings.drop_last(), i);
        assert(endings.drop_last()[i] == endings[i]);
    }
}

/// A task is reported without a failure exactly where its status is that it
/// completed.
pub proof fn law_only_completed_is_success(ending: EndingModel)
    ensures
        ending_failure(ending) is None <==> ending.status == "completed"@,
{
}

/// A text is about what is wanted exactly where the wanted text stands in it,
/// anywhere in the whole of it, once both are in lower case; and where nothing
/// in particular is wanted, every text is.
pub proof fn law_what_a_text_is_about(text: Seq<char>, wanted: Seq<char>)
    ensures
        is_about(text, Some(wanted)) <==> exists|at: int|
            {
                &&& 0 <= at
                &&& at + lowercased(wanted).len() <= lowercased(text).len()
                &&& #[trigger] lowercased(text).subrange(at, at + lowercased(wanted).len())
                    == lowercased(wanted)
            },
        is_about(text, None),
{
    law_standing_in_a_text(lowercased(text), lowercased(wanted));
}

/// News is every turn with a uuid that is not known and a text that is about
/// what is wanted, in the order of the turns, and nothing else.
pub proof fn law_what_news_is(
    turns: Seq<Turn>,
    known: Set<Seq<char>>,
    wanted: Option<Seq<char>>,
)
    ensures
        news_of(turn_models(turns), known, wanted) == turns.filter(
            |turn: Turn| !known.contains(turn.uuid@) && is_about(turn.text@, wanted),
        ).map_values(|turn: Turn| TurnModel { uuid: turn.uuid@, at: turn.at@, text: turn.text@ }),
    decreases turns.len(),
{
    reveal(Seq::filter);
    let wants = |turn: Turn| !known.contains(turn.uuid@) && is_about(turn.text@, wanted);
    let model = |turn: Turn| TurnModel { uuid: turn.uuid@, at: turn.at@, text: turn.text@ };
    let models = turn_models(turns);
    if turns.len() > 0 {
        let fewer = turns.drop_last();
        law_what_news_is(fewer, known, wanted);
        assert(turn_models(fewer) =~= models.drop_last());
        assert(models.last() == turns.last()@);
        if wants(turns.last()) {
            assert(fewer.filter(wants).push(turns.last()).map_values(model) =~= fewer.filter(
                wants,
            ).map_values(model).push(model(turns.last())));
        }
    } else {
        assert(news_of(models, known, wanted) =~= turns.filter(wants).map_values(model));
    }
}

/// What was there before is every turn that was there, and nothing else.
pub proof fn law_known_turns(turns: Seq<Turn>, uuid: Seq<char>)
    ensures
        turn_uuids(turn_models(turns)).contains(uuid) <==> exists|k: int|
            0 <= k < turns.len() && (#[trigger] turns[k]).uuid@ == uuid,
    decreases turns.len(),
{
    let models = turn_models(turns);
    if turns.len() > 0 {
        let fewer = turns.drop_last();
        law_known_turns(fewer, uuid);
        assert(turn_models(fewer) =~= models.drop_last());
        assert(models.last() == turns[turns.len() - 1]@);
        if exists|k: int| 0 <= k < fewer.len() && (#[trigger] fewer[k]).uuid@ == uuid {
            let k = choose|k: int| 0 <= k < fewer.len() && (#[trigger] fewer[k]).uuid@ == uuid;
            assert(turns[k].uuid@ == uuid);
        }
        if exists|k: int| 0 <= k < turns.len() && (#[trigger] turns[k]).uuid@ == uuid {
            let k = choose|k: int| 0 <= k < turns.len() && (#[trigger] turns[k]).uuid@ == uuid;
            if k < fewer.len() {
                assert(fewer[k].uuid@ == uuid);
            }
        }
    }
}

/// What was there before is every ending that was there, and nothing else.
pub proof fn law_known_endings(endings: Seq<Ending>, uuid: Seq<char>)
    ensures
        ending_uuids(ending_models(endings)).contains(uuid) <==> exists|k: int|
            0 <= k < endings.len() && (#[trigger] endings[k]).uuid@ == uuid,
    decreases endings.len(),
{
    let models = ending_models(endings);
    if endings.len() > 0 {
        let fewer = endings.drop_last();
        law_known_endings(fewer, uuid);
        assert(ending_models(fewer) =~= models.drop_last());
        assert(models.last() == endings[endings.len() - 1]@);
        if exists|k: int| 0 <= k < fewer.len() && (#[trigger] fewer[k]).uuid@ == uuid {
            let k = choose|k: int| 0 <= k < fewer.len() && (#[trigger] fewer[k]).uuid@ == uuid;
            assert(endings[k].uuid@ == uuid);
        }
        if exists|k: int| 0 <= k < endings.len() && (#[trigger] endings[k]).uuid@ == uuid {
            let k = choose|k: int| 0 <= k < endings.len() && (#[trigger] endings[k]).uuid@ == uuid;
            if k < fewer.len() {
                assert(fewer[k].uuid@ == uuid);
            }
        }
    }
}

/// Turns are printed one after the other, each with its clock, its whole text
/// and an empty line.
pub proof fn law_how_turns_are_printed(a: Seq<TurnModel>, b: Seq<TurnModel>, turn: Turn)
    ensures
        printed_turns(seq![turn@]) == clock_of(turn.at@) + "  "@ + turn.text@ + "\n\n"@,
        printed_turns(a + b) == printed_turns(a) + printed_turns(b),
        printed_turns(Seq::empty()) == Seq::<char>::empty(),
    decreases b.len(),
{
    let one = seq![turn@];
    assert(one.drop_last() =~= Seq::<TurnModel>::empty());
    assert(printed_turns(one.drop_last()) =~= Seq::<char>::empty());
    assert(printed_turns(one) =~= clock_of(turn.at@) + "  "@ + turn.text@ + "\n\n"@);
    if b.len() == 0 {
        assert(a + b =~= a);
        assert(printed_turns(a) + printed_turns(b) =~= printed_turns(a));
    } else {
        law_how_turns_are_printed(a, b.drop_last(), turn);
        assert((a + b).drop_last() =~= a + b.drop_last());
        assert(printed_turns(a + b) =~= printed_turns(a) + printed_turns(b));
    }
}

/// What a wait reports is the first ending with a uuid that is not known and a
/// summary that is about what is wanted; it reports none only where no ending is
/// such a one.
pub proof fn law_which_ending_is_reported(
    endings: Seq<Ending>,
    known: Set<Seq<char>>,
    wanted: Option<Seq<char>>,
)
    ensures
        match first_awaited(ending_models(endings), known, wanted) {
            Some(ending) => exists|k: int|
                {
                    &&& 0 <= k < endings.len()
                    &&& (#[trigger] endings[k])@ == ending
                    &&& !known.contains(endings[k].uuid@)
                    &&& is_about(endings[k].summary@, wanted)
                    &&& forall|j: int|
                        0 <= j < k ==> known.contains((#[trigger] endings[j]).uuid@) || !is_about(
                            endings[j].summary@,
                            wanted,
                        )
                },
            None => forall|j: int|
                0 <= j < endings.len() ==> known.contains((#[trigger] endings[j]).uuid@)
                    || !is_about(endings[j].summary@, wanted),
        },
    decreases endings.len(),
{
    let models = ending_models(endings);
    if endings.len() > 0 {
        assert(models[0] == endings[0]@);
        if !is_awaited(models[0], known, wanted) {
            let rest = endings.skip(1);
            assert(models.skip(1) =~= ending_models(rest));
            law_which_ending_is_reported(rest, known, wanted);
            match first_awaited(ending_models(rest), known, wanted) {
                Some(ending) => {
                    let k = choose|k: int|
                        {
                            &&& 0 <= k < rest.len()
                            &&& (#[trigger] rest[k])@ == ending
                            &&& !known.contains(rest[k].uuid@)
                            &&& is_about(rest[k].summary@, wanted)
                            &&& forall|j: int|
                                0 <= j < k ==> known.contains((#[trigger] rest[j]).uuid@)
                                    || !is_about(rest[j].summary@, wanted)
                        };
                    assert(endings[k + 1] == rest[k]);
                    assert forall|j: int| 0 <= j < k + 1 implies known.contains(
                        (#[trigger] endings[j]).uuid@,
                    ) || !is_about(endings[j].summary@, wanted) by {
                        if j > 0 {
                            assert(rest[j - 1] == endings[j]);
                        }
                    }
                },
                None => {
                    assert forall|j: int| 0 <= j < endings.len() implies known.contains(
                        (#[trigger] endings[j]).uuid@,
                    ) || !is_about(endings[j].summary@, wanted) by {
                        if j > 0 {
                            assert(rest[j - 1] == endings[j]);
                        }
                    }
                },
            }
        }
    }
}

/// What is said of an ending is its clock, its status and its summary; and where
/// the status is not that it completed, that it was what the status says.
pub proof fn law_what_is_said_of_an_ending(ending: Ending)
    ensures
        ending_text(ending@) == clock_of(ending.at@) + "  "@ + ending.status@ + "  "@
            + ending.summary@ + "\n"@,
        ending.status@ != "completed"@ ==> ending_failure(ending@) == Some(
            "the task did not complete — it was "@ + ending.status@,
        ),
        ending.status@ == "completed"@ ==> ending_failure(ending@) is None,
{
}

/// Within its limit a wait for something new lets fifteen seconds go by and then
/// asks, and a wait for idleness asks and then lets fifteen seconds go by.
pub proof fn law_when_a_wait_asks(elapsed: nat, limit: nat, message: Seq<char>)
    ensures
        elapsed < limit * 1000 ==> pause_then_ask(elapsed, limit, message) == (NextModel::Ask {
            before_millis: 15000,
            after_millis: 0,
        }),
        elapsed < limit * 1000 ==> ask_then_pause(elapsed, limit, message) == (NextModel::Ask {
            before_millis: 0,
            after_millis: 15000,
        }),
        elapsed >= limit * 1000 ==> pause_then_ask(elapsed, limit, message) == NextModel::GiveUp(
            message,
        ),
        elapsed >= limit * 1000 ==> ask_then_pause(elapsed, limit, message) == NextModel::GiveUp(
            message,
        ),
{
}

/// What is said at the limit names the wanted text, the last status and the
/// limit.
pub proof fn law_what_is_said_at_the_limit(
    known: Set<Seq<char>>,
    wanted: Seq<char>,
    limit: nat,
    settled: nat,
    last: Seq<char>,
)
    ensures
        no_reply(WatchModel { known, wanted: Some(wanted), limit }) == "nothing matching "@ + quoted(
            wanted,
        ) + " in "@ + decimal(limit) + "s. `outpost read` to see what it did say."@,
        no_reply(WatchModel { known, wanted: None, limit }) == "nothing new in "@ + decimal(limit)
            + "s. `outpost pane` to see whether it is still working."@,
        no_ending(WatchModel { known, wanted: Some(wanted), limit })
            == "no background task ended in "@ + decimal(limit)
            + "s. `outpost read` to see what it is doing."@,
        no_ending(WatchModel { known, wanted: None, limit }) == "no background task ended in "@
            + decimal(limit) + "s. `outpost read` to see what it is doing."@,
        not_idle(IdleModel { settled, last, limit }) == "still "@ + quoted(last) + " after "@
            + decimal(limit) + "s"@,
{
}

/// A session counts as idle exactly where its last two readings are `idle`.
pub proof fn law_two_idle_readings(readings: Seq<Seq<char>>)
    ensures
        settled_by(readings) >= SETTLED <==> readings.len() >= 2 && readings[readings.len() - 1]
            == "idle"@ && readings[readings.len() - 2] == "idle"@,
{
    law_idle_is_settled(readings);
    if ends_idle(readings, SETTLED as nat) {
        assert(readings[readings.len() - 1] == "idle"@);
        assert(readings[readings.len() - 2] == "idle"@);
    }
}

/// What is done next holds how long time goes by, or what is said.
pub proof fn law_what_next_holds(before_millis: u64, after_millis: u64, message: String)
    ensures
        (Next::Ask { before_millis, after_millis })@ == (NextModel::Ask {
            before_millis: before_millis as nat,
            after_millis: after_millis as nat,
        }),
        Next::GiveUp(message)@ == NextModel::GiveUp(message@),
{
}

} // verus!
