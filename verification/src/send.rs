//! Sending a message, and not saying so before the session has taken it.
//!
//! Reporting a send when the keystrokes are accepted would be a green tick for
//! "bytes reached a pipe". Instead the text is typed, looked for on the screen
//! before Enter is pressed, and then looked for in the transcript.
use vstd::hash_set::StringHashSet;
use vstd::prelude::*;
use vstd::string::{StrSliceExecFns, StringExecFns};

use crate::args::{flag_of, flag_value, timeout_of, timeout_value, ArgsError, ArgsErrorModel};
use crate::number::{decimal, write_number};
use crate::text::{
    any_is, contains, contains_chars, join, joined, lines, lines_of, occurs, same, squeeze,
    squeezed, text_of, trim, trimmed, words,
};
use crate::transcript::{human_models, HumanModel, HumanTurn};
use crate::watch::{in_time, is_in_time};

verus! {

/// For how many seconds the transcript is asked for a sent message.
///
/// It is bounded, because the failure that it watches for is silence.
pub const PATIENCE: u64 = 20;

/// How many milliseconds go by before the transcript is asked for it each time.
pub const INTERVAL: u64 = 750;

// ---------------------------------------------------------------------------
// What can go wrong

/// Why a message was not sent, or is not known to have been.
#[derive(Clone, Copy, Debug, PartialEq, Eq, Structural)]
pub enum SendError {
    /// There is no argument.
    NoArgument,
    /// There is nothing but white space.
    Nothing,
    /// The message has several lines, and a newline in the composer is Enter.
    SeveralLines(u64),
    /// What was typed is not on the screen.
    NotOnScreen,
    /// The transcript did not record the message.
    NotTaken,
}

impl SendError {
    /// What is said about the error.
    pub open spec fn message_spec(self) -> Seq<char> {
        match self {
            SendError::NoArgument => "usage: outpost send <text>"@,
            SendError::Nothing => "nothing to send"@,
            SendError::SeveralLines(count) => "that is "@ + decimal(count as nat)
                + " lines — this types into a composer, where a newline submits. send them one at a time"@,
            SendError::NotOnScreen =>
                "typed it, but it is not on screen — not pressing Enter.\nthe window may not be the composer. `outpost pane` to look."@,
            SendError::NotTaken => "typed and submitted, but it has not appeared in the transcript in "@
                + decimal(PATIENCE as nat)
                + "s.\nit may be mid-turn with a slow write, or it may have stopped reading input.\n`outpost pane` to see which — do NOT send it again blind."@,
        }
    }

    /// What is said about the error.
    pub fn message(&self) -> (r: String)
        ensures
            r@ == self.message_spec(),
    {
        match self {
            SendError::NoArgument => "usage: outpost send <text>".to_owned(),
            SendError::Nothing => "nothing to send".to_owned(),
            SendError::SeveralLines(count) => {
                let mut out = "that is ".to_owned();
                out.append(write_number(*count).as_str());
                out.append(
                    " lines — this types into a composer, where a newline submits. send them one at a time",
                );
                out
            },
            SendError::NotOnScreen =>
                "typed it, but it is not on screen — not pressing Enter.\nthe window may not be the composer. `outpost pane` to look.".to_owned(),
            SendError::NotTaken => {
                let mut out =
                    "typed and submitted, but it has not appeared in the transcript in ".to_owned();
                out.append(write_number(PATIENCE).as_str());
                out.append(
                    "s.\nit may be mid-turn with a slow write, or it may have stopped reading input.\n`outpost pane` to see which — do NOT send it again blind.",
                );
                out
            },
        }
    }
}

// ---------------------------------------------------------------------------
// The message

/// Where the text of a message comes from.
#[derive(Debug)]
pub enum Draft {
    /// The standard input.
    Stdin,
    /// The arguments.
    Words(String),
}

/// What a [`Draft`] holds.
pub enum DraftModel {
    Stdin,
    Words(Seq<char>),
}

impl View for Draft {
    type V = DraftModel;

    open spec fn view(&self) -> DraftModel {
        match self {
            Draft::Stdin => DraftModel::Stdin,
            Draft::Words(text) => DraftModel::Words(text@),
        }
    }
}

/// The words of a message: the arguments without the flags, and without the
/// values of the flags that take one.
pub open spec fn message_words(args: Seq<Seq<char>>) -> Seq<Seq<char>>
    decreases args.len(),
{
    if args.len() == 0 {
        Seq::empty()
    } else if args[0] == "--wait"@ {
        message_words(args.skip(1))
    } else if args[0] == "--timeout"@ || args[0] == "--match"@ {
        if args.len() == 1 {
            Seq::empty()
        } else {
            message_words(args.skip(2))
        }
    } else {
        seq![args[0]] + message_words(args.skip(1))
    }
}

/// Where the text of a message comes from: a lone `-`, with flags or without, is
/// the standard input.
pub open spec fn draft_of(args: Seq<Seq<char>>) -> Result<DraftModel, SendError> {
    if args.len() == 0 {
        Err(SendError::NoArgument)
    } else if message_words(args) == seq!["-"@] {
        Ok(DraftModel::Stdin)
    } else {
        Ok(DraftModel::Words(joined(message_words(args), " "@)))
    }
}

/// Where the text of a message comes from.
pub fn draft(args: &[&str]) -> (r: Result<Draft, SendError>)
    ensures
        draft_of(words(args@)) == (match r {
            Ok(draft) => Ok(draft@),
            Err(error) => Err(error),
        }),
{
    if args.len() == 0 {
        return Err(SendError::NoArgument);
    }
    let ghost all = words(args@);
    let mut kept: Vec<&str> = Vec::new();
    let mut i: usize = 0;
    proof {
        assert(all.skip(0) =~= all);
        assert(words(kept@) + message_words(all.skip(0)) =~= message_words(all));
    }
    while i < args.len()
        invariant
            i <= args@.len(),
            all == words(args@),
            words(kept@) + message_words(all.skip(i as int)) == message_words(all),
        decreases args.len() - i,
    {
        let arg = args[i];
        let ghost left = all.skip(i as int);
        assert(left[0] == arg@);
        assert(left.skip(1) =~= all.skip(i + 1));
        if same(arg, "--wait") {
            i += 1;
        } else if same(arg, "--timeout") || same(arg, "--match") {
            if args.len() - i == 1 {
                assert(all.skip(i + 1) =~= Seq::<Seq<char>>::empty());
                assert(message_words(all.skip(i + 1)) =~= message_words(left));
                i += 1;
            } else {
                assert(left.skip(2) =~= all.skip(i + 2));
                i += 2;
            }
        } else {
            let ghost was = kept@;
            kept.push(arg);
            proof {
                assert(words(kept@) =~= words(was).push(arg@));
                assert(words(kept@) + message_words(all.skip(i + 1)) =~= words(was) + (seq![arg@]
                    + message_words(all.skip(i + 1))));
            }
            i += 1;
        }
    }
    assert(words(kept@) + message_words(all.skip(i as int)) =~= words(kept@));
    if kept.len() == 1 && same(kept[0], "-") {
        assert(words(kept@) =~= seq!["-"@]);
        return Ok(Draft::Stdin);
    }
    assert(words(kept@) != seq!["-"@]) by {
        if kept@.len() == 1 {
            assert(words(kept@)[0] == kept@[0]@);
        }
    }
    Ok(Draft::Words(join(&kept, " ")))
}

/// The message in a text: the text without the white space around it. There is
/// none where that leaves nothing, or several lines.
pub open spec fn message_of(text: Seq<char>) -> Result<Seq<char>, SendError> {
    let message = trimmed(text);
    if message.len() == 0 {
        Err(SendError::Nothing)
    } else if message.contains('\n') {
        Err(SendError::SeveralLines(lines_of(message).len() as u64))
    } else {
        Ok(message)
    }
}

/// The message in a text. A text of several lines is refused: typing it would
/// submit the first line on its own, and joining the lines would send something
/// nobody wrote.
pub fn message(text: &str) -> (r: Result<String, SendError>)
    ensures
        message_of(text@) == (match r {
            Ok(message) => Ok(message@),
            Err(error) => Err(error),
        }),
{
    let message = trim(text);
    if message.as_str().is_empty() {
        return Err(SendError::Nothing);
    }
    proof {
        reveal_strlit("\n");
        lemma_occurs_one(message@, '\n');
        assert("\n"@ =~= seq!['\n']);
    }
    if contains(message.as_str(), "\n") {
        let count: usize = lines(message.as_str()).len();
        assert(count == lines_of(message@).len());
        return Err(SendError::SeveralLines(count as u64));
    }
    Ok(message)
}

/// A text holds a character where the text of that character stands in it.
proof fn lemma_occurs_one(s: Seq<char>, c: char)
    ensures
        occurs(s, seq![c]) == s.contains(c),
{
    if s.contains(c) {
        let i = choose|i: int| 0 <= i < s.len() && s[i] == c;
        assert(s.subrange(i, i + 1) =~= seq![c]);
        assert(crate::text::occurs_at(s, seq![c], i));
    }
    if occurs(s, seq![c]) {
        let i = choose|i: int| crate::text::occurs_at(s, seq![c], i);
        assert(s.subrange(i, i + 1)[0] == c);
        assert(s[i] == c);
    }
}

/// Whether a message is on the screen. A composer wraps, and puts a newline and
/// the continuation's indentation in the middle of a sentence; so white space
/// does not count.
pub open spec fn is_on_screen(screen: Seq<char>, message: Seq<char>) -> bool {
    occurs(squeezed(screen), squeezed(message))
}

/// Whether a message is on the screen.
pub fn on_screen(screen: &str, message: &str) -> (r: bool)
    ensures
        r == is_on_screen(screen@, message@),
{
    contains_chars(&squeeze(screen), &squeeze(message))
}

/// What `send` waits for once the message was taken: nothing without `--wait`,
/// and else a reply, for so many seconds and about the text behind `--match`.
pub open spec fn wait_after(args: Seq<Seq<char>>) -> Option<
    Result<(nat, Option<Seq<char>>), ArgsErrorModel>,
> {
    if !args.contains("--wait"@) {
        None
    } else {
        Some(
            match (timeout_value(args), flag_value(args, "--match"@)) {
                (Err(error), _) => Err(error),
                (Ok(_), Err(error)) => Err(error),
                (Ok(limit), Ok(wanted)) => Ok((limit, wanted)),
            },
        )
    }
}

/// What `send` waits for once the message was taken.
pub fn follow_up(args: &[&str]) -> (r: Option<Result<(u64, Option<String>), ArgsError>>)
    ensures
        wait_after(words(args@)) == (match r {
            None => None,
            Some(Ok((limit, wanted))) => Some(Ok((limit as nat, text_of(wanted)))),
            Some(Err(error)) => Some(Err(error@)),
        }),
{
    if !any_is(args, "--wait") {
        return None;
    }
    let limit = match timeout_of(args) {
        Ok(limit) => limit,
        Err(error) => {
            return Some(Err(error));
        },
    };
    match flag_of(args, "--match") {
        Ok(wanted) => Some(Ok((limit, wanted))),
        Err(error) => Some(Err(error)),
    }
}

// ---------------------------------------------------------------------------
// The delivery

/// The uuids of human turns.
pub open spec fn uuids_of(turns: Seq<HumanModel>) -> Set<Seq<char>>
    decreases turns.len(),
{
    if turns.len() == 0 {
        Set::empty()
    } else {
        uuids_of(turns.drop_last()).insert(turns.last().uuid)
    }
}

/// The uuids of human turns.
fn collect_uuids(turns: &[HumanTurn]) -> (r: StringHashSet)
    ensures
        r@ == uuids_of(human_models(turns@)),
{
    let ghost all = human_models(turns@);
    let mut out = StringHashSet::new();
    let mut i: usize = 0;
    while i < turns.len()
        invariant
            i <= turns@.len(),
            all == human_models(turns@),
            out@ == uuids_of(all.take(i as int)),
        decreases turns.len() - i,
    {
        assert(all.take(i + 1).drop_last() =~= all.take(i as int));
        out.insert(turns[i].uuid.clone());
        i += 1;
    }
    assert(all.take(i as int) =~= all);
    out
}

/// Whether a turn is the session taking a message: a turn that was not there
/// before, with the message in it.
pub open spec fn takes(turn: HumanModel, known: Set<Seq<char>>, message: Seq<char>) -> bool {
    !known.contains(turn.uuid) && occurs(turn.text, message)
}

/// The first turn that takes a message.
pub open spec fn taken_by(
    turns: Seq<HumanModel>,
    known: Set<Seq<char>>,
    message: Seq<char>,
) -> Option<HumanModel>
    decreases turns.len(),
{
    if turns.len() == 0 {
        None
    } else if takes(turns[0], known, message) {
        Some(turns[0])
    } else {
        taken_by(turns.skip(1), known, message)
    }
}

/// How far a delivery has come.
#[derive(Clone, Copy, Debug, PartialEq, Eq, Structural)]
pub enum Stage {
    /// The message is being typed.
    Typing,
    /// The screen is being looked at.
    Looking,
    /// Enter is being pressed.
    Entering,
    /// The time since Enter was pressed is being taken.
    Waiting,
    /// The transcript is being asked for the message.
    Asking,
    /// Nothing is left to do.
    Over,
}

/// What happened on the far side.
#[derive(Debug)]
pub enum Event {
    /// The message was typed.
    Typed,
    /// The screen shows this.
    Screen(String),
    /// Enter was pressed.
    Entered,
    /// So many milliseconds have gone by since Enter was pressed.
    Elapsed(u128),
    /// The human side of the transcript is this.
    Turns(Vec<HumanTurn>),
}

/// What an [`Event`] holds.
pub enum EventModel {
    Typed,
    Screen(Seq<char>),
    Entered,
    Elapsed(nat),
    Turns(Seq<HumanModel>),
}

impl View for Event {
    type V = EventModel;

    open spec fn view(&self) -> EventModel {
        match self {
            Event::Typed => EventModel::Typed,
            Event::Screen(screen) => EventModel::Screen(screen@),
            Event::Entered => EventModel::Entered,
            Event::Elapsed(millis) => EventModel::Elapsed(*millis as nat),
            Event::Turns(turns) => EventModel::Turns(human_models(turns@)),
        }
    }
}

/// What is to be done next.
#[derive(Clone, Copy, Debug, PartialEq, Eq, Structural)]
pub enum Action {
    /// Look at the screen.
    Look,
    /// Press Enter.
    PressEnter,
    /// Take the time since Enter was pressed.
    TakeTime,
    /// Let some milliseconds go by, and ask for the transcript.
    Poll { after_millis: u64 },
    /// Report that the message was taken: read, or queued for later.
    ReportSent { queued: bool },
    /// Report why it was not, or is not known to have been.
    ReportFailure(SendError),
    /// Do nothing: what happened is not what was asked for.
    Nothing,
}

/// A message on its way to a session.
pub struct Delivery {
    message: String,
    known: StringHashSet,
    stage: Stage,
}

/// What a [`Delivery`] holds.
pub struct DeliveryModel {
    pub message: Seq<char>,
    /// The uuids of the human turns that were there before.
    pub known: Set<Seq<char>>,
    pub stage: Stage,
}

impl View for Delivery {
    type V = DeliveryModel;

    closed spec fn view(&self) -> DeliveryModel {
        DeliveryModel { message: self.message@, known: self.known@, stage: self.stage }
    }
}

/// Where an event takes a delivery, and what is to be done then.
pub open spec fn advanced(delivery: DeliveryModel, event: EventModel) -> (Stage, Action) {
    match (delivery.stage, event) {
        (Stage::Typing, EventModel::Typed) => (Stage::Looking, Action::Look),
        (Stage::Looking, EventModel::Screen(screen)) => if is_on_screen(screen, delivery.message) {
            (Stage::Entering, Action::PressEnter)
        } else {
            (Stage::Over, Action::ReportFailure(SendError::NotOnScreen))
        },
        (Stage::Entering, EventModel::Entered) => (Stage::Waiting, Action::TakeTime),
        (Stage::Waiting, EventModel::Elapsed(millis)) => if is_in_time(millis, PATIENCE as nat) {
            (Stage::Asking, Action::Poll { after_millis: INTERVAL })
        } else {
            (Stage::Over, Action::ReportFailure(SendError::NotTaken))
        },
        (Stage::Asking, EventModel::Turns(turns)) => match taken_by(
            turns,
            delivery.known,
            delivery.message,
        ) {
            Some(turn) => (Stage::Over, Action::ReportSent { queued: turn.queued }),
            None => (Stage::Waiting, Action::TakeTime),
        },
        (stage, _) => (stage, Action::Nothing),
    }
}

/// A delivery after an event.
pub open spec fn after(delivery: DeliveryModel, event: EventModel) -> DeliveryModel {
    DeliveryModel { stage: advanced(delivery, event).0, ..delivery }
}

impl Delivery {
    /// Begins to deliver a message to a session whose human side is `turns` so
    /// far. The message is to be typed.
    pub fn begin(message: String, turns: &[HumanTurn]) -> (r: Delivery)
        ensures
            r@ == (DeliveryModel {
                message: message@,
                known: uuids_of(human_models(turns@)),
                stage: Stage::Typing,
            }),
    {
        Delivery { message, known: collect_uuids(turns), stage: Stage::Typing }
    }

    /// The first turn that takes the message, and whether it is queued.
    fn look_for(&self, turns: &Vec<HumanTurn>) -> (r: Option<bool>)
        ensures
            r == (match taken_by(human_models(turns@), self@.known, self@.message) {
                Some(turn) => Some(turn.queued),
                None => None,
            }),
    {
        let ghost all = human_models(turns@);
        let mut i: usize = 0;
        assert(all.skip(0) =~= all);
        while i < turns.len()
            invariant
                i <= turns@.len(),
                all == human_models(turns@),
                taken_by(all, self@.known, self@.message) == taken_by(
                    all.skip(i as int),
                    self@.known,
                    self@.message,
                ),
            decreases turns.len() - i,
        {
            assert(all.skip(i as int)[0] == turns@[i as int]@);
            if !self.known.contains(turns[i].uuid.as_str()) && contains(
                turns[i].text.as_str(),
                self.message.as_str(),
            ) {
                return Some(turns[i].queued);
            }
            assert(all.skip(i as int).skip(1) =~= all.skip(i + 1));
            i += 1;
        }
        None
    }

    /// Takes note of what happened, and says what is to be done next.
    pub fn step(&mut self, event: &Event) -> (r: Action)
        ensures
            final(self)@ == after(old(self)@, event@),
            r == advanced(old(self)@, event@).1,
    {
        match (self.stage, event) {
            (Stage::Typing, Event::Typed) => {
                self.stage = Stage::Looking;
                Action::Look
            },
            (Stage::Looking, Event::Screen(screen)) => {
                if on_screen(screen.as_str(), self.message.as_str()) {
                    self.stage = Stage::Entering;
                    Action::PressEnter
                } else {
                    self.stage = Stage::Over;
                    Action::ReportFailure(SendError::NotOnScreen)
                }
            },
            (Stage::Entering, Event::Entered) => {
                self.stage = Stage::Waiting;
                Action::TakeTime
            },
            (Stage::Waiting, Event::Elapsed(millis)) => {
                if in_time(*millis, PATIENCE) {
                    self.stage = Stage::Asking;
                    Action::Poll { after_millis: INTERVAL }
                } else {
                    self.stage = Stage::Over;
                    Action::ReportFailure(SendError::NotTaken)
                }
            },
            (Stage::Asking, Event::Turns(turns)) => {
                match self.look_for(turns) {
                    Some(queued) => {
                        self.stage = Stage::Over;
                        Action::ReportSent { queued }
                    },
                    None => {
                        self.stage = Stage::Waiting;
                        Action::TakeTime
                    },
                }
            },
            _ => Action::Nothing,
        }
    }
}

/// What is said about a message that was taken. One that was typed while the
/// session is working is queued rather than read, and that is said.
pub open spec fn sent_text(message: Seq<char>, queued: bool) -> Seq<char> {
    "sent, "@ + (if queued {
        "queued — it was working, so it will read this when the turn ends"@
    } else {
        "read"@
    }) + " ("@ + decimal(message.len()) + " chars)\n"@
}

/// What is said about a message that was taken.
pub fn sent_report(message: &str, queued: bool) -> (r: String)
    ensures
        r@ == sent_text(message@, queued),
{
    let mut out = "sent, ".to_owned();
    out.append(
        if queued {
            "queued — it was working, so it will read this when the turn ends"
        } else {
            "read"
        },
    );
    out.append(" (");
    out.append(write_number(message.unicode_len() as u64).as_str());
    out.append(" chars)\n");
    out
}

} // verus!
