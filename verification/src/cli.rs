//! What a command line asks for, and what is printed in answer.
use vstd::prelude::*;
use vstd::string::{StrSliceExecFns, StringExecFns};

use crate::args::{
    find_word, flag_of, flag_value, lemma_place, lemma_place_behind, place_of, timeout_of,
    timeout_value, ArgsError, ArgsErrorModel,
};
use crate::chronology::{line_models, Line, LineModel};
use crate::number::{decimal, number_read, read_number, write_number, NumberError};
use crate::remote::{window_models, Agent, Info};
use crate::text::{any_is, begins, same, starts_with, text_of, words};
use crate::text_laws::law_beginning_with;
use crate::transcript::{clock, clock_of};
use crate::unicode::{quote, quoted};

verus! {

/// How much of a message is shown before saying how much was kept back.
pub const WIDTH: usize = 700;

/// How many exchanges are shown when no number is given.
pub const EXCHANGES: usize = 12;

/// What is said about how to use the tool.
pub const USAGE: &'static str = "usage:
  outpost status            what the session says it is doing, and the windows
  outpost read [n]          the last n exchanges, both sides   (default 12)
  outpost pane [n]          the window itself, with n lines of scrollback
  outpost send <text>       type it and press Enter, as them; `-` reads stdin
  outpost wait              block until it says something new, then print it

  -t <name>       which target, from the config file
  --full          with `read`, do not shorten long messages
  --wait          with `send`, wait for the reply and print it
  --timeout <s>   with `wait`, how long to sit there (default 3600)
  --match <text>  with `wait`, ignore turns that do not contain it
  --task [text]   with `wait`, wait for a background task to END, not for prose
  --idle          with `wait`, wait until it stops working, not for what it says

targets live in ~/.config/outpost/config.toml:

    default = \"dev\"

    [targets.dev]
    host = \"<ssh destination>\"
    window = \"<tmux session:window>\"";

// ---------------------------------------------------------------------------
// Commands

/// What is to be done, with the arguments of the verb.
#[derive(Debug)]
pub enum Command<'a> {
    Status,
    Read(Vec<&'a str>),
    Pane(Vec<&'a str>),
    Send(Vec<&'a str>),
    Wait(Vec<&'a str>),
    Help,
    Unknown(&'a str),
}

/// What a [`Command`] holds.
pub enum CommandModel {
    Status,
    Read(Seq<Seq<char>>),
    Pane(Seq<Seq<char>>),
    Send(Seq<Seq<char>>),
    Wait(Seq<Seq<char>>),
    Help,
    Unknown(Seq<char>),
}

impl<'a> View for Command<'a> {
    type V = CommandModel;

    open spec fn view(&self) -> CommandModel {
        match self {
            Command::Status => CommandModel::Status,
            Command::Read(args) => CommandModel::Read(words(args@)),
            Command::Pane(args) => CommandModel::Pane(words(args@)),
            Command::Send(args) => CommandModel::Send(words(args@)),
            Command::Wait(args) => CommandModel::Wait(words(args@)),
            Command::Help => CommandModel::Help,
            Command::Unknown(verb) => CommandModel::Unknown(verb@),
        }
    }
}

/// What the arguments ask for, once a target was lifted out of them. `status`
/// is also what no argument asks for, and takes no argument itself.
pub open spec fn command_of(args: Seq<Seq<char>>) -> CommandModel {
    if args.len() == 0 {
        CommandModel::Status
    } else {
        let verb = args[0];
        let rest = args.skip(1);
        if verb == "status"@ && rest.len() == 0 {
            CommandModel::Status
        } else if verb == "read"@ {
            CommandModel::Read(rest)
        } else if verb == "pane"@ {
            CommandModel::Pane(rest)
        } else if verb == "send"@ {
            CommandModel::Send(rest)
        } else if verb == "wait"@ {
            CommandModel::Wait(rest)
        } else if verb == "-h"@ || verb == "--help"@ || verb == "help"@ {
            CommandModel::Help
        } else {
            CommandModel::Unknown(verb)
        }
    }
}

/// The words behind the first one.
fn behind_first<'a>(args: &[&'a str]) -> (r: Vec<&'a str>)
    requires
        args@.len() > 0,
    ensures
        words(r@) == words(args@).skip(1),
{
    let mut out: Vec<&'a str> = Vec::new();
    let mut i: usize = 1;
    assert(out@ =~= args@.subrange(1, 1));
    while i < args.len()
        invariant
            1 <= i <= args@.len(),
            out@ == args@.subrange(1, i as int),
        decreases args.len() - i,
    {
        out.push(args[i]);
        i += 1;
        assert(out@ =~= args@.subrange(1, i as int));
    }
    assert(words(out@) =~= words(args@).skip(1));
    out
}

/// What the arguments ask for, once a target was lifted out of them.
pub fn command<'a>(args: &[&'a str]) -> (r: Command<'a>)
    ensures
        r@ == command_of(words(args@)),
{
    if args.len() == 0 {
        return Command::Status;
    }
    let verb = args[0];
    if same(verb, "status") && args.len() == 1 {
        Command::Status
    } else if same(verb, "read") {
        Command::Read(behind_first(args))
    } else if same(verb, "pane") {
        Command::Pane(behind_first(args))
    } else if same(verb, "send") {
        Command::Send(behind_first(args))
    } else if same(verb, "wait") {
        Command::Wait(behind_first(args))
    } else if same(verb, "-h") || same(verb, "--help") || same(verb, "help") {
        Command::Help
    } else {
        Command::Unknown(verb)
    }
}

/// What is said about a verb that is none.
pub fn unknown_command(verb: &str) -> (r: String)
    ensures
        r@ == "no such command "@ + quoted(verb@) + "\n\n"@ + USAGE@,
{
    let mut out = "no such command ".to_owned();
    out.append(quote(verb).as_str());
    out.append("\n\n");
    out.append(USAGE);
    out
}

// ---------------------------------------------------------------------------
// The arguments of the verbs

/// The first word that is not a long flag.
pub open spec fn first_plain(args: Seq<Seq<char>>) -> Option<Seq<char>>
    decreases args.len(),
{
    if args.len() == 0 {
        None
    } else if begins(args[0], "--"@) {
        first_plain(args.skip(1))
    } else {
        Some(args[0])
    }
}

/// The first word that is not a long flag.
fn plain_word<'a>(args: &[&'a str]) -> (r: Option<&'a str>)
    ensures
        first_plain(words(args@)) == (match r {
            Some(word) => Some(word@),
            None => None,
        }),
{
    let ghost all = words(args@);
    let mut i: usize = 0;
    assert(all.skip(0) =~= all);
    while i < args.len()
        invariant
            i <= args@.len(),
            all == words(args@),
            first_plain(all) == first_plain(all.skip(i as int)),
        decreases args.len() - i,
    {
        assert(all.skip(i as int)[0] == args@[i as int]@);
        if !starts_with(args[i], "--") {
            return Some(args[i]);
        }
        assert(all.skip(i as int).skip(1) =~= all.skip(i + 1));
        i += 1;
    }
    None
}

/// What `read` is asked for.
#[derive(Clone, Copy, Debug, PartialEq, Eq, Structural)]
pub struct ReadRequest {
    /// Long messages are not shortened.
    pub full: bool,
    /// How many exchanges are shown.
    pub want: usize,
}

/// How many exchanges `read` shows: the first argument that is not a flag, or
/// [`EXCHANGES`] without one.
pub open spec fn exchanges_wanted(args: Seq<Seq<char>>) -> Result<nat, NumberError> {
    match first_plain(args) {
        Some(word) => number_read(word, usize::MAX as nat),
        None => Ok(EXCHANGES as nat),
    }
}

/// What the arguments of `read` ask for. An error says that one is not a number
/// of messages.
pub fn read_request(args: &[&str]) -> (r: Result<ReadRequest, NumberError>)
    ensures
        match r {
            Ok(request) => exchanges_wanted(words(args@)) == Ok::<nat, NumberError>(
                request.want as nat,
            ) && request.full == words(args@).contains("--full"@),
            Err(error) => exchanges_wanted(words(args@)) == Err::<nat, NumberError>(error),
        },
{
    let full = any_is(args, "--full");
    match plain_word(args) {
        Some(word) => match read_number(word, usize::MAX as u64) {
            Ok(want) => Ok(ReadRequest { full, want: want as usize }),
            Err(error) => Err(error),
        },
        None => Ok(ReadRequest { full, want: EXCHANGES }),
    }
}

/// How many lines of scrollback `pane` shows: its first argument, or none.
pub open spec fn scrollback_wanted(args: Seq<Seq<char>>) -> Result<nat, NumberError> {
    if args.len() == 0 {
        Ok(0)
    } else {
        number_read(args[0], usize::MAX as nat)
    }
}

/// How many lines of scrollback the arguments of `pane` ask for. An error says
/// that the first one is not a number of lines.
pub fn pane_request(args: &[&str]) -> (r: Result<usize, NumberError>)
    ensures
        scrollback_wanted(words(args@)) == (match r {
            Ok(back) => Ok(back as nat),
            Err(error) => Err(error),
        }),
{
    if args.len() == 0 {
        return Ok(0);
    }
    match read_number(args[0], usize::MAX as u64) {
        Ok(back) => Ok(back as usize),
        Err(error) => Err(error),
    }
}

/// What `wait` waits for.
#[derive(Debug)]
pub enum Awaited {
    /// The session stops working.
    Idle,
    /// A background task ends: any, or one whose summary holds a text.
    Task(Option<String>),
    /// The session says something new: anything, or something with a text in it.
    Reply(Option<String>),
}

/// What an [`Awaited`] holds.
pub enum AwaitedModel {
    Idle,
    Task(Option<Seq<char>>),
    Reply(Option<Seq<char>>),
}

impl View for Awaited {
    type V = AwaitedModel;

    open spec fn view(&self) -> AwaitedModel {
        match self {
            Awaited::Idle => AwaitedModel::Idle,
            Awaited::Task(want) => AwaitedModel::Task(text_of(*want)),
            Awaited::Reply(needle) => AwaitedModel::Reply(text_of(*needle)),
        }
    }
}

/// The text behind `--task`: the next word, unless that is a flag. A bare
/// `--task` waits for any task.
pub open spec fn task_wanted(args: Seq<Seq<char>>, at: int) -> Option<Seq<char>> {
    if at + 1 < args.len() && !begins(args[at + 1], "--"@) {
        Some(args[at + 1])
    } else {
        None
    }
}

/// What the arguments of `wait` ask for, and for how many seconds at most.
pub open spec fn awaited(args: Seq<Seq<char>>) -> Result<(nat, AwaitedModel), ArgsErrorModel> {
    match timeout_value(args) {
        Ok(limit) => if args.contains("--idle"@) {
            Ok((limit, AwaitedModel::Idle))
        } else {
            match place_of(args, "--task"@) {
                Some(at) => Ok((limit, AwaitedModel::Task(task_wanted(args, at)))),
                None => match flag_value(args, "--match"@) {
                    Ok(needle) => Ok((limit, AwaitedModel::Reply(needle))),
                    Err(error) => Err(error),
                },
            }
        },
        Err(error) => Err(error),
    }
}

/// What the arguments of `wait` ask for, and for how many seconds at most.
pub fn wait_request(args: &[&str]) -> (r: Result<(u64, Awaited), ArgsError>)
    ensures
        awaited(words(args@)) == (match r {
            Ok((limit, what)) => Ok((limit as nat, what@)),
            Err(error) => Err(error@),
        }),
{
    let limit = match timeout_of(args) {
        Ok(limit) => limit,
        Err(error) => {
            return Err(error);
        },
    };
    if any_is(args, "--idle") {
        return Ok((limit, Awaited::Idle));
    }
    proof {
        lemma_place(words(args@), "--task"@);
    }
    if let Some(at) = find_word(args, "--task") {
        let want = if args.len() - at > 1 && !starts_with(args[at + 1], "--") {
            Some(args[at + 1].to_owned())
        } else {
            None
        };
        return Ok((limit, Awaited::Task(want)));
    }
    match flag_of(args, "--match") {
        Ok(needle) => Ok((limit, Awaited::Reply(needle))),
        Err(error) => Err(error),
    }
}

// ---------------------------------------------------------------------------
// Reports

/// What is shown of a message: all of it, or its first [`WIDTH`] characters and
/// how many were kept back.
pub open spec fn shown_text(text: Seq<char>, full: bool) -> Seq<char> {
    if full || text.len() <= WIDTH {
        text
    } else {
        text.take(WIDTH as int) + "… (+"@ + decimal((text.len() - WIDTH) as nat)
            + " chars, --full for all)"@
    }
}

/// What is shown of a message.
pub fn shorten(text: &str, full: bool) -> (r: String)
    ensures
        r@ == shown_text(text@, full),
{
    let count: usize = text.unicode_len();
    if full || count <= WIDTH {
        return text.to_owned();
    }
    assert(text@.take(WIDTH as int) =~= text@.subrange(0, WIDTH as int));
    let mut out = text.substring_char(0, WIDTH).to_owned();
    out.append("… (+");
    out.append(write_number((count - WIDTH) as u64).as_str());
    out.append(" chars, --full for all)");
    out
}

/// One line of a conversation as it is printed.
pub open spec fn printed_line(line: LineModel, full: bool) -> Seq<char> {
    clock_of(line.at) + "  "@ + line.who + "  "@ + shown_text(line.text, full) + "\n\n"@
}

/// Lines of a conversation as they are printed, one after the other.
pub open spec fn printed_lines(lines: Seq<LineModel>, full: bool) -> Seq<char>
    decreases lines.len(),
{
    if lines.len() == 0 {
        Seq::empty()
    } else {
        printed_lines(lines.drop_last(), full) + printed_line(lines.last(), full)
    }
}

/// The last lines of a conversation, at most `want`, and how many there are
/// before them.
pub open spec fn read_text(lines: Seq<LineModel>, full: bool, want: nat) -> Seq<char> {
    if lines.len() <= want {
        printed_lines(lines, full)
    } else {
        printed_lines(lines.skip(lines.len() - want), full) + "("@ + decimal(
            (lines.len() - want) as nat,
        ) + " earlier, ask for more)\n"@
    }
}

/// What `read` prints.
pub fn read_report(lines: &[Line], request: &ReadRequest) -> (r: String)
    ensures
        r@ == read_text(line_models(lines@), request.full, request.want as nat),
{
    let ghost all = line_models(lines@);
    let full: bool = request.full;
    let from: usize = if lines.len() <= request.want {
        0
    } else {
        lines.len() - request.want
    };
    let mut out = String::new();
    let mut i: usize = from;
    assert(out@ =~= printed_lines(all.subrange(from as int, from as int), full));
    while i < lines.len()
        invariant
            from <= i <= lines@.len(),
            all == line_models(lines@),
            full == request.full,
            out@ == printed_lines(all.subrange(from as int, i as int), full),
        decreases lines.len() - i,
    {
        let line = &lines[i];
        proof {
            assert(all.subrange(from as int, i + 1).drop_last() =~= all.subrange(
                from as int,
                i as int,
            ));
            assert(all.subrange(from as int, i + 1).last() == line@);
        }
        let ghost was = out@;
        out.append(clock(line.at.as_str()).as_str());
        out.append("  ");
        out.append(line.who);
        out.append("  ");
        out.append(shorten(line.text.as_str(), full).as_str());
        out.append("\n\n");
        assert(out@ =~= was + printed_line(line@, full));
        i += 1;
    }
    assert(all.subrange(from as int, i as int) =~= all.skip(from as int));
    if lines.len() > request.want {
        out.append("(");
        out.append(write_number(from as u64).as_str());
        out.append(" earlier, ask for more)\n");
    } else {
        assert(all.skip(0) =~= all);
    }
    out
}

/// What a session says about itself, in words.
pub open spec fn info_text(agent: Seq<char>, info: Info) -> Seq<char> {
    (match info.name {
        Some(name) => name@,
        None => "(unnamed)"@,
    }) + " — "@ + info.status@ + " — "@ + agent + " "@ + info.version@ + " — pid "@ + decimal(
        info.pid as nat,
    ) + " — "@ + (if info.bridge is Some {
        "bridged"@
    } else {
        "not bridged"@
    }) + "\n"@ + info.session_id@ + "\n"@
}

/// A text filled up with blanks to a width.
pub open spec fn padded(text: Seq<char>, width: nat) -> Seq<char> {
    if text.len() >= width {
        text
    } else {
        text + Seq::new((width - text.len()) as nat, |i: int| ' ')
    }
}

/// Fills a text up with blanks to a width.
pub fn pad(text: &str, width: usize) -> (r: String)
    ensures
        r@ == padded(text@, width as nat),
{
    let count: usize = text.unicode_len();
    let mut out = text.to_owned();
    let mut have: usize = count;
    proof {
        reveal_strlit(" ");
        assert(out@ =~= text@ + Seq::new(0, |i: int| ' '));
    }
    while have < width
        invariant
            count == text@.len(),
            count <= have,
            have <= width || have == count,
            " "@ =~= seq![' '],
            out@ == text@ + Seq::new((have - count) as nat, |i: int| ' '),
        decreases width - have,
    {
        out.append(" ");
        have += 1;
        assert(out@ =~= text@ + Seq::new((have - count) as nat, |i: int| ' '));
    }
    assert(out@ =~= padded(text@, width as nat));
    out
}

/// The windows and what runs in them, each on a line.
pub open spec fn window_lines(windows: Seq<(Seq<char>, Seq<char>)>) -> Seq<char>
    decreases windows.len(),
{
    if windows.len() == 0 {
        Seq::empty()
    } else {
        window_lines(windows.drop_last()) + "  "@ + padded(windows.last().0, 20) + " "@
            + windows.last().1 + "\n"@
    }
}

/// What is known of the windows, in words: they, or that there are none, or why
/// they are not known.
pub open spec fn windows_text(windows: Result<Seq<(Seq<char>, Seq<char>)>, Seq<char>>) -> Seq<
    char,
> {
    match windows {
        Ok(windows) => if windows.len() == 0 {
            "  (tmux is running but has no windows)\n"@
        } else {
            window_lines(windows)
        },
        Err(error) => "  windows unavailable: "@ + error + "\n"@,
    }
}

/// What `status` prints. The windows are the other half of "is it all still
/// up": a session that is idle because everything else died is not the same as
/// a session that is idle.
pub fn status_report(
    agent: &Agent,
    info: &Info,
    windows: &Result<Vec<(String, String)>, String>,
) -> (r: String)
    ensures
        r@ == info_text(agent@.name, *info) + windows_text(
            match *windows {
                Ok(windows) => Ok(window_models(windows@)),
                Err(error) => Err(error@),
            },
        ),
{
    let mut out = match &info.name {
        Some(name) => name.clone(),
        None => "(unnamed)".to_owned(),
    };
    out.append(" — ");
    out.append(info.status.as_str());
    out.append(" — ");
    out.append(agent.name());
    out.append(" ");
    out.append(info.version.as_str());
    out.append(" — pid ");
    out.append(write_number(info.pid).as_str());
    out.append(" — ");
    out.append(
        if info.bridge.is_some() {
            "bridged"
        } else {
            "not bridged"
        },
    );
    out.append("\n");
    out.append(info.session_id.as_str());
    out.append("\n");
    let ghost head = out@;
    assert(head == info_text(agent@.name, *info));
    match windows {
        Ok(list) => {
            let ghost all = window_models(list@);
            if list.len() == 0 {
                out.append("  (tmux is running but has no windows)\n");
            }
            let mut i: usize = 0;
            let ghost start = out@;
            assert(start =~= start + window_lines(all.take(0)));
            while i < list.len()
                invariant
                    i <= list@.len(),
                    all == window_models(list@),
                    out@ == start + window_lines(all.take(i as int)),
                decreases list.len() - i,
            {
                assert(all.take(i + 1).drop_last() =~= all.take(i as int));
                assert(all.take(i + 1).last() == (list@[i as int].0@, list@[i as int].1@));
                out.append("  ");
                out.append(pad(list[i].0.as_str(), 20).as_str());
                out.append(" ");
                out.append(list[i].1.as_str());
                out.append("\n");
                i += 1;
                assert(out@ =~= start + window_lines(all.take(i as int)));
            }
            assert(all.take(i as int) =~= all);
            assert(out@ =~= head + windows_text(Ok(all)));
        },
        Err(error) => {
            out.append("  windows unavailable: ");
            out.append(error.as_str());
            out.append("\n");
            assert(out@ =~= head + windows_text(Err(error@)));
        },
    }
    out
}

// ---------------------------------------------------------------------------
// Laws

/// A message is shown whole, or it says how many characters were kept back: what
/// is shown begins with the message's own start, and the count and the start
/// make up the whole.
pub proof fn law_nothing_is_cut_silently(text: Seq<char>, full: bool)
    ensures
        shown_text(text, full) == text || exists|kept: Seq<char>, left: nat|
            {
                &&& kept.len() + left == text.len()
                &&& left > 0
                &&& kept.is_prefix_of(text)
                &&& shown_text(text, full) == #[trigger] (kept + "… (+"@) + #[trigger] decimal(left)
                    + " chars, --full for all)"@
            },
{
    if !full && text.len() > WIDTH {
        let kept = text.take(WIDTH as int);
        let left = (text.len() - WIDTH) as nat;
        assert(kept.is_prefix_of(text));
        assert(shown_text(text, full) == (kept + "… (+"@) + decimal(left)
            + " chars, --full for all)"@);
    }
}

/// `--full` shows every message whole.
pub proof fn law_full_shows_everything(text: Seq<char>)
    ensures
        shown_text(text, true) == text,
{
}

/// A message of at most seven hundred characters is shown whole, and of a longer
/// one the first seven hundred and how many are left.
pub proof fn law_what_is_shown_of_a_message(text: Seq<char>)
    ensures
        text.len() <= 700 ==> shown_text(text, false) == text,
        text.len() > 700 ==> shown_text(text, false) == text.subrange(0, 700) + "… (+"@ + decimal(
            (text.len() - 700) as nat,
        ) + " chars, --full for all)"@,
{
    if text.len() > 700 {
        assert(text.take(700) =~= text.subrange(0, 700));
    }
}

proof fn lemma_printed_add(a: Seq<LineModel>, b: Seq<LineModel>, full: bool)
    ensures
        printed_lines(a + b, full) == printed_lines(a, full) + printed_lines(b, full),
    decreases b.len(),
{
    if b.len() == 0 {
        assert(a + b =~= a);
        assert(printed_lines(a, full) + printed_lines(b, full) =~= printed_lines(a, full));
    } else {
        lemma_printed_add(a, b.drop_last(), full);
        assert((a + b).drop_last() =~= a + b.drop_last());
        assert(printed_lines(a + b, full) =~= printed_lines(a, full) + printed_lines(b, full));
    }
}

/// With `--full`, `read` prints a line as its clock, whose it is and its whole
/// text, however long that is; and without it what is shown of the text.
pub proof fn law_how_read_prints_a_line(line: Line, want: nat)
    requires
        want > 0,
    ensures
        read_text(line_models(seq![line]), true, want) == clock_of(line.at@) + "  "@ + line.who@
            + "  "@ + line.text@ + "\n\n"@,
        read_text(line_models(seq![line]), false, want) == clock_of(line.at@) + "  "@ + line.who@
            + "  "@ + shown_text(line.text@, false) + "\n\n"@,
{
    let one = line_models(seq![line]);
    assert(one.last() == line@);
    assert(one.drop_last() =~= Seq::<LineModel>::empty());
    assert(printed_lines(one.drop_last(), true) =~= Seq::<char>::empty());
    assert(printed_lines(one.drop_last(), false) =~= Seq::<char>::empty());
    assert(read_text(one, true, want) =~= clock_of(line.at@) + "  "@ + line.who@ + "  "@
        + line.text@ + "\n\n"@);
    assert(read_text(one, false, want) =~= clock_of(line.at@) + "  "@ + line.who@ + "  "@
        + shown_text(line.text@, false) + "\n\n"@);
}

/// `read` prints the last lines that are wanted one after the other, as it would
/// print each alone; and where there are more, it says how many are before them.
pub proof fn law_which_lines_read_prints(
    earlier: Seq<LineModel>,
    a: Seq<LineModel>,
    b: Seq<LineModel>,
    full: bool,
    want: nat,
)
    ensures
        (a + b).len() <= want ==> read_text(a + b, full, want) == read_text(a, full, want)
            + read_text(b, full, want),
        read_text(Seq::empty(), full, want) == Seq::<char>::empty(),
        earlier.len() > 0 ==> read_text(earlier + a, full, a.len()) == read_text(a, full, a.len())
            + "("@ + decimal(earlier.len()) + " earlier, ask for more)\n"@,
{
    lemma_printed_add(a, b, full);
    if earlier.len() > 0 {
        assert((earlier + a).skip(earlier.len() as int) =~= a);
    }
}

/// Each verb asks for its own, with the words behind it; `status` takes none, no
/// word asks for it too, and any other word is no verb.
pub proof fn law_what_a_verb_asks_for(verb: Seq<char>, rest: Seq<Seq<char>>)
    ensures
        command_of(Seq::empty()) == CommandModel::Status,
        command_of(seq!["status"@]) == CommandModel::Status,
        command_of(seq!["read"@] + rest) == CommandModel::Read(rest),
        command_of(seq!["pane"@] + rest) == CommandModel::Pane(rest),
        command_of(seq!["send"@] + rest) == CommandModel::Send(rest),
        command_of(seq!["wait"@] + rest) == CommandModel::Wait(rest),
        command_of(seq!["-h"@] + rest) == CommandModel::Help,
        command_of(seq!["--help"@] + rest) == CommandModel::Help,
        command_of(seq!["help"@] + rest) == CommandModel::Help,
        rest.len() > 0 ==> command_of(seq!["status"@] + rest) == CommandModel::Unknown("status"@),
        verb != "status"@ && verb != "read"@ && verb != "pane"@ && verb != "send"@ && verb
            != "wait"@ && verb != "-h"@ && verb != "--help"@ && verb != "help"@ ==> command_of(
            seq![verb] + rest,
        ) == CommandModel::Unknown(verb),
{
    reveal_strlit("status");
    reveal_strlit("read");
    reveal_strlit("pane");
    reveal_strlit("send");
    reveal_strlit("wait");
    reveal_strlit("help");
    reveal_strlit("-h");
    reveal_strlit("--help");
    lemma_first_and_rest("status"@, rest);
    lemma_first_and_rest("read"@, rest);
    lemma_first_and_rest("pane"@, rest);
    lemma_first_and_rest("send"@, rest);
    lemma_first_and_rest("wait"@, rest);
    lemma_first_and_rest("-h"@, rest);
    lemma_first_and_rest("--help"@, rest);
    lemma_first_and_rest("help"@, rest);
    lemma_first_and_rest(verb, rest);
    assert("pane"@[0] == 'p' && "send"@[0] == 's' && "wait"@[0] == 'w' && "help"@[0] == 'h');
    assert("-h"@[0] == '-' && "--help"@[0] == '-' && "status"@[0] == 's' && "read"@[0] == 'r');
    assert("send"@.len() != "status"@.len());
}

proof fn lemma_first_and_rest(first: Seq<char>, rest: Seq<Seq<char>>)
    ensures
        (seq![first] + rest)[0] == first,
        (seq![first] + rest).skip(1) == rest,
        (seq![first] + rest).len() == rest.len() + 1,
{
    assert((seq![first] + rest).skip(1) =~= rest);
}

/// `read` shows as many exchanges as its first word says that does not begin
/// with two dashes, wherever it stands behind words that do, and twelve without
/// one.
pub proof fn law_how_many_exchanges(
    flags: Seq<Seq<char>>,
    word: Seq<char>,
    rest: Seq<Seq<char>>,
)
    requires
        forall|i: int| 0 <= i < flags.len() ==> "--"@.is_prefix_of(#[trigger] flags[i]),
        !"--"@.is_prefix_of(word),
    ensures
        exchanges_wanted(flags + seq![word] + rest) == number_read(word, usize::MAX as nat),
        exchanges_wanted(flags) == Ok::<nat, NumberError>(12),
{
    lemma_first_plain(flags, seq![word] + rest);
    lemma_first_and_rest(word, rest);
    assert(flags + seq![word] + rest =~= flags + (seq![word] + rest));
    let nothing = Seq::<Seq<char>>::empty();
    lemma_first_plain(flags, nothing);
    assert(flags + nothing =~= flags);
    law_beginning_with(word, "--"@);
}

proof fn lemma_first_plain(flags: Seq<Seq<char>>, rest: Seq<Seq<char>>)
    requires
        forall|i: int| 0 <= i < flags.len() ==> "--"@.is_prefix_of(#[trigger] flags[i]),
    ensures
        first_plain(flags + rest) == first_plain(rest),
    decreases flags.len(),
{
    if flags.len() == 0 {
        assert(flags + rest =~= rest);
    } else {
        let less = flags.skip(1);
        assert((flags + rest).skip(1) =~= less + rest);
        assert((flags + rest)[0] == flags[0]);
        law_beginning_with(flags[0], "--"@);
        assert forall|i: int| 0 <= i < less.len() implies "--"@.is_prefix_of(#[trigger] less[i]) by {
            assert(less[i] == flags[i + 1]);
        }
        lemma_first_plain(less, rest);
    }
}

/// `pane` shows as many lines of scrollback as its first word says, and none
/// without one.
pub proof fn law_how_much_scrollback(word: Seq<char>, rest: Seq<Seq<char>>)
    ensures
        scrollback_wanted(seq![word] + rest) == number_read(word, usize::MAX as nat),
        scrollback_wanted(Seq::empty()) == Ok::<nat, NumberError>(0),
{
}

/// `wait` waits for idleness where `--idle` is there; else for a task where
/// `--task` is, about the word behind the first one unless that begins with two
/// dashes; else for a reply, about the value of `--match`. A timeout that cannot
/// be read is an error whatever it waits for.
pub proof fn law_what_wait_waits_for(args: Seq<Seq<char>>, limit: nat)
    ensures
        timeout_value(args) matches Err(error) ==> awaited(args) == Err::<
            (nat, AwaitedModel),
            ArgsErrorModel,
        >(error),
        timeout_value(args) == Ok::<nat, ArgsErrorModel>(limit) ==> {
            &&& args.contains("--idle"@) ==> awaited(args) == Ok::<
                (nat, AwaitedModel),
                ArgsErrorModel,
            >((limit, AwaitedModel::Idle))
            &&& !args.contains("--idle"@) && !args.contains("--task"@) ==> match flag_value(
                args,
                "--match"@,
            ) {
                Ok(wanted) => awaited(args) == Ok::<(nat, AwaitedModel), ArgsErrorModel>(
                    (limit, AwaitedModel::Reply(wanted)),
                ),
                Err(error) => awaited(args) == Err::<(nat, AwaitedModel), ArgsErrorModel>(error),
            }
        },
{
    lemma_place(args, "--task"@);
    if place_of(args, "--task"@) is Some {
        assert(args.contains(args[place_of(args, "--task"@)->0]));
    }
}

/// What `wait --task` waits for is about the word behind the first `--task`,
/// unless there is none or it begins with two dashes.
pub proof fn law_what_task_waits_for(
    front: Seq<Seq<char>>,
    back: Seq<Seq<char>>,
    limit: nat,
)
    requires
        !front.contains("--task"@),
        !(front + seq!["--task"@] + back).contains("--idle"@),
        timeout_value(front + seq!["--task"@] + back) == Ok::<nat, ArgsErrorModel>(limit),
    ensures
        awaited(front + seq!["--task"@] + back) == Ok::<(nat, AwaitedModel), ArgsErrorModel>(
            (
                limit,
                AwaitedModel::Task(
                    if back.len() > 0 && !"--"@.is_prefix_of(back[0]) {
                        Some(back[0])
                    } else {
                        None
                    },
                ),
            ),
        ),
{
    let args = front + seq!["--task"@] + back;
    lemma_place_behind(front, "--task"@, back);
    if back.len() > 0 {
        assert(args[front.len() as int + 1] == back[0]);
        law_beginning_with(back[0], "--"@);
    }
}

/// A text is filled up behind with blanks, and only as far as the width.
pub proof fn law_filling_up(text: Seq<char>, width: nat)
    ensures
        padded(text, width).len() == if text.len() < width {
            width
        } else {
            text.len()
        },
        text.is_prefix_of(padded(text, width)),
        forall|i: int|
            text.len() <= i < padded(text, width).len() ==> #[trigger] padded(text, width)[i] == ' ',
{
}

proof fn lemma_window_lines_add(
    a: Seq<(Seq<char>, Seq<char>)>,
    b: Seq<(Seq<char>, Seq<char>)>,
)
    ensures
        window_lines(a + b) == window_lines(a) + window_lines(b),
    decreases b.len(),
{
    if b.len() == 0 {
        assert(a + b =~= a);
        assert(window_lines(a) + window_lines(b) =~= window_lines(a));
    } else {
        lemma_window_lines_add(a, b.drop_last());
        assert((a + b).drop_last() =~= a + b.drop_last());
        assert(window_lines(a + b) =~= window_lines(a) + window_lines(b));
    }
}

/// Every window is on a line of its own, its name filled up to twenty characters
/// before what runs in it; that there is none is said, and why none is known.
pub proof fn law_how_windows_are_printed(
    a: Seq<(Seq<char>, Seq<char>)>,
    b: Seq<(Seq<char>, Seq<char>)>,
    name: String,
    command: String,
    error: Seq<char>,
)
    ensures
        windows_text(Ok(window_models(seq![(name, command)]))) == "  "@ + padded(name@, 20) + " "@
            + command@ + "\n"@,
        a.len() > 0 && b.len() > 0 ==> windows_text(Ok(a + b)) == windows_text(Ok(a))
            + windows_text(Ok(b)),
        windows_text(Ok(Seq::empty())) == "  (tmux is running but has no windows)\n"@,
        windows_text(Err(error)) == "  windows unavailable: "@ + error + "\n"@,
{
    lemma_window_lines_add(a, b);
    let one = window_models(seq![(name, command)]);
    assert(one.last() == (name@, command@));
    assert(one.drop_last() =~= Seq::<(Seq<char>, Seq<char>)>::empty());
    assert(window_lines(one.drop_last()) =~= Seq::<char>::empty());
    assert(window_lines(one) =~= "  "@ + padded(name@, 20) + " "@ + command@ + "\n"@);
}

/// A session is shown by its name, or that it has none, its status, the agent
/// with its version, its process, whether it is bridged, and its id.
pub proof fn law_how_a_session_is_shown(agent: Seq<char>, info: Info)
    ensures
        ({
            let name = match info.name {
                Some(name) => name@,
                None => "(unnamed)"@,
            };
            let bridged = match info.bridge {
                Some(_) => "bridged"@,
                None => "not bridged"@,
            };
            info_text(agent, info) == name + " — "@ + info.status@ + " — "@ + agent + " "@
                + info.version@ + " — pid "@ + decimal(info.pid as nat) + " — "@ + bridged + "\n"@
                + info.session_id@ + "\n"@
        }),
{
}

/// A command holds its words, and what is waited for its text.
pub proof fn law_what_commands_hold(args: Vec<&str>, verb: &str, text: String)
    ensures
        Command::Status@ is Status,
        Command::Read(args)@ == CommandModel::Read(words(args@)),
        Command::Pane(args)@ == CommandModel::Pane(words(args@)),
        Command::Send(args)@ == CommandModel::Send(words(args@)),
        Command::Wait(args)@ == CommandModel::Wait(words(args@)),
        Command::Help@ is Help,
        Command::Unknown(verb)@ == CommandModel::Unknown(verb@),
        Awaited::Idle@ is Idle,
        Awaited::Task(Some(text))@ == AwaitedModel::Task(Some(text@)),
        Awaited::Task(None)@ == AwaitedModel::Task(None),
        Awaited::Reply(Some(text))@ == AwaitedModel::Reply(Some(text@)),
        Awaited::Reply(None)@ == AwaitedModel::Reply(None),
{
}

} // verus!
