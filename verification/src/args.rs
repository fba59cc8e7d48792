//! Reading the command line.
//!
//! Every bug in this kind of code is a parse that quietly does something
//! plausible: `-t read` looking for a target called "read" instead of running
//! the verb, `send "x" --wait` typing the word `--wait` into the composer.
use vstd::prelude::*;
use vstd::string::StringExecFns;

use crate::number::{
    decimal, law_written_number_reads_back, number_read, read_number, NumberError,
};
use crate::text::{begins, same, starts_with, text_of, words};
use crate::unicode::{quote, quoted};

verus! {

/// How many seconds `wait` sits there when `--timeout` says nothing.
///
/// What is waited for is usually a build measured in tens of minutes, and
/// returning early reads exactly like "it never answered".
pub const WAIT_FOR: u64 = 3600;

/// What is wrong with a command line.
#[derive(Debug)]
pub enum ArgsError {
    /// `-t` is the last word.
    NoTargetName,
    /// The word behind `-t` is a flag.
    FlagForTargetName(String),
    /// The word behind `-t` is a verb, and no other word is left to be one.
    VerbForTargetName(String),
    /// A flag is the last word, and wants a value.
    NoValue(String),
    /// `--timeout` is the last word.
    NoTimeout,
    /// The word behind `--timeout` is not a number of seconds.
    BadTimeout(NumberError),
}

/// What an [`ArgsError`] holds.
pub enum ArgsErrorModel {
    NoTargetName,
    FlagForTargetName(Seq<char>),
    VerbForTargetName(Seq<char>),
    NoValue(Seq<char>),
    NoTimeout,
    BadTimeout(NumberError),
}

impl View for ArgsError {
    type V = ArgsErrorModel;

    open spec fn view(&self) -> ArgsErrorModel {
        match self {
            ArgsError::NoTargetName => ArgsErrorModel::NoTargetName,
            ArgsError::FlagForTargetName(name) => ArgsErrorModel::FlagForTargetName(name@),
            ArgsError::VerbForTargetName(name) => ArgsErrorModel::VerbForTargetName(name@),
            ArgsError::NoValue(flag) => ArgsErrorModel::NoValue(flag@),
            ArgsError::NoTimeout => ArgsErrorModel::NoTimeout,
            ArgsError::BadTimeout(cause) => ArgsErrorModel::BadTimeout(*cause),
        }
    }
}

impl ArgsErrorModel {
    /// What is said about the error.
    pub open spec fn message(self) -> Seq<char> {
        match self {
            ArgsErrorModel::NoTargetName => "-t needs a target name"@,
            ArgsErrorModel::FlagForTargetName(name) => "-t needs a target name, got "@ + quoted(
                name,
            ),
            ArgsErrorModel::VerbForTargetName(name) => "-t needs a target name, got "@ + quoted(
                name,
            ),
            ArgsErrorModel::NoValue(flag) => flag + " needs a value"@,
            ArgsErrorModel::NoTimeout => "--timeout needs a number of seconds"@,
            ArgsErrorModel::BadTimeout(_) => "--timeout wants seconds"@,
        }
    }
}

impl ArgsError {
    /// What is said about the error.
    pub fn message(&self) -> (r: String)
        ensures
            r@ == self@.message(),
    {
        match self {
            ArgsError::NoTargetName => "-t needs a target name".to_owned(),
            ArgsError::FlagForTargetName(name) => {
                let mut out = "-t needs a target name, got ".to_owned();
                out.append(quote(name.as_str()).as_str());
                out
            },
            ArgsError::VerbForTargetName(name) => {
                let mut out = "-t needs a target name, got ".to_owned();
                out.append(quote(name.as_str()).as_str());
                out
            },
            ArgsError::NoValue(flag) => {
                let mut out = flag.clone();
                out.append(" needs a value");
                out
            },
            ArgsError::NoTimeout => "--timeout needs a number of seconds".to_owned(),
            ArgsError::BadTimeout(_) => "--timeout wants seconds".to_owned(),
        }
    }
}

// ---------------------------------------------------------------------------
// The target

/// Whether a word announces the name of a target.
pub open spec fn is_target_flag(word: Seq<char>) -> bool {
    word == "-t"@ || word == "--target"@
}

/// Whether a word begins with a dash.
pub open spec fn is_dashed(word: Seq<char>) -> bool {
    begins(word, "-"@)
}

/// What is left to do when a target was lifted out of the words before, and
/// these words stay.
pub open spec fn target_lifted(
    args: Seq<Seq<char>>,
    target: Option<Seq<char>>,
    rest: Seq<Seq<char>>,
) -> Result<(Option<Seq<char>>, Seq<Seq<char>>), ArgsErrorModel>
    decreases args.len(),
{
    if args.len() == 0 {
        Ok((target, rest))
    } else if !is_target_flag(args[0]) {
        target_lifted(args.skip(1), target, rest.push(args[0]))
    } else if args.len() == 1 {
        Err(ArgsErrorModel::NoTargetName)
    } else if is_dashed(args[1]) {
        Err(ArgsErrorModel::FlagForTargetName(args[1]))
    } else {
        target_lifted(args.skip(2), Some(args[1]), rest)
    }
}

/// Whether a word says what to do.
pub open spec fn is_verb(word: Seq<char>) -> bool {
    word == "status"@ || word == "read"@ || word == "pane"@ || word == "send"@ || word == "wait"@
        || word == "help"@
}

/// Whether a word says what to do.
fn verb(word: &str) -> (r: bool)
    ensures
        r == is_verb(word@),
{
    same(word, "status") || same(word, "read") || same(word, "pane") || same(word, "send") || same(
        word,
        "wait",
    ) || same(word, "help")
}

/// The target that the arguments name, and the arguments without it. A verb is
/// no target's name where nothing else is left to be the verb.
pub open spec fn target_taken(args: Seq<Seq<char>>) -> Result<
    (Option<Seq<char>>, Seq<Seq<char>>),
    ArgsErrorModel,
> {
    match target_lifted(args, None, Seq::empty()) {
        Ok((Some(name), rest)) if rest.len() == 0 && is_verb(name) => Err(
            ArgsErrorModel::VerbForTargetName(name),
        ),
        lifted => lifted,
    }
}

/// Lifts `-t <name>` (or `--target <name>`) out of the arguments. Of several
/// names the last one counts.
pub fn take_target<'a>(args: &[&'a str]) -> (r: Result<(Option<String>, Vec<&'a str>), ArgsError>)
    ensures
        target_taken(words(args@)) == (match r {
            Ok((target, rest)) => Ok((text_of(target), words(rest@))),
            Err(error) => Err(error@),
        }),
{
    let ghost all = words(args@);
    let mut target: Option<String> = None;
    let mut rest: Vec<&'a str> = Vec::new();
    let mut i: usize = 0;
    proof {
        assert(all.skip(0) =~= all);
        assert(words(rest@) =~= Seq::<Seq<char>>::empty());
    }
    while i < args.len()
        invariant
            i <= args@.len(),
            all == words(args@),
            target_lifted(all, None, Seq::empty()) == target_lifted(
                all.skip(i as int),
                text_of(target),
                words(rest@),
            ),
        decreases args.len() - i,
    {
        let arg = args[i];
        let ghost left = all.skip(i as int);
        assert(left[0] == arg@);
        if same(arg, "-t") || same(arg, "--target") {
            if args.len() - i == 1 {
                return Err(ArgsError::NoTargetName);
            }
            let name = args[i + 1];
            assert(left[1] == name@);
            // Otherwise a missing name would swallow the flag.
            if starts_with(name, "-") {
                return Err(ArgsError::FlagForTargetName(name.to_owned()));
            }
            assert(left.skip(2) =~= all.skip(i + 2));
            target = Some(name.to_owned());
            i += 2;
        } else {
            assert(left.skip(1) =~= all.skip(i + 1));
            let ghost was = rest@;
            rest.push(arg);
            assert(words(rest@) =~= words(was).push(arg@));
            i += 1;
        }
    }
    // Otherwise a missing name would swallow the verb: `-t read` would look for
    // a target called "read", and do what no verb asks for.
    if rest.len() == 0 {
        if let Some(name) = &target {
            if verb(name.as_str()) {
                return Err(ArgsError::VerbForTargetName(name.clone()));
            }
        }
    }
    Ok((target, rest))
}

// ---------------------------------------------------------------------------
// Flags with a value

/// The first place of a word.
pub open spec fn place_of(args: Seq<Seq<char>>, word: Seq<char>) -> Option<int>
    decreases args.len(),
{
    if args.len() == 0 {
        None
    } else if args[0] == word {
        Some(0)
    } else {
        match place_of(args.skip(1), word) {
            Some(at) => Some(at + 1),
            None => None,
        }
    }
}

/// The place of a word is its first one, and there is none only where the word
/// is not there.
pub proof fn lemma_place(args: Seq<Seq<char>>, word: Seq<char>)
    ensures
        match place_of(args, word) {
            Some(at) => 0 <= at < args.len() && args[at] == word && forall|i: int|
                0 <= i < at ==> args[i] != word,
            None => forall|i: int| 0 <= i < args.len() ==> args[i] != word,
        },
    decreases args.len(),
{
    if args.len() > 0 && args[0] != word {
        lemma_place(args.skip(1), word);
        assert forall|i: int| 0 < i < args.len() implies args[i] == args.skip(1)[i - 1] by {}
    }
}

/// The first place of a word.
pub fn find_word(args: &[&str], word: &str) -> (r: Option<usize>)
    ensures
        place_of(words(args@), word@) == (match r {
            Some(at) => Some(at as int),
            None => None,
        }),
{
    let ghost all = words(args@);
    let mut i: usize = 0;
    assert(all.skip(0) =~= all);
    while i < args.len()
        invariant
            i <= args@.len(),
            all == words(args@),
            place_of(all, word@) == (match place_of(all.skip(i as int), word@) {
                Some(at) => Some(at + i),
                None => None,
            }),
        decreases args.len() - i,
    {
        assert(all.skip(i as int)[0] == args@[i as int]@);
        if same(args[i], word) {
            return Some(i);
        }
        assert(all.skip(i as int).skip(1) =~= all.skip(i + 1));
        i += 1;
    }
    None
}

/// The word behind the first place of a flag: none without the flag, and an
/// error where the flag is the last word.
pub open spec fn flag_value(args: Seq<Seq<char>>, flag: Seq<char>) -> Result<
    Option<Seq<char>>,
    ArgsErrorModel,
> {
    match place_of(args, flag) {
        Some(at) => if at + 1 < args.len() {
            Ok(Some(args[at + 1]))
        } else {
            Err(ArgsErrorModel::NoValue(flag))
        },
        None => Ok(None),
    }
}

/// The value of a `--flag value` pair, if it is there.
pub fn flag_of(args: &[&str], flag: &str) -> (r: Result<Option<String>, ArgsError>)
    ensures
        flag_value(words(args@), flag@) == (match r {
            Ok(value) => Ok(text_of(value)),
            Err(error) => Err(error@),
        }),
{
    proof {
        lemma_place(words(args@), flag@);
    }
    match find_word(args, flag) {
        Some(at) => if args.len() - at > 1 {
            Ok(Some(args[at + 1].to_owned()))
        } else {
            Err(ArgsError::NoValue(flag.to_owned()))
        },
        None => Ok(None),
    }
}

/// How many seconds to wait: the number behind the first `--timeout`, or
/// [`WAIT_FOR`] without one. What is not a number is an error, and not the
/// default.
pub open spec fn timeout_value(args: Seq<Seq<char>>) -> Result<nat, ArgsErrorModel> {
    match place_of(args, "--timeout"@) {
        Some(at) => if at + 1 < args.len() {
            match number_read(args[at + 1], u64::MAX as nat) {
                Ok(seconds) => Ok(seconds),
                Err(cause) => Err(ArgsErrorModel::BadTimeout(cause)),
            }
        } else {
            Err(ArgsErrorModel::NoTimeout)
        },
        None => Ok(WAIT_FOR as nat),
    }
}

/// How many seconds to wait, from `--timeout <seconds>`.
pub fn timeout_of(args: &[&str]) -> (r: Result<u64, ArgsError>)
    ensures
        timeout_value(words(args@)) == (match r {
            Ok(seconds) => Ok(seconds as nat),
            Err(error) => Err(error@),
        }),
{
    proof {
        lemma_place(words(args@), "--timeout"@);
    }
    match find_word(args, "--timeout") {
        Some(at) => if args.len() - at > 1 {
            match read_number(args[at + 1], u64::MAX) {
                Ok(seconds) => Ok(seconds),
                Err(cause) => Err(ArgsError::BadTimeout(cause)),
            }
        } else {
            Err(ArgsError::NoTimeout)
        },
        None => Ok(WAIT_FOR),
    }
}

// ---------------------------------------------------------------------------
// Laws

/// Whether none of the words announces a target.
pub open spec fn names_no_target(args: Seq<Seq<char>>) -> bool {
    forall|i: int| 0 <= i < args.len() ==> !is_target_flag(#[trigger] args[i])
}

proof fn lemma_plain_words_stay(
    front: Seq<Seq<char>>,
    back: Seq<Seq<char>>,
    target: Option<Seq<char>>,
    rest: Seq<Seq<char>>,
)
    requires
        names_no_target(front),
    ensures
        target_lifted(front + back, target, rest) == target_lifted(back, target, rest + front),
    decreases front.len(),
{
    if front.len() == 0 {
        assert(front + back =~= back);
        assert(rest + front =~= rest);
    } else {
        let less = front.skip(1);
        assert((front + back).skip(1) =~= less + back);
        assert((front + back)[0] == front[0]);
        assert(names_no_target(less)) by {
            assert forall|i: int| 0 <= i < less.len() implies !is_target_flag(#[trigger] less[i]) by {
                assert(less[i] == front[i + 1]);
            }
        }
        lemma_plain_words_stay(less, back, target, rest.push(front[0]));
        assert(rest.push(front[0]) + less =~= rest + front);
    }
}

/// Where no target is named, every argument stays as it is.
pub proof fn law_no_target_leaves_every_argument(args: Seq<Seq<char>>)
    requires
        names_no_target(args),
    ensures
        target_taken(args) == Ok::<_, ArgsErrorModel>(
            (None::<Seq<char>>, args),
        ),
{
    let nothing = Seq::<Seq<char>>::empty();
    lemma_plain_words_stay(args, nothing, None, nothing);
    assert(args + nothing =~= args);
    assert(nothing + args =~= args);
}

/// A target named among other arguments is lifted out, wherever it stands, and
/// the other arguments stay as they are. Without other arguments that holds of
/// every name but a verb.
pub proof fn law_a_target_is_lifted_out(
    front: Seq<Seq<char>>,
    flag: Seq<char>,
    name: Seq<char>,
    back: Seq<Seq<char>>,
)
    requires
        names_no_target(front),
        is_target_flag(flag),
        !is_dashed(name),
        names_no_target(back),
        (front + back).len() > 0 || !is_verb(name),
    ensures
        target_taken(front + seq![flag, name] + back) == Ok::<
            _,
            ArgsErrorModel,
        >((Some(name), front + back)),
{
    let nothing = Seq::<Seq<char>>::empty();
    let tail = seq![flag, name] + back;
    assert(front + seq![flag, name] + back =~= front + tail);
    lemma_plain_words_stay(front, tail, None, nothing);
    assert(nothing + front =~= front);
    assert(tail[0] == flag && tail[1] == name);
    assert(tail.skip(2) =~= back);
    lemma_plain_words_stay(back, nothing, Some(name), front);
    assert(back + nothing =~= back);
}

/// A flag in the place of a target's name is an error, whatever follows.
pub proof fn law_a_flag_is_no_target_name(
    front: Seq<Seq<char>>,
    flag: Seq<char>,
    name: Seq<char>,
    back: Seq<Seq<char>>,
)
    requires
        names_no_target(front),
        is_target_flag(flag),
        is_dashed(name),
    ensures
        target_taken(front + seq![flag, name] + back) == Err::<
            (Option<Seq<char>>, Seq<Seq<char>>),
            _,
        >(ArgsErrorModel::FlagForTargetName(name)),
{
    let nothing = Seq::<Seq<char>>::empty();
    let tail = seq![flag, name] + back;
    assert(front + seq![flag, name] + back =~= front + tail);
    lemma_plain_words_stay(front, tail, None, nothing);
    assert(tail[0] == flag && tail[1] == name);
}

/// What is left of the arguments names no target.
pub proof fn law_no_target_is_left(args: Seq<Seq<char>>)
    ensures
        target_taken(args) matches Ok((_, rest)) ==> names_no_target(rest),
{
    lemma_no_target_is_left(args, None, Seq::empty());
}

proof fn lemma_no_target_is_left(
    args: Seq<Seq<char>>,
    target: Option<Seq<char>>,
    rest: Seq<Seq<char>>,
)
    requires
        names_no_target(rest),
    ensures
        target_lifted(args, target, rest) matches Ok((_, left)) ==> names_no_target(left),
    decreases args.len(),
{
    if args.len() > 0 {
        if !is_target_flag(args[0]) {
            lemma_no_target_is_left(args.skip(1), target, rest.push(args[0]));
        } else if args.len() > 1 {
            lemma_no_target_is_left(args.skip(2), Some(args[1]), rest);
        }
    }
}

/// A verb in the place of a target's name is an error where it would leave
/// nothing to do.
pub proof fn law_a_verb_is_no_target_name(flag: Seq<char>, name: Seq<char>)
    requires
        is_target_flag(flag),
        is_verb(name),
    ensures
        target_taken(seq![flag, name]) == Err::<(Option<Seq<char>>, Seq<Seq<char>>), _>(
            ArgsErrorModel::VerbForTargetName(name),
        ),
{
    lemma_verbs_are_plain(name);
    let args = seq![flag, name];
    let nothing = Seq::<Seq<char>>::empty();
    assert(args.skip(2) =~= nothing);
    assert(target_lifted(nothing, Some(name), nothing) == Ok::<_, ArgsErrorModel>(
        (Some(name), nothing),
    ));
}

proof fn lemma_verbs_are_plain(name: Seq<char>)
    requires
        is_verb(name),
    ensures
        !is_dashed(name),
{
    reveal_strlit("-");
    reveal_strlit("status");
    reveal_strlit("read");
    reveal_strlit("pane");
    reveal_strlit("send");
    reveal_strlit("wait");
    reveal_strlit("help");
    if is_dashed(name) {
        assert(name[0] == "-"@[0]);
    }
}

/// Whether the word at a place stays: it neither announces a target nor names
/// one.
pub open spec fn stays(args: Seq<Seq<char>>, i: int) -> bool {
    !is_target_flag(args[i]) && (i == 0 || !is_target_flag(args[i - 1]))
}

/// The words that stay.
pub open spec fn words_that_stay(args: Seq<Seq<char>>) -> Seq<Seq<char>>
    decreases args.len(),
{
    if args.len() == 0 {
        Seq::empty()
    } else if stays(args, args.len() - 1) {
        words_that_stay(args.drop_last()).push(args.last())
    } else {
        words_that_stay(args.drop_last())
    }
}

/// The word behind the last one that announces a target.
pub open spec fn last_named(args: Seq<Seq<char>>) -> Option<Seq<char>>
    decreases args.len(),
{
    if args.len() < 2 {
        None
    } else if is_target_flag(args[args.len() - 2]) {
        Some(args.last())
    } else {
        last_named(args.drop_last())
    }
}

/// Whether every word that announces a target has a name behind it.
pub open spec fn targets_have_names(args: Seq<Seq<char>>) -> bool {
    forall|i: int|
        0 <= i < args.len() && is_target_flag(#[trigger] args[i]) ==> i + 1 < args.len()
            && !is_dashed(args[i + 1])
}

proof fn lemma_target_flags_are_dashed(word: Seq<char>)
    requires
        is_target_flag(word),
    ensures
        is_dashed(word),
{
    reveal_strlit("-");
    reveal_strlit("-t");
    reveal_strlit("--target");
    assert(word.take(1) =~= "-"@);
}

/// What comes of the words `left`, when the words `done` were read before them.
proof fn lemma_lifted(done: Seq<Seq<char>>, left: Seq<Seq<char>>)
    requires
        done.len() > 0 ==> !is_target_flag(done.last()),
    ensures
        ({
            let lifted = target_lifted(left, last_named(done), words_that_stay(done));
            &&& lifted is Ok <==> targets_have_names(left)
            &&& lifted matches Ok((target, rest)) ==> target == last_named(done + left) && rest
                == words_that_stay(done + left)
        }),
    decreases left.len(),
{
    if left.len() == 0 {
        assert(done + left =~= done);
    } else if !is_target_flag(left[0]) {
        let next = done.push(left[0]);
        assert(next.drop_last() =~= done);
        assert(next + left.skip(1) =~= done + left);
        lemma_lifted(next, left.skip(1));
        lemma_names_behind(left, 1);
    } else if left.len() > 1 && !is_dashed(left[1]) {
        if is_target_flag(left[1]) {
            lemma_target_flags_are_dashed(left[1]);
        }
        let flagged = done.push(left[0]);
        let next = flagged.push(left[1]);
        assert(flagged.drop_last() =~= done);
        assert(next.drop_last() =~= flagged);
        assert(next + left.skip(2) =~= done + left);
        lemma_lifted(next, left.skip(2));
        lemma_names_behind(left, 2);
    } else {
        assert(is_target_flag(left[0]));
    }
}

/// Where the words before a place have their names, the others decide.
proof fn lemma_names_behind(args: Seq<Seq<char>>, from: int)
    requires
        0 <= from <= args.len(),
        forall|i: int|
            0 <= i < from && is_target_flag(#[trigger] args[i]) ==> i + 1 < args.len()
                && !is_dashed(args[i + 1]),
    ensures
        targets_have_names(args) <==> targets_have_names(args.skip(from)),
{
    let rest = args.skip(from);
    if targets_have_names(args) {
        assert forall|i: int| 0 <= i < rest.len() && is_target_flag(#[trigger] rest[i]) implies i
            + 1 < rest.len() && !is_dashed(rest[i + 1]) by {
            assert(is_target_flag(args[from + i]));
        }
    }
    if targets_have_names(rest) {
        assert forall|i: int| 0 <= i < args.len() && is_target_flag(#[trigger] args[i]) implies i
            + 1 < args.len() && !is_dashed(args[i + 1]) by {
            if i >= from {
                assert(is_target_flag(rest[i - from]));
            }
        }
    }
}

/// The target is the word behind the last `-t`, and what is left is the other
/// arguments without any `-t` and the word behind it, in their order. That fails
/// only where a `-t` has no name behind it, or where a verb would be the name
/// and nothing be left.
pub proof fn law_what_is_lifted_and_what_stays(args: Seq<Seq<char>>)
    ensures
        target_taken(args) matches Ok((target, rest)) ==> target == last_named(args) && rest
            == words_that_stay(args),
        target_taken(args) is Ok <==> targets_have_names(args) && (words_that_stay(args).len() > 0
            || (last_named(args) matches Some(name) ==> !is_verb(name))),
{
    let nothing = Seq::<Seq<char>>::empty();
    lemma_lifted(nothing, args);
    assert(nothing + args =~= args);
}

/// Where a word does not stand before, its place is its first one.
pub proof fn lemma_place_behind(front: Seq<Seq<char>>, word: Seq<char>, back: Seq<Seq<char>>)
    requires
        !front.contains(word),
    ensures
        place_of(front + seq![word] + back, word) == Some(front.len() as int),
    decreases front.len(),
{
    let all = front + seq![word] + back;
    if front.len() == 0 {
        assert(all[0] == word);
    } else {
        let less = front.skip(1);
        assert(all.skip(1) =~= less + seq![word] + back);
        assert(all[0] == front[0]);
        assert(front.contains(front[0]));
        assert(!less.contains(word)) by {
            if less.contains(word) {
                let i = choose|i: int| 0 <= i < less.len() && less[i] == word;
                assert(front[i + 1] == word);
            }
        }
        lemma_place_behind(less, word, back);
    }
}

/// The value behind a flag is read back, wherever the pair stands.
pub proof fn law_a_flag_value_is_read_back(
    front: Seq<Seq<char>>,
    flag: Seq<char>,
    value: Seq<char>,
    back: Seq<Seq<char>>,
)
    requires
        !front.contains(flag),
    ensures
        flag_value(front + seq![flag, value] + back, flag) == Ok::<_, ArgsErrorModel>(Some(value)),
{
    lemma_place_behind(front, flag, seq![value] + back);
    assert(front + seq![flag, value] + back =~= front + seq![flag] + (seq![value] + back));
}

/// A number of seconds behind `--timeout` is read back, wherever the pair
/// stands.
pub proof fn law_a_timeout_is_read_back(
    front: Seq<Seq<char>>,
    seconds: u64,
    back: Seq<Seq<char>>,
)
    requires
        !front.contains("--timeout"@),
    ensures
        timeout_value(front + seq!["--timeout"@, decimal(seconds as nat)] + back) == Ok::<
            _,
            ArgsErrorModel,
        >(seconds as nat),
{
    let value = decimal(seconds as nat);
    lemma_place_behind(front, "--timeout"@, seq![value] + back);
    assert(front + seq!["--timeout"@, value] + back =~= front + seq!["--timeout"@] + (seq![value]
        + back));
    law_written_number_reads_back(seconds as nat, u64::MAX as nat);
}

/// Anything but a number behind `--timeout` is an error, and never the default.
pub proof fn law_a_bad_timeout_is_no_default(
    front: Seq<Seq<char>>,
    value: Seq<char>,
    back: Seq<Seq<char>>,
)
    requires
        !front.contains("--timeout"@),
        number_read(value, u64::MAX as nat) is Err,
    ensures
        timeout_value(front + seq!["--timeout"@, value] + back) is Err,
{
    lemma_place_behind(front, "--timeout"@, seq![value] + back);
    assert(front + seq!["--timeout"@, value] + back =~= front + seq!["--timeout"@] + (seq![value]
        + back));
}

/// Two words announce a target; a word that begins with a dash names none; and
/// six words are verbs.
pub proof fn law_words_of_a_command_line(word: Seq<char>)
    ensures
        is_target_flag(word) <==> word == "-t"@ || word == "--target"@,
        is_dashed(word) <==> word.len() > 0 && word[0] == '-',
        is_verb(word) <==> word == "status"@ || word == "read"@ || word == "pane"@ || word
            == "send"@ || word == "wait"@ || word == "help"@,
{
    reveal_strlit("-");
    if is_dashed(word) {
        assert(word.subrange(0, 1)[0] == '-');
    }
    if word.len() > 0 && word[0] == '-' {
        assert(word.subrange(0, 1) =~= "-"@);
    }
}

proof fn lemma_reads_on(done: Seq<Seq<char>>, next: Seq<Seq<char>>, left: Seq<Seq<char>>)
    requires
        done.len() > 0 ==> !is_target_flag(done.last()),
        targets_have_names(next),
    ensures
        target_lifted(next + left, last_named(done), words_that_stay(done)) == target_lifted(
            left,
            last_named(done + next),
            words_that_stay(done + next),
        ),
    decreases next.len(),
{
    let all = next + left;
    if next.len() == 0 {
        assert(all =~= left);
        assert(done + next =~= done);
    } else if !is_target_flag(next[0]) {
        let more = done.push(next[0]);
        assert(more.drop_last() =~= done);
        lemma_names_behind(next, 1);
        assert(more + next.skip(1) =~= done + next);
        assert(all.skip(1) =~= next.skip(1) + left);
        assert(all[0] == next[0]);
        lemma_reads_on(more, next.skip(1), left);
    } else {
        assert(is_target_flag(next[0]));
        assert(next.len() > 1 && !is_dashed(next[1]));
        if is_target_flag(next[1]) {
            lemma_target_flags_are_dashed(next[1]);
        }
        let flagged = done.push(next[0]);
        let more = flagged.push(next[1]);
        assert(flagged.drop_last() =~= done);
        assert(more.drop_last() =~= flagged);
        lemma_names_behind(next, 2);
        assert(more + next.skip(2) =~= done + next);
        assert(all.skip(2) =~= next.skip(2) + left);
        assert(all[0] == next[0] && all[1] == next[1]);
        lemma_reads_on(more, next.skip(2), left);
    }
}

/// The first `-t` without a name decides the error: that it is the last word, or
/// what stands in the place of the name. Where every `-t` has one, the error is
/// the verb that would be the name.
pub proof fn law_why_a_target_is_refused(
    front: Seq<Seq<char>>,
    flag: Seq<char>,
    name: Seq<char>,
    back: Seq<Seq<char>>,
)
    requires
        targets_have_names(front),
        is_target_flag(flag),
        is_dashed(name),
    ensures
        target_taken(front + seq![flag]) == Err::<(Option<Seq<char>>, Seq<Seq<char>>), _>(
            ArgsErrorModel::NoTargetName,
        ),
        target_taken(front + seq![flag, name] + back) == Err::<
            (Option<Seq<char>>, Seq<Seq<char>>),
            _,
        >(ArgsErrorModel::FlagForTargetName(name)),
        words_that_stay(front).len() == 0 ==> (last_named(front) matches Some(verb) ==> is_verb(
            verb,
        ) ==> target_taken(front) == Err::<(Option<Seq<char>>, Seq<Seq<char>>), _>(
            ArgsErrorModel::VerbForTargetName(verb),
        )),
{
    let nothing = Seq::<Seq<char>>::empty();
    assert(nothing + front =~= front);
    assert(last_named(nothing) is None);
    assert(words_that_stay(nothing) =~= nothing);
    lemma_reads_on(nothing, front, seq![flag]);
    let tail = seq![flag, name] + back;
    assert(front + seq![flag, name] + back =~= front + tail);
    assert(tail[0] == flag && tail[1] == name);
    lemma_reads_on(nothing, front, tail);
    lemma_lifted(nothing, front);
}

/// A flag that is not there has no value, and one that is the last word lacks
/// it.
pub proof fn law_a_flag_without_a_value(args: Seq<Seq<char>>, flag: Seq<char>)
    requires
        !args.contains(flag),
    ensures
        flag_value(args, flag) == Ok::<Option<Seq<char>>, ArgsErrorModel>(None),
        flag_value(args + seq![flag], flag) == Err::<Option<Seq<char>>, ArgsErrorModel>(
            ArgsErrorModel::NoValue(flag),
        ),
{
    lemma_place(args, flag);
    if place_of(args, flag) is Some {
        assert(args.contains(args[place_of(args, flag)->0]));
    }
    let nothing = Seq::<Seq<char>>::empty();
    lemma_place_behind(args, flag, nothing);
    assert(args + seq![flag] + nothing =~= args + seq![flag]);
}

/// The word behind the first `--timeout` is read as any number is, and what is
/// wrong with it is what is wrong with the timeout; without one it is an hour,
/// and with one that is the last word an error.
pub proof fn law_what_a_timeout_is(
    front: Seq<Seq<char>>,
    value: Seq<char>,
    back: Seq<Seq<char>>,
)
    requires
        !front.contains("--timeout"@),
    ensures
        timeout_value(front) == Ok::<nat, ArgsErrorModel>(3600),
        timeout_value(front + seq!["--timeout"@]) == Err::<nat, ArgsErrorModel>(
            ArgsErrorModel::NoTimeout,
        ),
        timeout_value(front + seq!["--timeout"@, value] + back) == match number_read(
            value,
            0xffff_ffff_ffff_ffff,
        ) {
            Ok(seconds) => Ok(seconds),
            Err(cause) => Err(ArgsErrorModel::BadTimeout(cause)),
        },
{
    law_a_flag_without_a_value(front, "--timeout"@);
    lemma_place(front, "--timeout"@);
    if place_of(front, "--timeout"@) is Some {
        assert(front.contains(front[place_of(front, "--timeout"@)->0]));
    }
    let nothing = Seq::<Seq<char>>::empty();
    lemma_place_behind(front, "--timeout"@, nothing);
    assert(front + seq!["--timeout"@] + nothing =~= front + seq!["--timeout"@]);
    lemma_place_behind(front, "--timeout"@, seq![value] + back);
    assert(front + seq!["--timeout"@, value] + back =~= front + seq!["--timeout"@] + (seq![value]
        + back));
}

/// What is said about an error names the word that is wrong.
pub proof fn law_what_is_said_about_arguments(word: String, cause: NumberError)
    ensures
        ArgsError::NoTargetName@.message() == "-t needs a target name"@,
        ArgsError::FlagForTargetName(word)@.message() == "-t needs a target name, got "@ + quoted(
            word@,
        ),
        ArgsError::VerbForTargetName(word)@.message() == "-t needs a target name, got "@ + quoted(
            word@,
        ),
        ArgsError::NoValue(word)@.message() == word@ + " needs a value"@,
        ArgsError::NoTimeout@.message() == "--timeout needs a number of seconds"@,
        ArgsError::BadTimeout(cause)@.message() == "--timeout wants seconds"@,
        ArgsError::BadTimeout(cause)@ == ArgsErrorModel::BadTimeout(cause),
{
}

} // verus!
