//! Command-line parsing, where every bug has been a parse that quietly did
//! something plausible.

use outpost::args::{flag_of, take_target, timeout_of, ArgsError, WAIT_FOR};
use outpost::number::NumberError;

#[test]
fn a_target_is_lifted_out_and_the_verb_survives() {
    let (target, rest) = take_target(&["-t", "build", "wait", "--idle"]).unwrap();
    assert_eq!(target.as_deref(), Some("build"));
    assert_eq!(rest, ["wait", "--idle"]);
}

#[test]
fn the_long_spelling_works_too() {
    let (target, rest) = take_target(&["read", "--target", "dev", "20"]).unwrap();
    assert_eq!(target.as_deref(), Some("dev"));
    assert_eq!(rest, ["read", "20"]);
}

#[test]
fn no_target_leaves_every_argument_alone() {
    let (target, rest) = take_target(&["send", "yes, retry"]).unwrap();
    assert!(target.is_none());
    assert_eq!(rest, ["send", "yes, retry"]);
}

/// The trap this guard exists for. Without it `-t read` takes the verb as the
/// target name, then runs `status` because nothing is left, so the command does
/// something, silently, and it is not what was asked.
#[test]
fn a_flag_cannot_be_swallowed_as_a_target_name() {
    assert!(take_target(&["-t", "--idle", "wait"]).is_err());
}

#[test]
fn a_target_at_the_end_with_no_name_is_an_error() {
    assert!(take_target(&["status", "-t"]).is_err());
}

#[test]
fn a_flag_value_is_read_back() {
    let got = flag_of(&["wait", "--match", "exit code"], "--match").unwrap();
    assert_eq!(got.as_deref(), Some("exit code"));
}

#[test]
fn an_absent_flag_is_none_rather_than_an_error() {
    assert!(flag_of(&["wait"], "--match").unwrap().is_none());
}

#[test]
fn a_flag_with_no_value_is_an_error() {
    assert!(flag_of(&["wait", "--match"], "--match").is_err());
}

#[test]
fn a_timeout_is_read_as_seconds() {
    assert_eq!(timeout_of(&["wait", "--timeout", "90"]).unwrap(), 90);
}

#[test]
fn no_timeout_means_the_default_ceiling() {
    assert_eq!(timeout_of(&["wait"]).unwrap(), WAIT_FOR);
    assert_eq!(WAIT_FOR, 3600);
}

/// A timeout that is not a number must not fall back to the default: waiting an
/// hour when 90 seconds was asked for looks exactly like a hung session.
#[test]
fn a_timeout_that_is_not_a_number_is_an_error() {
    assert!(timeout_of(&["wait", "--timeout", "soon"]).is_err());
}

#[test]
fn a_verb_cannot_be_swallowed_as_a_target_name() {
    for verb in ["status", "read", "pane", "send", "wait", "help"] {
        for flag in ["-t", "--target"] {
            let error = take_target(&[flag, verb]).unwrap_err();
            assert!(matches!(&error, ArgsError::VerbForTargetName(name) if name == verb));
            assert_eq!(
                error.message(),
                format!("-t needs a target name, got \"{verb}\"")
            );
        }
    }
    assert!(take_target(&["-t", "dev", "-t", "read"]).is_err());
}

/// A target may have the name of a verb where a verb is still there.
#[test]
fn a_target_named_like_a_verb_needs_a_verb_beside_it() {
    let (target, rest) = take_target(&["-t", "read", "wait"]).unwrap();
    assert_eq!(target.as_deref(), Some("read"));
    assert_eq!(rest, ["wait"]);
    let (target, rest) = take_target(&["-t", "dev"]).unwrap();
    assert_eq!(target.as_deref(), Some("dev"));
    assert!(rest.is_empty());
    let (target, rest) = take_target(&["-t", "read", "-t", "dev"]).unwrap();
    assert_eq!(target.as_deref(), Some("dev"));
    assert!(rest.is_empty());
}

#[test]
fn what_stays_is_what_no_target_takes() {
    let (target, rest) =
        take_target(&["a", "-t", "b", "c", "--target", "d", "e", "-x"]).unwrap();
    assert_eq!(target.as_deref(), Some("d"));
    assert_eq!(rest, ["a", "c", "e", "-x"]);
}

#[test]
fn the_last_target_counts() {
    let (target, rest) = take_target(&["-t", "a", "read", "--target", "b"]).unwrap();
    assert_eq!(target.as_deref(), Some("b"));
    assert_eq!(rest, ["read"]);
}

#[test]
fn an_empty_name_is_a_name() {
    let (target, rest) = take_target(&["-t", ""]).unwrap();
    assert_eq!(target.as_deref(), Some(""));
    assert!(rest.is_empty());
}

#[test]
fn a_missing_target_name_is_named() {
    let error = take_target(&["status", "-t"]).unwrap_err();
    assert!(matches!(error, ArgsError::NoTargetName));
    assert_eq!(error.message(), "-t needs a target name");
}

#[test]
fn a_flag_for_a_target_name_is_quoted() {
    let error = take_target(&["-t", "--a\"b\n"]).unwrap_err();
    assert!(matches!(error, ArgsError::FlagForTargetName(_)));
    assert_eq!(error.message(), "-t needs a target name, got \"--a\\\"b\\n\"");
}

#[test]
fn the_first_flag_counts_and_its_value_may_be_a_flag() {
    let got = flag_of(&["--match", "--match", "x"], "--match").unwrap();
    assert_eq!(got.as_deref(), Some("--match"));
}

#[test]
fn a_missing_value_names_the_flag() {
    let error = flag_of(&["wait", "--match"], "--match").unwrap_err();
    assert!(matches!(error, ArgsError::NoValue(_)));
    assert_eq!(error.message(), "--match needs a value");
}

#[test]
fn a_missing_timeout_is_named() {
    let error = timeout_of(&["--timeout"]).unwrap_err();
    assert!(matches!(error, ArgsError::NoTimeout));
    assert_eq!(error.message(), "--timeout needs a number of seconds");
}

#[test]
fn a_bad_timeout_says_why() {
    let error = timeout_of(&["--timeout", "soon"]).unwrap_err();
    assert!(matches!(error, ArgsError::BadTimeout(NumberError::InvalidDigit)));
    assert_eq!(error.message(), "--timeout wants seconds");
    let error = timeout_of(&["--timeout", ""]).unwrap_err();
    assert!(matches!(error, ArgsError::BadTimeout(NumberError::Empty)));
    let error = timeout_of(&["--timeout", "18446744073709551616"]).unwrap_err();
    assert!(matches!(error, ArgsError::BadTimeout(NumberError::TooLarge)));
}
