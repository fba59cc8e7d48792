# outpost

Talk to a session running on another machine.

A session on a remote host is hard to reach on purpose. What is left is the
keyboard: `outpost` types into the session's composer over ssh and tmux, the way
a person would, and reads the conversation back out of the session's own
transcript.

    outpost status            what the session says it is doing, and its windows
    outpost read [n]          the last n exchanges, both sides
    outpost pane [n]          the window itself, with n lines of scrollback
    outpost send <text>       type it and press Enter; `-` reads stdin
    outpost wait              block until something happens, then say what

`wait` takes the thing to wait for: `--match <text>` for a reply about a
particular thing, `--idle` for the session to stop working, and `--task` for a
background job to end, which exits non-zero on a job that was killed rather than
finished.

Point it at a session with `~/.config/outpost/config.toml`:

    default = "dev"

    [targets.dev]
    host = "<ssh destination>"      # a `Host` block in ~/.ssh/config
    window = "<tmux session:window>"

Then `-t <name>` picks a target and the `default` is used when nothing does.
`OUTPOST_HOST` and `OUTPOST_WINDOW` work instead of a file, and win over the
default target's values, but redirect no target that was named. `OUTPOST_AGENT`
names the program that runs the sessions, as the directory in which it keeps its
files spells it, and `OUTPOST_AGENT_TITLE` spells it for a sentence where that
differs. `pane`, which reads none of those files, works without it.

## Layout

`src/` is the library, verified with Verus: every executable function has a
contract, and the functions named `law_...` state what holds across them. What it
believes without proof is small, and stands in two files: `json.rs` (the JSON
parser of `serde_json`) and `unicode.rs` (lower case, quoting and lossy decoding
of the standard library).

- `text`, `number`, `order`, `unicode`: characters, decimal numbers, the order of
  texts
- `json`, `chronology`, `transcript`, `transcript_laws`: rows of a transcript,
  who said what and in which order, how tasks ended
- `args`, `cli`, `config`, `remote`: the command line, what is printed, where to
  point, what is run there and what the answers mean
- `send`, `send_laws`, `watch`: a message on its way, and waiting: what is asked
  when, what the answers mean, and when it is given up

`app/` is the program: ssh, files, the environment and the clock. It takes the
human side of a transcript from the `reader` crate of
[memview](https://github.com/xinutec/memview), which owns the rules about what
counts as a human turn. `tests/` holds the tests.
