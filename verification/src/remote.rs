//! Reaching a session that is not on this machine.
//!
//! What is left when nothing else reaches a session is the keyboard: type into
//! the composer the way a person would, over ssh and tmux. This module says what
//! to run on the far side and what its answers mean; running it is the caller's.
use vstd::prelude::*;
use vstd::string::StringExecFns;
use vstd::utf8::{decode_utf8, valid_utf8};

use crate::config::{
    resolve, resolved, said_by_environment, unless_blank, Config, ConfigError,
};
use crate::number::{decimal, signed_decimal, write_number, write_signed};
use crate::text::{
    blank, chars_of, is_blank, is_space, lines, lines_of, parted, split_once, text_of, texts, trim,
    trimmed, word_of,
};
use crate::text_laws::{law_blank_is_all_white, law_parted_at, law_parting, white_between};
use crate::unicode::{from_utf8_lossy, lossy_text, quote, quoted};

verus! {

/// Where a session is, and how to address the window it lives in.
#[derive(Debug)]
pub struct Remote {
    /// An ssh destination. A `Host` block in `~/.ssh/config`, never a bare
    /// address: the port and the login live there.
    pub host: String,
    /// A tmux target, `session:window`. By name, not by index: window numbers
    /// get rearranged, and a name survives that.
    pub target: String,
}

/// What a [`Remote`] holds.
pub struct RemoteModel {
    pub host: Seq<char>,
    pub target: Seq<char>,
}

impl View for Remote {
    type V = RemoteModel;

    open spec fn view(&self) -> RemoteModel {
        RemoteModel { host: self.host@, target: self.target@ }
    }
}

/// A shell snippet for the far side, and what it reads.
#[derive(Debug)]
pub struct Request {
    pub script: String,
    /// What goes to its standard input.
    pub stdin: Option<String>,
}

/// What a [`Request`] holds.
pub struct RequestModel {
    pub script: Seq<char>,
    pub stdin: Option<Seq<char>>,
}

impl View for Request {
    type V = RequestModel;

    open spec fn view(&self) -> RequestModel {
        RequestModel { script: self.script@, stdin: text_of(self.stdin) }
    }
}

/// The program that runs the sessions. It keeps its files in a directory of the
/// home directory that is named after it.
#[derive(Debug)]
pub struct Agent {
    name: String,
    title: String,
}

/// What an [`Agent`] holds.
pub struct AgentModel {
    /// Its name, as the directory spells it.
    pub name: Seq<char>,
    /// Its name, as a sentence spells it.
    pub title: Seq<char>,
}

impl View for Agent {
    type V = AgentModel;

    closed spec fn view(&self) -> AgentModel {
        AgentModel { name: self.name@, title: self.title@ }
    }
}

/// What a session says about itself, in the file that it keeps about its
/// process.
#[derive(Debug)]
pub struct Info {
    pub session_id: String,
    pub pid: u64,
    /// `idle`, `shell`, `busy`. A `shell` is a command that runs, which is not
    /// idle.
    pub status: String,
    pub version: String,
    pub name: Option<String>,
    pub updated_at: u64,
    /// Present only while Remote Control is bridged.
    pub bridge: Option<String>,
}

// ---------------------------------------------------------------------------
// What can go wrong

/// Why the far side did not do what was asked.
#[derive(Debug)]
pub enum RemoteError {
    /// `OUTPOST_HOST` says nothing.
    NoHost,
    /// `OUTPOST_WINDOW` says nothing.
    NoWindow,
    /// `OUTPOST_AGENT` says nothing.
    NoAgent,
    /// A text that is not the name of an agent.
    NotAnAgentName(String),
    /// A text that is not a session id.
    NotASessionId(String),
    /// The host was not reached.
    Unreachable { host: String, stderr: String },
    /// The host was reached, and the snippet failed.
    Failed { host: String, code: i32, stderr: String },
    /// ssh was killed.
    Killed { host: String },
    /// No session of an agent is registered on the far side.
    NoSession { agent: String },
}

/// What a [`RemoteError`] holds.
pub enum RemoteErrorModel {
    NoHost,
    NoWindow,
    NoAgent,
    NotAnAgentName(Seq<char>),
    NotASessionId(Seq<char>),
    Unreachable { host: Seq<char>, stderr: Seq<char> },
    Failed { host: Seq<char>, code: i32, stderr: Seq<char> },
    Killed { host: Seq<char> },
    NoSession { agent: Seq<char> },
}

impl View for RemoteError {
    type V = RemoteErrorModel;

    open spec fn view(&self) -> RemoteErrorModel {
        match self {
            RemoteError::NoHost => RemoteErrorModel::NoHost,
            RemoteError::NoWindow => RemoteErrorModel::NoWindow,
            RemoteError::NoAgent => RemoteErrorModel::NoAgent,
            RemoteError::NotAnAgentName(name) => RemoteErrorModel::NotAnAgentName(name@),
            RemoteError::NotASessionId(id) => RemoteErrorModel::NotASessionId(id@),
            RemoteError::Unreachable { host, stderr } => RemoteErrorModel::Unreachable {
                host: host@,
                stderr: stderr@,
            },
            RemoteError::Failed { host, code, stderr } => RemoteErrorModel::Failed {
                host: host@,
                code: *code,
                stderr: stderr@,
            },
            RemoteError::Killed { host } => RemoteErrorModel::Killed { host: host@ },
            RemoteError::NoSession { agent } => RemoteErrorModel::NoSession { agent: agent@ },
        }
    }
}

impl RemoteErrorModel {
    /// What is said about the error.
    pub open spec fn message(self) -> Seq<char> {
        match self {
            RemoteErrorModel::NoHost => "set OUTPOST_HOST to an ssh destination"@,
            RemoteErrorModel::NoWindow => "set OUTPOST_WINDOW to a tmux session:window"@,
            RemoteErrorModel::NoAgent =>
                "set OUTPOST_AGENT to the name of the program that runs the sessions"@,
            RemoteErrorModel::NotAnAgentName(name) => quoted(name) + " is not the name of a program"@,
            RemoteErrorModel::NotASessionId(id) => quoted(id) + " is not a session id"@,
            RemoteErrorModel::Unreachable { host, stderr } => "could not reach "@ + host + ": "@
                + stderr,
            RemoteErrorModel::Failed { host, code, stderr } => host + " answered "@
                + signed_decimal(code as int) + ": "@ + stderr,
            RemoteErrorModel::Killed { host } => "ssh to "@ + host + " was killed by a signal"@,
            RemoteErrorModel::NoSession { agent } =>
                "no session registered on the far side — is "@ + agent + " running?"@,
        }
    }
}

impl RemoteError {
    /// What is said about the error.
    pub fn message(&self) -> (r: String)
        ensures
            r@ == self@.message(),
    {
        match self {
            RemoteError::NoHost => "set OUTPOST_HOST to an ssh destination".to_owned(),
            RemoteError::NoWindow => "set OUTPOST_WINDOW to a tmux session:window".to_owned(),
            RemoteError::NoAgent =>
                "set OUTPOST_AGENT to the name of the program that runs the sessions".to_owned(),
            RemoteError::NotAnAgentName(name) => {
                let mut out = quote(name.as_str());
                out.append(" is not the name of a program");
                out
            },
            RemoteError::NotASessionId(id) => {
                let mut out = quote(id.as_str());
                out.append(" is not a session id");
                out
            },
            RemoteError::Unreachable { host, stderr } => {
                let mut out = "could not reach ".to_owned();
                out.append(host.as_str());
                out.append(": ");
                out.append(stderr.as_str());
                out
            },
            RemoteError::Failed { host, code, stderr } => {
                let mut out = host.clone();
                out.append(" answered ");
                out.append(write_signed(*code).as_str());
                out.append(": ");
                out.append(stderr.as_str());
                out
            },
            RemoteError::Killed { host } => {
                let mut out = "ssh to ".to_owned();
                out.append(host.as_str());
                out.append(" was killed by a signal");
                out
            },
            RemoteError::NoSession { agent } => {
                let mut out = "no session registered on the far side — is ".to_owned();
                out.append(agent.as_str());
                out.append(" running?");
                out
            },
        }
    }
}

// ---------------------------------------------------------------------------
// Where it is

/// The session that two variables of the environment point at.
pub open spec fn environment_remote(host: Option<Seq<char>>, window: Option<Seq<char>>) -> Result<
    RemoteModel,
    RemoteErrorModel,
> {
    match (said_by_environment(host), said_by_environment(window)) {
        (Some(host), Some(target)) => Ok(RemoteModel { host, target }),
        (None, _) => Err(RemoteErrorModel::NoHost),
        (Some(_), None) => Err(RemoteErrorModel::NoWindow),
    }
}

impl Remote {
    /// From what `OUTPOST_HOST` and `OUTPOST_WINDOW` say.
    pub fn from_env(host: Option<String>, window: Option<String>) -> (r: Result<
        Remote,
        RemoteError,
    >)
        ensures
            environment_remote(text_of(host), text_of(window)) == (match r {
                Ok(remote) => Ok(remote@),
                Err(error) => Err(error@),
            }),
    {
        let host = match unless_blank(host) {
            Some(host) => host,
            None => {
                return Err(RemoteError::NoHost);
            },
        };
        match unless_blank(window) {
            Some(target) => Ok(Remote { host, target }),
            None => Err(RemoteError::NoWindow),
        }
    }

    /// From the config, the name after `-t` and the environment.
    pub fn resolve(
        config: &Config,
        named: Option<&str>,
        path: &str,
        host: Option<String>,
        window: Option<String>,
    ) -> (r: Result<Remote, ConfigError>)
        ensures
            resolved(config@, word_of(named), path@, text_of(host), text_of(window)) == (match r {
                Ok(remote) => Ok((remote@.host, remote@.target)),
                Err(error) => Err(error@),
            }),
    {
        match resolve(config, named, path, host, window) {
            Ok((host, target)) => Ok(Remote { host, target }),
            Err(error) => Err(error),
        }
    }
}

// ---------------------------------------------------------------------------
// Whose sessions

/// Whether a text can be the name of an agent: letters, digits, dashes and
/// underscores, and so nothing that a shell would read as anything else.
pub open spec fn is_agent_name(name: Seq<char>) -> bool {
    name.len() > 0 && forall|i: int| 0 <= i < name.len() ==> is_name_char(#[trigger] name[i])
}

/// Whether a character can stand in the name of an agent.
pub open spec fn is_name_char(c: char) -> bool {
    'a' <= c <= 'z' || 'A' <= c <= 'Z' || '0' <= c <= '9' || c == '-' || c == '_'
}

/// Whether a text can be the name of an agent.
pub fn agent_name(name: &str) -> (r: bool)
    ensures
        r == is_agent_name(name@),
{
    let chars = chars_of(name);
    let mut i: usize = 0;
    while i < chars.len()
        invariant
            i <= chars@.len(),
            chars@ == name@,
            forall|j: int| 0 <= j < i ==> is_name_char(#[trigger] name@[j]),
        decreases chars.len() - i,
    {
        let c: char = chars[i];
        if !(('a' <= c && c <= 'z') || ('A' <= c && c <= 'Z') || ('0' <= c && c <= '9') || c == '-'
            || c == '_') {
            assert(!is_name_char(name@[i as int]));
            return false;
        }
        i += 1;
    }
    chars.len() > 0
}

/// The agent that two variables of the environment describe. The spelling for a
/// sentence is the name itself where nothing else is said.
pub open spec fn environment_agent(name: Option<Seq<char>>, title: Option<Seq<char>>) -> Result<
    AgentModel,
    RemoteErrorModel,
> {
    match said_by_environment(name) {
        None => Err(RemoteErrorModel::NoAgent),
        Some(name) => if is_agent_name(name) {
            Ok(
                AgentModel {
                    name,
                    title: match said_by_environment(title) {
                        Some(title) => title,
                        None => name,
                    },
                },
            )
        } else {
            Err(RemoteErrorModel::NotAnAgentName(name))
        },
    }
}

impl Agent {
    /// An agent has a name that is one.
    #[verifier::type_invariant]
    spec fn well_named(self) -> bool {
        is_agent_name(self.name@)
    }

    /// From what `OUTPOST_AGENT` and `OUTPOST_AGENT_TITLE` say.
    pub fn from_env(name: Option<String>, title: Option<String>) -> (r: Result<Agent, RemoteError>)
        ensures
            environment_agent(text_of(name), text_of(title)) == (match r {
                Ok(agent) => Ok(agent@),
                Err(error) => Err(error@),
            }),
    {
        let name = match unless_blank(name) {
            Some(name) => name,
            None => {
                return Err(RemoteError::NoAgent);
            },
        };
        if !agent_name(name.as_str()) {
            return Err(RemoteError::NotAnAgentName(name));
        }
        let title = match unless_blank(title) {
            Some(title) => title,
            None => name.clone(),
        };
        Ok(Agent { name, title })
    }

    /// Its name, as the directory spells it.
    pub fn name(&self) -> (r: &str)
        ensures
            r@ == self@.name,
            is_agent_name(r@),
    {
        proof {
            use_type_invariant(self);
        }
        self.name.as_str()
    }

    /// Its name, as a sentence spells it.
    pub fn title(&self) -> (r: &str)
        ensures
            r@ == self@.title,
    {
        self.title.as_str()
    }
}

// ---------------------------------------------------------------------------
// What to run

/// How many bytes of a transcript's tail are read. A live one reaches
/// gigabytes; this covers hundreds of exchanges.
pub const TAIL: u64 = 8388608;

/// Whether a text can be a session id: hexadecimal digits and dashes, and so
/// nothing that a shell would read as anything else.
pub open spec fn is_session_id(id: Seq<char>) -> bool {
    forall|i: int| 0 <= i < id.len() ==> is_id_char(#[trigger] id[i])
}

/// Whether a character can stand in a session id.
pub open spec fn is_id_char(c: char) -> bool {
    '0' <= c <= '9' || 'a' <= c <= 'f' || 'A' <= c <= 'F' || c == '-'
}

/// Whether a text can be a session id.
pub fn session_id(id: &str) -> (r: bool)
    ensures
        r == is_session_id(id@),
{
    let chars = chars_of(id);
    let mut i: usize = 0;
    while i < chars.len()
        invariant
            i <= chars@.len(),
            chars@ == id@,
            forall|j: int| 0 <= j < i ==> is_id_char(#[trigger] id@[j]),
        decreases chars.len() - i,
    {
        let c: char = chars[i];
        if !(('0' <= c && c <= '9') || ('a' <= c && c <= 'f') || ('A' <= c && c <= 'F') || c
            == '-') {
            assert(!is_id_char(id@[i as int]));
            return false;
        }
        i += 1;
    }
    true
}

/// The snippet that shows a window and some lines of its scrollback.
pub open spec fn pane_script(target: Seq<char>, back: nat) -> Seq<char> {
    "tmux capture-pane -p -S -"@ + decimal(back) + " -t "@ + target + " 2>&1"@
}

/// The snippet that shows the tail of a session's transcript. It looks for the
/// file in every project directory: how a working directory is written into
/// such a directory's name is undocumented, and a guess would read as an empty
/// conversation.
pub open spec fn transcript_script(agent: Seq<char>, id: Seq<char>) -> Seq<char> {
    "for d in ~/."@ + agent + "/projects/*/; do\n                 f=\"${d}"@ + id
        + ".jsonl\"\n                 if [ -f \"$f\" ]; then tail -c "@ + decimal(TAIL as nat)
        + " \"$f\"; exit 0; fi\n               done\n               echo \"no transcript for "@
        + id + "\" >&2; exit 3"@
}

/// The snippet that types what it reads into a window. The text is quoted once,
/// on the far side, where nothing in it can change how the snippet parses.
pub open spec fn type_script(target: Seq<char>) -> Seq<char> {
    "tmux send-keys -t "@ + target + " -l -- \"$(cat)\""@
}

/// What types a text into a window.
pub open spec fn type_request(target: Seq<char>, text: Seq<char>) -> RequestModel {
    RequestModel { script: type_script(target), stdin: Some(text) }
}

/// The snippet that presses Enter in a window.
pub open spec fn enter_script(target: Seq<char>) -> Seq<char> {
    "tmux send-keys -t "@ + target + " Enter"@
}

/// The snippet that shows what every session says about itself, each on a line
/// of its own. The files lack a final newline, so two of them would run
/// together without the `echo`.
pub open spec fn info_script(agent: Seq<char>) -> Seq<char> {
    "for f in ~/."@ + agent
        + "/sessions/*.json; do cat \"$f\"; echo; done 2>/dev/null || true"@
}

/// The snippet that lists the windows and what runs in each.
pub open spec fn windows_script() -> Seq<char> {
    "tmux list-windows -a -F '#{session_name}:#{window_name} #{pane_current_command}' 2>&1"@
}

impl Remote {
    /// The arguments of `ssh` that run a request on the far side.
    pub fn ssh_args(&self, request: &Request) -> (r: Vec<String>)
        ensures
            texts(r@) == seq!["-o"@, "BatchMode=yes"@, self@.host, request@.script],
    {
        let mut out: Vec<String> = Vec::new();
        out.push("-o".to_owned());
        out.push("BatchMode=yes".to_owned());
        out.push(self.host.clone());
        out.push(request.script.clone());
        assert(texts(out@) =~= seq!["-o"@, "BatchMode=yes"@, self@.host, request@.script]);
        out
    }

    /// Asks for the window's visible content plus `back` lines of scrollback.
    pub fn pane(&self, back: usize) -> (r: Request)
        ensures
            r@ == (RequestModel { script: pane_script(self@.target, back as nat), stdin: None }),
    {
        let mut script = "tmux capture-pane -p -S -".to_owned();
        script.append(write_number(back as u64).as_str());
        script.append(" -t ");
        script.append(self.target.as_str());
        script.append(" 2>&1");
        Request { script, stdin: None }
    }

    /// Asks for what the sessions of an agent say about themselves.
    pub fn info(&self, agent: &Agent) -> (r: Request)
        ensures
            r@ == (RequestModel { script: info_script(agent@.name), stdin: None }),
            is_agent_name(agent@.name),
    {
        let mut script = "for f in ~/.".to_owned();
        script.append(agent.name());
        script.append("/sessions/*.json; do cat \"$f\"; echo; done 2>/dev/null || true");
        Request { script, stdin: None }
    }

    /// Asks for the tail of a session's transcript.
    pub fn transcript(&self, agent: &Agent, id: &str) -> (r: Result<Request, RemoteError>)
        ensures
            match r {
                Ok(request) => is_session_id(id@) && is_agent_name(agent@.name) && request@ == (RequestModel {
                    script: transcript_script(agent@.name, id@),
                    stdin: None,
                }),
                Err(error) => !is_session_id(id@) && error@ == RemoteErrorModel::NotASessionId(id@),
            },
    {
        if !session_id(id) {
            return Err(RemoteError::NotASessionId(id.to_owned()));
        }
        let mut script = "for d in ~/.".to_owned();
        script.append(agent.name());
        script.append("/projects/*/; do\n                 f=\"${d}");
        script.append(id);
        script.append(".jsonl\"\n                 if [ -f \"$f\" ]; then tail -c ");
        script.append(write_number(TAIL).as_str());
        script.append(
            " \"$f\"; exit 0; fi\n               done\n               echo \"no transcript for ",
        );
        script.append(id);
        script.append("\" >&2; exit 3");
        Ok(Request { script, stdin: None })
    }

    /// Puts text in the composer without pressing Enter.
    pub fn type_text(&self, text: &str) -> (r: Request)
        ensures
            r@ == type_request(self@.target, text@),
    {
        let mut script = "tmux send-keys -t ".to_owned();
        script.append(self.target.as_str());
        script.append(" -l -- \"$(cat)\"");
        Request { script, stdin: Some(text.to_owned()) }
    }

    /// Presses Enter in the window.
    pub fn press_enter(&self) -> (r: Request)
        ensures
            r@ == (RequestModel { script: enter_script(self@.target), stdin: None }),
    {
        let mut script = "tmux send-keys -t ".to_owned();
        script.append(self.target.as_str());
        script.append(" Enter");
        Request { script, stdin: None }
    }

    /// Asks which windows exist, and what is running in each.
    pub fn windows(&self) -> (r: Request)
        ensures
            r@ == (RequestModel { script: windows_script(), stdin: None }),
    {
        Request {
            script:
                "tmux list-windows -a -F '#{session_name}:#{window_name} #{pane_current_command}' 2>&1".to_owned(),
            stdin: None,
        }
    }
}

// ---------------------------------------------------------------------------
// What the answers mean

/// What came of a request: ssh reports a snippet that failed with its own code,
/// a connection that never got there with 255, and none when it was killed.
pub open spec fn judged(
    host: Seq<char>,
    code: Option<i32>,
    stdout: Seq<char>,
    stderr: Seq<char>,
) -> Result<Seq<char>, RemoteErrorModel> {
    match code {
        Some(0) => Ok(stdout),
        Some(255) => Err(RemoteErrorModel::Unreachable { host, stderr: trimmed(stderr) }),
        Some(code) => Err(RemoteErrorModel::Failed { host, code, stderr: trimmed(stderr) }),
        None => Err(RemoteErrorModel::Killed { host }),
    }
}

impl Remote {
    /// What came of a request, from the exit code of ssh and what it printed.
    pub fn judge(&self, code: Option<i32>, stdout: String, stderr: &str) -> (r: Result<
        String,
        RemoteError,
    >)
        ensures
            judged(self@.host, code, stdout@, stderr@) == (match r {
                Ok(answer) => Ok(answer@),
                Err(error) => Err(error@),
            }),
    {
        let host = self.host.clone();
        match code {
            Some(0) => Ok(stdout),
            Some(255) => Err(RemoteError::Unreachable { host, stderr: trim(stderr) }),
            Some(code) => Err(RemoteError::Failed { host, code, stderr: trim(stderr) }),
            None => Err(RemoteError::Killed { host }),
        }
    }

    /// What came of a request, from the exit code of ssh and the bytes that it
    /// printed. An answer in UTF-8 is handed on as it is.
    pub fn answer(&self, code: Option<i32>, stdout: &[u8], stderr: &[u8]) -> (r: Result<
        String,
        RemoteError,
    >)
        ensures
            judged(self@.host, code, lossy_text(stdout@), lossy_text(stderr@)) == (match r {
                Ok(answer) => Ok(answer@),
                Err(error) => Err(error@),
            }),
            code == Some(0i32) && valid_utf8(stdout@) ==> (r matches Ok(answer) && answer@
                == decode_utf8(stdout@)),
    {
        self.judge(code, from_utf8_lossy(stdout), from_utf8_lossy(stderr).as_str())
    }
}

/// The texts that are more than white space.
pub open spec fn not_blank(lines: Seq<Seq<char>>) -> Seq<Seq<char>>
    decreases lines.len(),
{
    if lines.len() == 0 {
        Seq::empty()
    } else if is_blank(lines.last()) {
        not_blank(lines.drop_last())
    } else {
        not_blank(lines.drop_last()).push(lines.last())
    }
}

/// The lines of an answer that can say something about a session.
pub fn info_lines(answer: &str) -> (r: Vec<String>)
    ensures
        texts(r@) == not_blank(lines_of(answer@)),
{
    let all = lines(answer);
    let mut out: Vec<String> = Vec::new();
    let mut i: usize = 0;
    assert(texts(out@) =~= not_blank(texts(all@).take(0)));
    while i < all.len()
        invariant
            i <= all@.len(),
            texts(out@) == not_blank(texts(all@).take(i as int)),
        decreases all.len() - i,
    {
        assert(texts(all@).take(i + 1).drop_last() =~= texts(all@).take(i as int));
        if !blank(all[i].as_str()) {
            let ghost was = out@;
            out.push(all[i].clone());
            assert(texts(out@) =~= texts(was).push(all@[i as int]@));
        }
        i += 1;
    }
    assert(texts(all@).take(i as int) =~= texts(all@));
    out
}

/// What is there of a list with gaps, in order.
pub open spec fn without_gaps(infos: Seq<Option<Info>>) -> Seq<Info>
    decreases infos.len(),
{
    if infos.len() == 0 {
        Seq::empty()
    } else {
        match infos.last() {
            Some(info) => without_gaps(infos.drop_last()).push(info),
            None => without_gaps(infos.drop_last()),
        }
    }
}

/// What the lines of an answer say, without those that say nothing that can be
/// read.
pub fn readable(infos: Vec<Option<Info>>) -> (r: Vec<Info>)
    ensures
        r@ == without_gaps(infos@),
{
    let ghost all = infos@;
    let mut infos = infos;
    let mut out: Vec<Info> = Vec::new();
    assert(without_gaps(infos@) + out@ =~= without_gaps(all));
    while infos.len() > 0
        invariant
            without_gaps(infos@) + out@ == without_gaps(all),
        decreases infos.len(),
    {
        let ghost was = without_gaps(infos@) + out@;
        if let Some(entry) = infos.pop() {
            if let Some(info) = entry {
                out.insert(0, info);
            }
        }
        assert(without_gaps(infos@) + out@ =~= was);
    }
    assert(without_gaps(infos@) + out@ =~= out@);
    out
}

/// Whether the information at a place is the newest: none was updated later, and
/// none before it in the list as late.
pub open spec fn is_newest(infos: Seq<Info>, at: int) -> bool {
    &&& 0 <= at < infos.len()
    &&& forall|i: int| 0 <= i < infos.len() ==> (#[trigger] infos[i]).updated_at <= infos[at].updated_at
    &&& forall|i: int| 0 <= i < at ==> (#[trigger] infos[i]).updated_at < infos[at].updated_at
}

/// What the session says about itself. The file of a session is named by its
/// process, so a restart leaves a stale one behind, and the newest wins rather
/// than the only one.
pub fn newest(infos: Vec<Info>, agent: &Agent) -> (r: Result<Info, RemoteError>)
    ensures
        match r {
            Ok(info) => exists|at: int| is_newest(infos@, at) && #[trigger] infos@[at] == info,
            Err(error) => infos@.len() == 0 && error@ == (RemoteErrorModel::NoSession {
                agent: agent@.title,
            }),
        },
{
    let ghost all = infos@;
    let mut infos = infos;
    let mut best: Option<Info> = None;
    let ghost mut at: int = 0;
    while infos.len() > 0
        invariant
            infos@.len() <= all.len(),
            infos@ == all.take(infos@.len() as int),
            best is None ==> infos@.len() == all.len(),
            best matches Some(info) ==> {
                &&& infos@.len() <= at < all.len()
                &&& all[at] == info
                &&& forall|i: int|
                    infos@.len() <= i < all.len() ==> (#[trigger] all[i]).updated_at
                        <= info.updated_at
                &&& forall|i: int|
                    infos@.len() <= i < at ==> (#[trigger] all[i]).updated_at < info.updated_at
            },
        decreases infos.len(),
    {
        let ghost left = infos@.len();
        if let Some(info) = infos.pop() {
            assert(all[left - 1] == info);
            assert(infos@ =~= all.take(left - 1));
            let better = match &best {
                Some(old) => info.updated_at >= old.updated_at,
                None => true,
            };
            if better {
                best = Some(info);
                proof {
                    at = left - 1;
                }
            }
        }
    }
    match best {
        Some(info) => {
            assert(is_newest(all, at));
            Ok(info)
        },
        None => Err(RemoteError::NoSession { agent: agent.title().to_owned() }),
    }
}

/// The windows in a list, each a name and the command that runs in it. A line
/// without a space is no window.
pub open spec fn windows_of(lines: Seq<Seq<char>>) -> Seq<(Seq<char>, Seq<char>)>
    decreases lines.len(),
{
    if lines.len() == 0 {
        Seq::empty()
    } else {
        match parted(lines.last(), " "@) {
            Some(window) => windows_of(lines.drop_last()).push(window),
            None => windows_of(lines.drop_last()),
        }
    }
}

/// What a list of windows holds.
pub open spec fn window_models(windows: Seq<(String, String)>) -> Seq<(Seq<char>, Seq<char>)> {
    windows.map_values(|window: (String, String)| (window.0@, window.1@))
}

/// The windows in an answer, and what is running in each.
pub fn window_list(answer: &str) -> (r: Vec<(String, String)>)
    ensures
        window_models(r@) == windows_of(lines_of(answer@)),
{
    let all = lines(answer);
    let mut out: Vec<(String, String)> = Vec::new();
    let mut i: usize = 0;
    assert(window_models(out@) =~= windows_of(texts(all@).take(0)));
    while i < all.len()
        invariant
            i <= all@.len(),
            window_models(out@) == windows_of(texts(all@).take(i as int)),
        decreases all.len() - i,
    {
        assert(texts(all@).take(i + 1).drop_last() =~= texts(all@).take(i as int));
        if let Some((name, command)) = split_once(all[i].as_str(), " ") {
            let ghost was = out@;
            out.push((name.to_owned(), command.to_owned()));
            assert(window_models(out@) =~= window_models(was).push((name@, command@)));
        }
        i += 1;
    }
    assert(texts(all@).take(i as int) =~= texts(all@));
    out
}

/// Whatever is typed, the same snippet is run, so no text can change how it
/// parses; and what is typed is handed over unchanged.
pub proof fn law_typed_text_is_no_script(target: Seq<char>, a: Seq<char>, b: Seq<char>)
    ensures
        type_request(target, a).script == type_request(target, b).script,
        type_request(target, a).stdin == Some(a),
{
}

/// There is one newest.
pub proof fn law_one_is_newest(infos: Seq<Info>, a: int, b: int)
    requires
        is_newest(infos, a),
        is_newest(infos, b),
    ensures
        a == b,
{
    assert(infos[a].updated_at == infos[b].updated_at);
}

/// Success is what exit code 0 says, and nothing else is.
pub proof fn law_only_zero_is_an_answer(
    host: Seq<char>,
    code: Option<i32>,
    stdout: Seq<char>,
    stderr: Seq<char>,
)
    ensures
        judged(host, code, stdout, stderr) is Ok <==> code == Some(0i32),
        judged(host, code, stdout, stderr) matches Err(RemoteErrorModel::Unreachable { .. }) <==> code
            == Some(255i32),
{
}

/// What is printed is the answer where the code is 0; 255 is a host that was not
/// reached, any other code one that was and refused, and no code that ssh was
/// killed. What was printed about it is said without the white space around it.
pub proof fn law_what_an_exit_code_means(
    host: Seq<char>,
    code: i32,
    stdout: Seq<char>,
    stderr: Seq<char>,
)
    ensures
        judged(host, Some(0i32), stdout, stderr) == Ok::<Seq<char>, RemoteErrorModel>(stdout),
        judged(host, Some(255i32), stdout, stderr) == Err::<Seq<char>, RemoteErrorModel>(
            RemoteErrorModel::Unreachable { host, stderr: trimmed(stderr) },
        ),
        code != 0 && code != 255 ==> judged(host, Some(code), stdout, stderr) == Err::<
            Seq<char>,
            RemoteErrorModel,
        >(RemoteErrorModel::Failed { host, code, stderr: trimmed(stderr) }),
        judged(host, None, stdout, stderr) == Err::<Seq<char>, RemoteErrorModel>(
            RemoteErrorModel::Killed { host },
        ),
{
}

/// Host and window come from the environment, and the first that it does not say
/// is what is wrong.
pub proof fn law_what_the_environment_points_at(host: Seq<char>, window: Seq<char>)
    ensures
        !is_blank(host) && !is_blank(window) ==> environment_remote(Some(host), Some(window))
            == Ok::<RemoteModel, RemoteErrorModel>(RemoteModel { host, target: window }),
        is_blank(host) ==> environment_remote(Some(host), Some(window)) == Err::<
            RemoteModel,
            RemoteErrorModel,
        >(RemoteErrorModel::NoHost),
        environment_remote(None, Some(window)) == Err::<RemoteModel, RemoteErrorModel>(
            RemoteErrorModel::NoHost,
        ),
        !is_blank(host) && is_blank(window) ==> environment_remote(Some(host), Some(window)) == Err::<
            RemoteModel,
            RemoteErrorModel,
        >(RemoteErrorModel::NoWindow),
        !is_blank(host) ==> environment_remote(Some(host), None) == Err::<
            RemoteModel,
            RemoteErrorModel,
        >(RemoteErrorModel::NoWindow),
        environment_remote(None, None) == Err::<RemoteModel, RemoteErrorModel>(
            RemoteErrorModel::NoHost,
        ),
{
}

/// An agent has the name that the environment says, where that can be one, and
/// its title is what is said of it or the name.
pub proof fn law_what_agent_the_environment_describes(name: Seq<char>, title: Seq<char>)
    ensures
        is_agent_name(name) && !is_blank(title) ==> environment_agent(Some(name), Some(title))
            == Ok::<AgentModel, RemoteErrorModel>(AgentModel { name, title }),
        is_agent_name(name) ==> environment_agent(Some(name), None) == Ok::<
            AgentModel,
            RemoteErrorModel,
        >(AgentModel { name, title: name }),
        is_blank(name) ==> environment_agent(Some(name), Some(title)) == Err::<
            AgentModel,
            RemoteErrorModel,
        >(RemoteErrorModel::NoAgent),
        environment_agent(None, Some(title)) == Err::<AgentModel, RemoteErrorModel>(
            RemoteErrorModel::NoAgent,
        ),
        !is_blank(name) && !is_agent_name(name) ==> environment_agent(Some(name), Some(title))
            == Err::<AgentModel, RemoteErrorModel>(RemoteErrorModel::NotAnAgentName(name)),
{
    law_blank_is_all_white(name);
    if is_agent_name(name) {
        assert(is_name_char(name[0]));
        assert(!is_space(name[0]));
    }
}

/// A session id is hexadecimal digits and dashes, and an agent's name letters,
/// digits, dashes and underscores: no blank, quote, slash, dollar sign or other
/// character that a shell reads is in either.
pub proof fn law_what_goes_into_a_snippet(text: Seq<char>)
    ensures
        is_session_id(text) <==> forall|i: int|
            0 <= i < text.len() ==> ('0' <= #[trigger] text[i] <= '9' || 'a' <= text[i] <= 'f' || 'A'
                <= text[i] <= 'F' || text[i] == '-'),
        is_agent_name(text) <==> text.len() > 0 && forall|i: int|
            0 <= i < text.len() ==> ('0' <= #[trigger] text[i] <= '9' || 'a' <= text[i] <= 'z' || 'A'
                <= text[i] <= 'Z' || text[i] == '-' || text[i] == '_'),
{
    if is_session_id(text) {
        assert forall|i: int| 0 <= i < text.len() implies ('0' <= #[trigger] text[i] <= '9' || 'a'
            <= text[i] <= 'f' || 'A' <= text[i] <= 'F' || text[i] == '-') by {
            assert(is_id_char(text[i]));
        }
    }
    if is_agent_name(text) {
        assert forall|i: int| 0 <= i < text.len() implies ('0' <= #[trigger] text[i] <= '9' || 'a'
            <= text[i] <= 'z' || 'A' <= text[i] <= 'Z' || text[i] == '-' || text[i] == '_') by {
            assert(is_name_char(text[i]));
        }
    }
}

/// Whatever the window, the number of lines, the agent and the session are, each
/// stands at its place in the same snippet.
pub proof fn law_what_is_run(target: Seq<char>, back: nat, agent: Seq<char>, id: Seq<char>)
    ensures
        pane_script(target, back) == "tmux capture-pane -p -S -"@ + decimal(back) + " -t "@ + target
            + " 2>&1"@,
        type_script(target) == "tmux send-keys -t "@ + target + " -l -- \"$(cat)\""@,
        enter_script(target) == "tmux send-keys -t "@ + target + " Enter"@,
        info_script(agent) == "for f in ~/."@ + agent
            + "/sessions/*.json; do cat \"$f\"; echo; done 2>/dev/null || true"@,
        transcript_script(agent, id) == "for d in ~/."@ + agent
            + "/projects/*/; do\n                 f=\"${d}"@ + id
            + ".jsonl\"\n                 if [ -f \"$f\" ]; then tail -c "@ + decimal(8388608)
            + " \"$f\"; exit 0; fi\n               done\n               echo \"no transcript for "@
            + id + "\" >&2; exit 3"@,
{
}

/// The lines that say something are those with more than white space in them,
/// all of them and in their order.
pub proof fn law_lines_that_say_something(lines: Seq<Seq<char>>)
    ensures
        not_blank(lines) == lines.filter(
            |line: Seq<char>| !white_between(line, 0, line.len() as int),
        ),
    decreases lines.len(),
{
    reveal(Seq::filter);
    if lines.len() > 0 {
        law_lines_that_say_something(lines.drop_last());
        law_blank_is_all_white(lines.last());
    }
}

/// What is there of a list with gaps is all that is there, in its order.
pub proof fn law_gaps_are_left_out(infos: Seq<Option<Info>>)
    ensures
        without_gaps(infos) == infos.filter_map(|info: Option<Info>| info),
    decreases infos.len(),
{
    if infos.len() > 0 {
        law_gaps_are_left_out(infos.drop_last());
        if let Some(info) = infos.last() {
            let earlier = without_gaps(infos.drop_last());
            assert(earlier.push(info) =~= earlier + seq![info]);
        }
    }
}

/// The newest was updated no earlier than any other, and later than any before
/// it in the list.
pub proof fn law_nothing_is_newer(infos: Seq<Info>, at: int, i: int)
    requires
        is_newest(infos, at),
        0 <= i < infos.len(),
    ensures
        0 <= at < infos.len(),
        infos[i].updated_at <= infos[at].updated_at,
        i < at ==> infos[i].updated_at < infos[at].updated_at,
{
}

/// Each line with a blank in it is a window, in the order of the lines: its name
/// is what stands before the first blank, and the command all behind it. A line
/// without a blank is none.
pub proof fn law_which_lines_are_windows(
    a: Seq<Seq<char>>,
    b: Seq<Seq<char>>,
    name: Seq<char>,
    command: Seq<char>,
)
    requires
        !name.contains(' '),
    ensures
        windows_of(a + b) == windows_of(a) + windows_of(b),
        windows_of(seq![name + seq![' '] + command]) == seq![(name, command)],
        windows_of(seq![name]) == Seq::<(Seq<char>, Seq<char>)>::empty(),
    decreases b.len(),
{
    if b.len() == 0 {
        assert(a + b =~= a);
        assert(windows_of(a) + windows_of(b) =~= windows_of(a));
    } else {
        law_which_lines_are_windows(a, b.drop_last(), name, command);
        assert((a + b).drop_last() =~= a + b.drop_last());
        assert(windows_of(a + b) =~= windows_of(a) + windows_of(b));
    }
    reveal_strlit(" ");
    let mark = " "@;
    assert(mark =~= seq![' ']);
    let line = name + mark + command;
    assert forall|i: int| 0 <= i < name.len() implies #[trigger] line.subrange(i, i + mark.len())
        != mark by {
        assert(line.subrange(i, i + 1)[0] == name[i]);
        assert(name.contains(name[i]));
    }
    law_parted_at(name, mark, command);
    law_parting(name, mark);
    if parted(name, mark) is Some {
        let (front, back) = parted(name, mark)->0;
        assert(name[front.len() as int] == ' ');
        assert(name.contains(' '));
    }
    let nothing = Seq::<Seq<char>>::empty();
    let one = seq![name + seq![' '] + command];
    assert(one.drop_last() =~= nothing);
    assert(windows_of(nothing) =~= Seq::<(Seq<char>, Seq<char>)>::empty());
    assert(windows_of(one) =~= seq![(name, command)]);
    let other = seq![name];
    assert(other.drop_last() =~= nothing);
}

/// What is said about an error names the host, the code and what was printed, or
/// the text that is wrong.
pub proof fn law_what_is_said_about_a_remote(text: String, host: String, code: i32, stderr: String)
    ensures
        RemoteError::NoHost@.message() == "set OUTPOST_HOST to an ssh destination"@,
        RemoteError::NoWindow@.message() == "set OUTPOST_WINDOW to a tmux session:window"@,
        RemoteError::NotASessionId(text)@.message() == quoted(text@) + " is not a session id"@,
        (RemoteError::Unreachable { host, stderr })@.message() == "could not reach "@ + host@ + ": "@
            + stderr@,
        (RemoteError::Failed { host, code, stderr })@.message() == host@ + " answered "@
            + signed_decimal(code as int) + ": "@ + stderr@,
        (RemoteError::Killed { host })@.message() == "ssh to "@ + host@ + " was killed by a signal"@,
        (RemoteError::NoSession { agent: text })@.message()
            == "no session registered on the far side — is "@ + text@ + " running?"@,
{
}

/// A remote holds its host and its window, and a request its snippet and what
/// the snippet reads.
pub proof fn law_what_a_request_holds(remote: Remote, script: String, stdin: String)
    ensures
        remote@.host == remote.host@,
        remote@.target == remote.target@,
        (Request { script, stdin: None })@ == (RequestModel { script: script@, stdin: None }),
        (Request { script, stdin: Some(stdin) })@ == (RequestModel {
            script: script@,
            stdin: Some(stdin@),
        }),
{
}

} // verus!
