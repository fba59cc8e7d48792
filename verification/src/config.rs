//! Where to point, without saying so on every command line.
//!
//! The config lives outside any repository, in the user's config directory.
//! Host names are the one thing that a public tool must not carry.
use vstd::prelude::*;
use vstd::string::StringExecFns;

use crate::order::{before, lemma_before_irreflexive, lemma_before_total, lemma_before_transitive, precedes};
use crate::text::{blank, chars_of, is_blank, join_strings, joined, same, text_of, texts, word_of};
use crate::text_laws::{law_blank_is_all_white, white_between};
use crate::unicode::{quote, quoted};

verus! {

/// Where one session is.
#[derive(Debug)]
pub struct Target {
    /// An ssh destination.
    pub host: String,
    /// A tmux target, `session:window`.
    pub window: String,
}

/// What a [`Target`] holds.
pub struct TargetModel {
    pub host: Seq<char>,
    pub window: Seq<char>,
}

impl View for Target {
    type V = TargetModel;

    open spec fn view(&self) -> TargetModel {
        TargetModel { host: self.host@, window: self.window@ }
    }
}

/// The targets that the user wrote down.
#[derive(Debug)]
pub struct Config {
    /// The target used when none is named on the command line.
    pub default: Option<String>,
    /// The targets under their names, in the order of the names.
    pub targets: Vec<(String, Target)>,
}

/// What a [`Config`] holds.
pub struct ConfigModel {
    pub default: Option<Seq<char>>,
    pub targets: Seq<(Seq<char>, TargetModel)>,
}

/// What a list of named targets holds.
pub open spec fn target_models(targets: Seq<(String, Target)>) -> Seq<(Seq<char>, TargetModel)> {
    targets.map_values(|entry: (String, Target)| (entry.0@, entry.1@))
}

impl View for Config {
    type V = ConfigModel;

    open spec fn view(&self) -> ConfigModel {
        ConfigModel { default: text_of(self.default), targets: target_models(self.targets@) }
    }
}

/// Whether the names stand in their order, each once.
pub open spec fn sorted(targets: Seq<(Seq<char>, TargetModel)>) -> bool {
    forall|i: int, j: int|
        0 <= i < j < targets.len() ==> before((#[trigger] targets[i]).0, (#[trigger] targets[j]).0)
}

/// The target with a name.
pub open spec fn target_of(targets: Seq<(Seq<char>, TargetModel)>, name: Seq<char>) -> Option<
    TargetModel,
>
    decreases targets.len(),
{
    if targets.len() == 0 {
        None
    } else if targets[0].0 == name {
        Some(targets[0].1)
    } else {
        target_of(targets.skip(1), name)
    }
}

/// The names of the targets.
pub open spec fn names_of(targets: Seq<(Seq<char>, TargetModel)>) -> Seq<Seq<char>> {
    targets.map_values(|entry: (Seq<char>, TargetModel)| entry.0)
}

impl ConfigModel {
    /// Whether each name is there once, and the names stand in their order.
    pub open spec fn well_formed(self) -> bool {
        sorted(self.targets)
    }

    /// The target with a name.
    pub open spec fn target(self, name: Seq<char>) -> Option<TargetModel> {
        target_of(self.targets, name)
    }
}

impl Default for Config {
    /// A config that says nothing.
    fn default() -> (r: Config)
        ensures
            r@.default is None,
            r@.targets == Seq::<(Seq<char>, TargetModel)>::empty(),
            r@.well_formed(),
    {
        let config = Config { default: None, targets: Vec::new() };
        assert(config@.targets =~= Seq::<(Seq<char>, TargetModel)>::empty());
        config
    }
}

impl Config {
    /// The target with a name.
    pub fn get(&self, name: &str) -> (r: Option<&Target>)
        ensures
            self@.target(name@) == (match r {
                Some(target) => Some(target@),
                None => None,
            }),
    {
        let ghost all = self@.targets;
        let mut i: usize = 0;
        assert(all.skip(0) =~= all);
        while i < self.targets.len()
            invariant
                i <= self.targets@.len(),
                all == target_models(self.targets@),
                target_of(all, name@) == target_of(all.skip(i as int), name@),
            decreases self.targets.len() - i,
        {
            assert(all.skip(i as int)[0] == (
                self.targets@[i as int].0@,
                self.targets@[i as int].1@,
            ));
            if same(self.targets[i].0.as_str(), name) {
                return Some(&self.targets[i].1);
            }
            assert(all.skip(i as int).skip(1) =~= all.skip(i + 1));
            i += 1;
        }
        None
    }

    /// The names of the targets, in order.
    pub fn names(&self) -> (r: Vec<String>)
        ensures
            texts(r@) == names_of(self@.targets),
    {
        let mut out: Vec<String> = Vec::new();
        let mut i: usize = 0;
        assert(texts(out@) =~= names_of(self@.targets).take(0));
        while i < self.targets.len()
            invariant
                i <= self.targets@.len(),
                texts(out@) == names_of(self@.targets).take(i as int),
            decreases self.targets.len() - i,
        {
            let ghost was = out@;
            out.push(self.targets[i].0.clone());
            assert(texts(out@) =~= texts(was).push(self.targets@[i as int].0@));
            i += 1;
            assert(texts(out@) =~= names_of(self@.targets).take(i as int));
        }
        assert(names_of(self@.targets).take(i as int) =~= names_of(self@.targets));
        out
    }
}

proof fn lemma_target_of_add(
    a: Seq<(Seq<char>, TargetModel)>,
    b: Seq<(Seq<char>, TargetModel)>,
    name: Seq<char>,
)
    ensures
        target_of(a + b, name) == (match target_of(a, name) {
            Some(target) => Some(target),
            None => target_of(b, name),
        }),
    decreases a.len(),
{
    if a.len() == 0 {
        assert(a + b =~= b);
    } else {
        assert((a + b)[0] == a[0]);
        assert((a + b).skip(1) =~= a.skip(1) + b);
        lemma_target_of_add(a.skip(1), b, name);
    }
}

proof fn lemma_target_of_none(targets: Seq<(Seq<char>, TargetModel)>, name: Seq<char>)
    requires
        forall|i: int| 0 <= i < targets.len() ==> (#[trigger] targets[i]).0 != name,
    ensures
        target_of(targets, name) is None,
    decreases targets.len(),
{
    if targets.len() > 0 {
        assert forall|i: int| 0 <= i < targets.skip(1).len() implies (#[trigger] targets.skip(1)[i]).0
            != name by {
            assert(targets.skip(1)[i] == targets[i + 1]);
        }
        lemma_target_of_none(targets.skip(1), name);
    }
}

/// The targets with an entry put in at a place, or put there in the place of the
/// entry with its name.
spec fn put_at(
    targets: Seq<(Seq<char>, TargetModel)>,
    at: int,
    entry: (Seq<char>, TargetModel),
) -> Seq<(Seq<char>, TargetModel)> {
    if at < targets.len() && targets[at].0 == entry.0 {
        targets.take(at) + seq![entry] + targets.skip(at + 1)
    } else {
        targets.take(at) + seq![entry] + targets.skip(at)
    }
}

proof fn lemma_put(
    targets: Seq<(Seq<char>, TargetModel)>,
    at: int,
    entry: (Seq<char>, TargetModel),
)
    requires
        sorted(targets),
        0 <= at <= targets.len(),
        forall|i: int| 0 <= i < at ==> before((#[trigger] targets[i]).0, entry.0),
        at < targets.len() ==> !before(targets[at].0, entry.0),
    ensures
        sorted(put_at(targets, at, entry)),
        forall|name: Seq<char>| #[trigger]
            target_of(put_at(targets, at, entry), name) == if name == entry.0 {
                Some(entry.1)
            } else {
                target_of(targets, name)
            },
{
    let front = targets.take(at);
    let same_name = at < targets.len() && targets[at].0 == entry.0;
    let skipped = if same_name {
        at + 1
    } else {
        at
    };
    let rest = targets.skip(skipped);
    let new = put_at(targets, at, entry);
    assert(new == front + seq![entry] + rest);
    assert forall|i: int| 0 <= i < rest.len() implies before(entry.0, (#[trigger] rest[i]).0) by {
        assert(rest[i] == targets[skipped + i]);
        lemma_before_total(entry.0, targets[at].0);
        if skipped + i > at {
            assert(before(targets[at].0, targets[skipped + i].0));
            if targets[at].0 != entry.0 {
                lemma_before_transitive(entry.0, targets[at].0, targets[skipped + i].0);
            }
        }
    }
    assert forall|i: int, j: int| 0 <= i < j < new.len() implies before(
        (#[trigger] new[i]).0,
        (#[trigger] new[j]).0,
    ) by {
        if j < at {
            assert(new[i] == targets[i] && new[j] == targets[j]);
        } else if j == at {
            assert(new[i] == targets[i] && new[j] == entry);
        } else {
            let b = j - at - 1;
            assert(new[j] == rest[b]);
            assert(rest[b] == targets[skipped + b]);
            if i < at {
                assert(new[i] == targets[i]);
            } else if i == at {
                assert(new[i] == entry);
            } else {
                assert(new[i] == rest[i - at - 1]);
                assert(rest[i - at - 1] == targets[skipped + i - at - 1]);
            }
        }
    }
    assert forall|name: Seq<char>| #[trigger] target_of(new, name) == if name == entry.0 {
        Some(entry.1)
    } else {
        target_of(targets, name)
    } by {
        assert(new =~= front + (seq![entry] + rest));
        lemma_target_of_add(front, seq![entry] + rest, name);
        assert((seq![entry] + rest)[0] == entry);
        assert((seq![entry] + rest).skip(1) =~= rest);
        if name == entry.0 {
            assert forall|i: int| 0 <= i < front.len() implies (#[trigger] front[i]).0 != name by {
                assert(front[i] == targets[i]);
                lemma_before_irreflexive(name);
            }
            lemma_target_of_none(front, name);
        } else {
            assert(targets =~= front + targets.skip(at));
            lemma_target_of_add(front, targets.skip(at), name);
            if same_name {
                assert(targets.skip(at)[0] == targets[at]);
                assert(targets.skip(at).skip(1) =~= rest);
            }
        }
    }
}

impl Config {
    /// Writes a target down under a name, in the place of an earlier one with
    /// that name.
    pub fn put(&mut self, name: String, target: Target)
        requires
            old(self)@.well_formed(),
        ensures
            final(self)@.well_formed(),
            final(self)@.default == old(self)@.default,
            forall|other: Seq<char>| #[trigger]
                final(self)@.target(other) == if other == name@ {
                    Some(target@)
                } else {
                    old(self)@.target(other)
                },
    {
        let ghost all = self@.targets;
        let ghost entry = (name@, target@);
        let mut at: usize = 0;
        while at < self.targets.len() && precedes(self.targets[at].0.as_str(), name.as_str())
            invariant
                at <= self.targets@.len(),
                all == target_models(self.targets@),
                forall|i: int| 0 <= i < at ==> before((#[trigger] all[i]).0, name@),
            decreases self.targets.len() - at,
        {
            assert(all[at as int].0 == self.targets@[at as int].0@);
            at += 1;
        }
        proof {
            if at < all.len() {
                assert(all[at as int].0 == self.targets@[at as int].0@);
            }
            lemma_put(all, at as int, entry);
        }
        if at < self.targets.len() && same(self.targets[at].0.as_str(), name.as_str()) {
            self.targets.set(at, (name, target));
            assert(target_models(self.targets@) =~= put_at(all, at as int, entry));
        } else {
            self.targets.insert(at, (name, target));
            assert(target_models(self.targets@) =~= put_at(all, at as int, entry));
        }
        proof {
            assert forall|other: Seq<char>| #[trigger] self@.target(other) == if other == entry.0 {
                Some(entry.1)
            } else {
                target_of(all, other)
            } by {
                assert(self@.target(other) == target_of(put_at(all, at as int, entry), other));
            }
        }
    }
}

// ---------------------------------------------------------------------------
// What can go wrong

/// Why there is nothing to point at.
#[derive(Debug)]
pub enum ConfigError {
    /// Neither config directory nor home directory is known.
    NoHome,
    /// The file is there and cannot be read as a config.
    Unreadable { path: String, cause: String },
    /// No target has the name.
    UnknownTarget { name: String, known: Vec<String>, path: String },
    /// No target is chosen, and the environment names none.
    NothingToPointAt { path: String },
}

/// What a [`ConfigError`] holds.
pub enum ConfigErrorModel {
    NoHome,
    Unreadable { path: Seq<char>, cause: Seq<char> },
    UnknownTarget { name: Seq<char>, known: Seq<Seq<char>>, path: Seq<char> },
    NothingToPointAt { path: Seq<char> },
}

impl View for ConfigError {
    type V = ConfigErrorModel;

    open spec fn view(&self) -> ConfigErrorModel {
        match self {
            ConfigError::NoHome => ConfigErrorModel::NoHome,
            ConfigError::Unreadable { path, cause } => ConfigErrorModel::Unreadable {
                path: path@,
                cause: cause@,
            },
            ConfigError::UnknownTarget { name, known, path } => ConfigErrorModel::UnknownTarget {
                name: name@,
                known: texts(known@),
                path: path@,
            },
            ConfigError::NothingToPointAt { path } => ConfigErrorModel::NothingToPointAt {
                path: path@,
            },
        }
    }
}

impl ConfigErrorModel {
    /// What is said about the error.
    pub open spec fn message(self) -> Seq<char> {
        match self {
            ConfigErrorModel::NoHome => "HOME is not set"@,
            ConfigErrorModel::Unreadable { path, cause: _ } => "reading "@ + path,
            ConfigErrorModel::UnknownTarget { name, known, path } => if known.len() == 0 {
                "no target "@ + quoted(name) + ", and "@ + path + " has none"@
            } else {
                "no target "@ + quoted(name) + ". there is: "@ + joined(known, ", "@)
            },
            ConfigErrorModel::NothingToPointAt { path } => "nothing to point at. write "@ + path
                + ":\n\n    default = \"dev\"\n\n    [targets.dev]\n    host = \"<ssh destination>\"\n    window = \"<tmux session:window>\"\n\nor set OUTPOST_HOST and OUTPOST_WINDOW."@,
        }
    }
}

impl ConfigError {
    /// What is said about the error.
    pub fn message(&self) -> (r: String)
        ensures
            r@ == self@.message(),
    {
        match self {
            ConfigError::NoHome => "HOME is not set".to_owned(),
            ConfigError::Unreadable { path, cause: _ } => {
                let mut out = "reading ".to_owned();
                out.append(path.as_str());
                out
            },
            ConfigError::UnknownTarget { name, known, path } => {
                let mut out = "no target ".to_owned();
                out.append(quote(name.as_str()).as_str());
                if known.len() == 0 {
                    out.append(", and ");
                    out.append(path.as_str());
                    out.append(" has none");
                } else {
                    out.append(". there is: ");
                    out.append(join_strings(known, ", ").as_str());
                }
                out
            },
            ConfigError::NothingToPointAt { path } => {
                let mut out = "nothing to point at. write ".to_owned();
                out.append(path.as_str());
                out.append(
                    ":\n\n    default = \"dev\"\n\n    [targets.dev]\n    host = \"<ssh destination>\"\n    window = \"<tmux session:window>\"\n\nor set OUTPOST_HOST and OUTPOST_WINDOW.",
                );
                out
            },
        }
    }
}

// ---------------------------------------------------------------------------
// The file

/// A relative path behind a directory.
pub open spec fn path_join(base: Seq<char>, rest: Seq<char>) -> Seq<char> {
    if base.len() == 0 || base.last() == '/' {
        base + rest
    } else {
        base + "/"@ + rest
    }
}

/// A relative path behind a directory.
fn join_path(base: &str, rest: &str) -> (r: String)
    ensures
        r@ == path_join(base@, rest@),
{
    let chars = chars_of(base);
    let mut out = base.to_owned();
    if chars.len() > 0 && chars[chars.len() - 1] != '/' {
        out.append("/");
    }
    out.append(rest);
    out
}

/// `$XDG_CONFIG_HOME/outpost/config.toml`, else `~/.config/outpost/config.toml`.
pub open spec fn config_path(xdg: Option<Seq<char>>, home: Option<Seq<char>>) -> Result<
    Seq<char>,
    ConfigErrorModel,
> {
    match (xdg, home) {
        (Some(dir), home) if dir.len() > 0 => Ok(path_join(dir, "outpost/config.toml"@)),
        (_, Some(home)) => Ok(path_join(home, ".config/outpost/config.toml"@)),
        (_, None) => Err(ConfigErrorModel::NoHome),
    }
}

/// Where the config file is, from what `XDG_CONFIG_HOME` and `HOME` say.
pub fn path(xdg: Option<&str>, home: Option<&str>) -> (r: Result<String, ConfigError>)
    ensures
        config_path(word_of(xdg), word_of(home)) == (match r {
            Ok(path) => Ok(path@),
            Err(error) => Err(error@),
        }),
{
    if let Some(dir) = xdg {
        if !dir.is_empty() {
            return Ok(join_path(dir, "outpost/config.toml"));
        }
    }
    match home {
        Some(dir) => Ok(join_path(dir, ".config/outpost/config.toml")),
        None => Err(ConfigError::NoHome),
    }
}

/// The config that is in force, from what came of reading the file at `path`:
/// nothing where it could not be read, and else the config in it or what is
/// wrong with it.
///
/// A missing file is not an error: the environment alone is a complete way to
/// say where to point.
pub fn load(path: &str, file: Option<Result<Config, String>>) -> (r: Result<Config, ConfigError>)
    ensures
        match file {
            None => r matches Ok(config) && config@.default is None && config@.targets == Seq::<
                (Seq<char>, TargetModel),
            >::empty(),
            Some(Ok(config)) => r == Ok::<Config, ConfigError>(config),
            Some(Err(cause)) => r matches Err(error) && error@ == (ConfigErrorModel::Unreadable {
                path: path@,
                cause: cause@,
            }),
        },
{
    match file {
        None => Ok(Config::default()),
        Some(Ok(config)) => Ok(config),
        Some(Err(cause)) => Err(ConfigError::Unreadable { path: path.to_owned(), cause }),
    }
}

// ---------------------------------------------------------------------------
// Choosing

/// What a variable of the environment says: nothing where it is blank.
pub open spec fn said_by_environment(value: Option<Seq<char>>) -> Option<Seq<char>> {
    match value {
        Some(text) => if is_blank(text) {
            None
        } else {
            Some(text)
        },
        None => None,
    }
}

/// What a variable of the environment says.
pub fn unless_blank(value: Option<String>) -> (r: Option<String>)
    ensures
        text_of(r) == said_by_environment(text_of(value)),
{
    match value {
        Some(text) => if blank(text.as_str()) {
            None
        } else {
            Some(text)
        },
        None => None,
    }
}

/// Which host and window an invocation is for: those of the named target; else
/// those of the default one, with what the environment says in their place;
/// else what the environment says.
pub open spec fn resolved(
    config: ConfigModel,
    named: Option<Seq<char>>,
    path: Seq<char>,
    host: Option<Seq<char>>,
    window: Option<Seq<char>>,
) -> Result<(Seq<char>, Seq<char>), ConfigErrorModel> {
    let host = said_by_environment(host);
    let window = said_by_environment(window);
    match (named, config.default) {
        (Some(name), _) => match config.target(name) {
            Some(target) => Ok((target.host, target.window)),
            None => Err(
                ConfigErrorModel::UnknownTarget { name, known: names_of(config.targets), path },
            ),
        },
        (None, Some(name)) => match config.target(name) {
            Some(target) => Ok(
                (
                    match host {
                        Some(host) => host,
                        None => target.host,
                    },
                    match window {
                        Some(window) => window,
                        None => target.window,
                    },
                ),
            ),
            None => Err(
                ConfigErrorModel::UnknownTarget { name, known: names_of(config.targets), path },
            ),
        },
        (None, None) => match (host, window) {
            (Some(host), Some(window)) => Ok((host, window)),
            _ => Err(ConfigErrorModel::NothingToPointAt { path }),
        },
    }
}

/// Which host and window this invocation is for, from the config that was read
/// at `path`, the name after `-t`, and what `OUTPOST_HOST` and `OUTPOST_WINDOW`
/// say.
///
/// Order: an explicit name, then the config's `default`, then the environment.
/// The environment wins over the values of a target that was chosen as the
/// default, so a one-off can be pointed somewhere else without editing a file.
/// It cannot redirect a named target, because naming one is a deliberate act.
pub fn resolve(
    config: &Config,
    named: Option<&str>,
    path: &str,
    host: Option<String>,
    window: Option<String>,
) -> (r: Result<(String, String), ConfigError>)
    ensures
        resolved(config@, word_of(named), path@, text_of(host), text_of(window)) == (match r {
            Ok((host, window)) => Ok((host@, window@)),
            Err(error) => Err(error@),
        }),
{
    let host = unless_blank(host);
    let window = unless_blank(window);
    let chosen: Option<&str> = match named {
        Some(name) => Some(name),
        None => match &config.default {
            Some(name) => Some(name.as_str()),
            None => None,
        },
    };
    match chosen {
        Some(name) => match config.get(name) {
            Some(target) => {
                if named.is_some() {
                    return Ok((target.host.clone(), target.window.clone()));
                }
                let host = match host {
                    Some(host) => host,
                    None => target.host.clone(),
                };
                let window = match window {
                    Some(window) => window,
                    None => target.window.clone(),
                };
                Ok((host, window))
            },
            None => Err(
                ConfigError::UnknownTarget {
                    name: name.to_owned(),
                    known: config.names(),
                    path: path.to_owned(),
                },
            ),
        },
        None => match (host, window) {
            (Some(host), Some(window)) => Ok((host, window)),
            _ => Err(ConfigError::NothingToPointAt { path: path.to_owned() }),
        },
    }
}

/// A named target is where the config says it is, whatever the environment says.
pub proof fn law_environment_redirects_no_named_target(
    config: ConfigModel,
    name: Seq<char>,
    path: Seq<char>,
    host: Option<Seq<char>>,
    window: Option<Seq<char>>,
)
    ensures
        resolved(config, Some(name), path, host, window) == resolved(
            config,
            Some(name),
            path,
            None,
            None,
        ),
{
}

/// Where no target is named, whatever the environment says of host or window is
/// what counts.
pub proof fn law_environment_wins_over_the_default(
    config: ConfigModel,
    path: Seq<char>,
    host: Option<Seq<char>>,
    window: Option<Seq<char>>,
)
    ensures
        resolved(config, None, path, host, window) matches Ok((far, at)) ==> {
            &&& said_by_environment(host) matches Some(said) ==> far == said
            &&& said_by_environment(window) matches Some(said) ==> at == said
        },
{
}

/// The environment alone is a complete way to say where to point, and without it
/// and without a config there is nothing to point at.
pub proof fn law_environment_works_instead_of_a_file(
    path: Seq<char>,
    host: Option<Seq<char>>,
    window: Option<Seq<char>>,
)
    ensures
        resolved(
            (ConfigModel { default: None, targets: Seq::empty() }),
            None,
            path,
            host,
            window,
        ) == (match (said_by_environment(host), said_by_environment(window)) {
            (Some(host), Some(window)) => Ok((host, window)),
            _ => Err(ConfigErrorModel::NothingToPointAt { path }),
        }),
{
}

/// A target is the first with its name, and there is none only where no target
/// has it.
pub proof fn law_which_target_has_a_name(
    targets: Seq<(Seq<char>, TargetModel)>,
    name: Seq<char>,
)
    ensures
        match target_of(targets, name) {
            Some(target) => exists|i: int|
                0 <= i < targets.len() && #[trigger] targets[i] == (name, target) && forall|j: int|
                    0 <= j < i ==> (#[trigger] targets[j]).0 != name,
            None => forall|j: int| 0 <= j < targets.len() ==> (#[trigger] targets[j]).0 != name,
        },
    decreases targets.len(),
{
    if targets.len() > 0 {
        if targets[0].0 == name {
            assert(targets[0] == (name, targets[0].1));
        } else {
            let rest = targets.skip(1);
            law_which_target_has_a_name(rest, name);
            match target_of(rest, name) {
                Some(target) => {
                    let i = choose|i: int|
                        0 <= i < rest.len() && #[trigger] rest[i] == (name, target) && forall|
                            j: int,
                        |
                            0 <= j < i ==> (#[trigger] rest[j]).0 != name;
                    assert(targets[i + 1] == (name, target));
                    assert forall|j: int| 0 <= j < i + 1 implies (#[trigger] targets[j]).0
                        != name by {
                        if j > 0 {
                            assert(rest[j - 1] == targets[j]);
                        }
                    }
                },
                None => {
                    assert forall|j: int| 0 <= j < targets.len() implies (#[trigger] targets[j]).0
                        != name by {
                        if j > 0 {
                            assert(rest[j - 1] == targets[j]);
                        }
                    }
                },
            }
        }
    }
}

/// A config holds its default and its targets as they are written.
pub proof fn law_what_a_config_holds(config: Config)
    ensures
        config@.default == (match config.default {
            Some(name) => Some(name@),
            None => None,
        }),
        config@.targets.len() == config.targets@.len(),
        forall|i: int|
            0 <= i < config.targets@.len() ==> (#[trigger] config@.targets[i]) == (
                config.targets@[i].0@,
                TargetModel {
                    host: config.targets@[i].1.host@,
                    window: config.targets@[i].1.window@,
                },
            ),
        names_of(config@.targets).len() == config.targets@.len(),
        forall|i: int|
            0 <= i < config.targets@.len() ==> #[trigger] names_of(config@.targets)[i]
                == config.targets@[i].0@,
{
}

/// A variable says nothing where it is white space, and else all that it holds.
pub proof fn law_what_a_variable_says(text: Seq<char>)
    ensures
        said_by_environment(Some(text)) == if white_between(text, 0, text.len() as int) {
            None
        } else {
            Some(text)
        },
        said_by_environment(None) is None,
{
    law_blank_is_all_white(text);
}

/// The file is in the directory for configs where one is said, whatever the home
/// directory is, and else in the home directory; without both there is none.
pub proof fn law_where_the_file_is(dir: Seq<char>, home: Option<Seq<char>>, at: Seq<char>)
    requires
        dir.len() > 0,
    ensures
        config_path(Some(dir), home) == Ok::<Seq<char>, ConfigErrorModel>(
            if dir.last() == '/' {
                dir + "outpost/config.toml"@
            } else {
                dir + "/"@ + "outpost/config.toml"@
            },
        ),
        config_path(None, Some(at)) == Ok::<Seq<char>, ConfigErrorModel>(
            if at.len() == 0 || at.last() == '/' {
                at + ".config/outpost/config.toml"@
            } else {
                at + "/"@ + ".config/outpost/config.toml"@
            },
        ),
        config_path(Some(Seq::empty()), home) == config_path(None, home),
        config_path(None, None) == Err::<Seq<char>, ConfigErrorModel>(ConfigErrorModel::NoHome),
{
}

/// A named target is looked up, and so is the default where none is named. What
/// is found is where to point, but for what the environment says of a default;
/// what is not found is an error that names it and the targets there are.
/// Without name and default the environment alone says where to point.
pub proof fn law_where_to_point(
    config: ConfigModel,
    name: Seq<char>,
    target: TargetModel,
    path: Seq<char>,
    host: Option<Seq<char>>,
    window: Option<Seq<char>>,
)
    ensures
        config.target(name) == Some(target) ==> resolved(config, Some(name), path, host, window)
            == Ok::<(Seq<char>, Seq<char>), ConfigErrorModel>((target.host, target.window)),
        config.target(name) is None ==> resolved(config, Some(name), path, host, window) == Err::<
            (Seq<char>, Seq<char>),
            ConfigErrorModel,
        >(ConfigErrorModel::UnknownTarget { name, known: names_of(config.targets), path }),
        config.default == Some(name) && config.target(name) == Some(target) ==> resolved(
            config,
            None,
            path,
            host,
            window,
        ) == Ok::<(Seq<char>, Seq<char>), ConfigErrorModel>(
            (
                match said_by_environment(host) {
                    Some(said) => said,
                    None => target.host,
                },
                match said_by_environment(window) {
                    Some(said) => said,
                    None => target.window,
                },
            ),
        ),
        config.default == Some(name) && config.target(name) is None ==> resolved(
            config,
            None,
            path,
            host,
            window,
        ) == Err::<(Seq<char>, Seq<char>), ConfigErrorModel>(
            ConfigErrorModel::UnknownTarget { name, known: names_of(config.targets), path },
        ),
        config.default is None ==> resolved(config, None, path, host, window) == (match (
            said_by_environment(host),
            said_by_environment(window),
        ) {
            (Some(host), Some(window)) => Ok((host, window)),
            _ => Err(ConfigErrorModel::NothingToPointAt { path }),
        }),
{
}

/// Every target is found under its name where the names are in order.
pub proof fn law_every_target_is_found(config: ConfigModel, i: int)
    requires
        config.well_formed(),
        0 <= i < config.targets.len(),
    ensures
        config.target(config.targets[i].0) == Some(config.targets[i].1),
{
    let name = config.targets[i].0;
    law_which_target_has_a_name(config.targets, name);
    match target_of(config.targets, name) {
        Some(target) => {
            let k = choose|k: int|
                0 <= k < config.targets.len() && #[trigger] config.targets[k] == (name, target)
                    && forall|j: int| 0 <= j < k ==> (#[trigger] config.targets[j]).0 != name;
            lemma_before_irreflexive(name);
            if k < i {
                assert(before(config.targets[k].0, config.targets[i].0));
            }
            if i < k {
                assert(before(config.targets[i].0, config.targets[k].0));
            }
        },
        None => {
            assert(config.targets[i].0 != name);
        },
    }
}

/// What is said about an error names the file, and the target that is not there
/// with all that are.
pub proof fn law_what_is_said_about_a_config(
    path: String,
    cause: String,
    name: String,
    known: Vec<String>,
)
    ensures
        ConfigError::NoHome@.message() == "HOME is not set"@,
        (ConfigError::Unreadable { path, cause })@.message() == "reading "@ + path@,
        known@.len() == 0 ==> (ConfigError::UnknownTarget { name, known, path })@.message()
            == "no target "@ + quoted(name@) + ", and "@ + path@ + " has none"@,
        known@.len() > 0 ==> (ConfigError::UnknownTarget { name, known, path })@.message()
            == "no target "@ + quoted(name@) + ". there is: "@ + joined(texts(known@), ", "@),
        (ConfigError::NothingToPointAt { path })@.message() == "nothing to point at. write "@ + path@
            + ":\n\n    default = \"dev\"\n\n    [targets.dev]\n    host = \"<ssh destination>\"\n    window = \"<tmux session:window>\"\n\nor set OUTPOST_HOST and OUTPOST_WINDOW."@,
{
}

/// An error holds the names and the path that it is about.
pub proof fn law_what_a_config_error_holds(
    path: String,
    cause: String,
    name: String,
    known: Vec<String>,
)
    ensures
        ConfigError::NoHome@ is NoHome,
        (ConfigError::Unreadable { path, cause })@ == (ConfigErrorModel::Unreadable {
            path: path@,
            cause: cause@,
        }),
        (ConfigError::UnknownTarget { name, known, path })@ == (ConfigErrorModel::UnknownTarget {
            name: name@,
            known: texts(known@),
            path: path@,
        }),
        (ConfigError::NothingToPointAt { path })@ == (ConfigErrorModel::NothingToPointAt {
            path: path@,
        }),
{
}

} // verus!
