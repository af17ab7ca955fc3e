//! Tunnel definitions, and where they are kept.

use crate::text::{is_blank, trimmed, views};
use vstd::prelude::*;
use vstd::string::*;

verus! {

/// The definition of one tunnel.
#[derive(Debug, PartialEq)]
pub struct TunnelConfig {
    pub name: String,
    /// Left socat address, e.g. `TCP-LISTEN:8080,fork,reuseaddr`
    pub source: String,
    /// Right socat address, e.g. `TCP:example.com:80`
    pub destination: String,
    /// Extra socat command-line options, e.g. `-d -d -T 30`
    pub options: String,
    pub autostart: bool,
}

/// The definition of one tunnel, with its texts as sequences.
pub struct ConfigView {
    pub name: Seq<char>,
    pub source: Seq<char>,
    pub destination: Seq<char>,
    pub options: Seq<char>,
    pub autostart: bool,
}

impl View for TunnelConfig {
    type V = ConfigView;

    open spec fn view(&self) -> ConfigView {
        ConfigView {
            name: self.name@,
            source: self.source@,
            destination: self.destination@,
            options: self.options@,
            autostart: self.autostart,
        }
    }
}

impl Clone for TunnelConfig {
    fn clone(&self) -> (r: TunnelConfig)
        ensures
            r@ == self@,
    {
        TunnelConfig {
            name: self.name.clone(),
            source: self.source.clone(),
            destination: self.destination.clone(),
            options: self.options.clone(),
            autostart: self.autostart,
        }
    }
}

impl Default for TunnelConfig {
    fn default() -> (r: TunnelConfig)
        ensures
            r@.name == Seq::<char>::empty(),
            r@.source == Seq::<char>::empty(),
            r@.destination == Seq::<char>::empty(),
            r@.options == Seq::<char>::empty(),
            !r@.autostart,
    {
        TunnelConfig {
            name: String::new(),
            source: String::new(),
            destination: String::new(),
            options: String::new(),
            autostart: false,
        }
    }
}

impl TunnelConfig {
    /// Whether two definitions are the same, field by field.
    pub fn same_as(&self, o: &TunnelConfig) -> (b: bool)
        ensures
            b == (self@ == o@),
    {
        self.name == o.name && self.source == o.source && self.destination == o.destination
            && self.options == o.options && self.autostart == o.autostart
    }
}

/// Whether a configuration file with this text defines no tunnel at all.
pub fn is_empty_file(data: &str) -> (b: bool)
    ensures
        b == (trimmed(data@).len() == 0),
{
    is_blank(data)
}

/// Where a path begins.
#[derive(Clone, Copy, Debug, PartialEq, Eq, Structural)]
pub enum PathBase {
    /// Nowhere: the segments are the whole path.
    Nowhere,
    /// The user's configuration directory.
    ConfigDir,
}

/// A path: where it begins, and the segments to join to that in turn.
#[derive(Debug)]
pub struct ConfigPath {
    pub base: PathBase,
    pub segments: Vec<String>,
}

/// The segments under a configuration directory.
pub open spec fn default_segments() -> Seq<Seq<char>> {
    seq!["socatui"@, "tunnels.json"@]
}

/// The path of the configuration file. Precedence: command line argument,
/// environment variable (unless empty), then the configuration directory, or
/// the current directory where the user has none.
pub open spec fn path_of(
    arg: Option<Seq<char>>,
    env: Option<Seq<char>>,
    has_config_dir: bool,
) -> (PathBase, Seq<Seq<char>>) {
    match (arg, env) {
        (Some(a), _) => (PathBase::Nowhere, seq![a]),
        (None, Some(e)) if e.len() > 0 => (PathBase::Nowhere, seq![e]),
        _ => if has_config_dir {
            (PathBase::ConfigDir, default_segments())
        } else {
            (PathBase::Nowhere, seq!["."@] + default_segments())
        },
    }
}

/// An optional text as a sequence.
pub open spec fn option_view(s: Option<String>) -> Option<Seq<char>> {
    match s {
        Some(t) => Some(t@),
        None => None,
    }
}

/// The path of the configuration file, from the command line argument, the
/// environment variable `SOCATUI_CONFIG`, and whether the user has a
/// configuration directory.
pub fn resolve_path(arg: Option<String>, env: Option<String>, has_config_dir: bool) -> (r:
    ConfigPath)
    ensures
        (r.base, views(r.segments@)) == path_of(option_view(arg), option_view(env), has_config_dir),
{
    let mut segments: Vec<String> = Vec::new();
    if let Some(a) = arg {
        segments.push(a);
        assert(views(segments@) =~= seq![a@]);
        return ConfigPath { base: PathBase::Nowhere, segments };
    }
    if let Some(e) = env {
        if !e.as_str().is_empty() {
            segments.push(e);
            assert(views(segments@) =~= seq![e@]);
            return ConfigPath { base: PathBase::Nowhere, segments };
        }
    }
    if !has_config_dir {
        segments.push(".".to_owned());
    }
    segments.push("socatui".to_owned());
    segments.push("tunnels.json".to_owned());
    assert(views(segments@) =~= (if has_config_dir {
        default_segments()
    } else {
        seq!["."@] + default_segments()
    }));
    ConfigPath {
        base: if has_config_dir {
            PathBase::ConfigDir
        } else {
            PathBase::Nowhere
        },
        segments,
    }
}

/// The path of the configuration file is the argument where there is one; otherwise
/// the environment variable, unless it is empty; otherwise a file of a fixed name under
/// the configuration directory, or under the current directory.
pub proof fn arguments_come_before_the_rest(
    arg: Seq<char>,
    env: Option<Seq<char>>,
    has_config_dir: bool,
)
    ensures
        path_of(Some(arg), env, has_config_dir) == (PathBase::Nowhere, seq![arg]),
        env is Some && env->0.len() > 0 ==> path_of(None, env, has_config_dir) == (
            PathBase::Nowhere,
            seq![env->0],
        ),
        env is None || env->0.len() == 0 ==> path_of(None, env, true) == (
            PathBase::ConfigDir,
            seq!["socatui"@, "tunnels.json"@],
        ),
        env is None || env->0.len() == 0 ==> path_of(None, env, false) == (
            PathBase::Nowhere,
            seq!["."@, "socatui"@, "tunnels.json"@],
        ),
{
    assert(seq!["."@] + default_segments() =~= seq!["."@, "socatui"@, "tunnels.json"@]);
}

} // verus!
