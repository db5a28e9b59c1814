//! What the Docker data layer decides around its calls to the engine: the
//! transport for an endpoint, the swarm state shown, log lines, and which
//! verbs, inspect kinds and views an operation accepts.

use vstd::prelude::*;
use vstd::string::*;
use vstd::view::View as ViewOf;
use crate::docker::View;
use crate::text::{chars_of, matches_at, occurs_at, lit, cat, cat3, string_of};

verus! {

/// `p` starts `s`.
pub open spec fn starts(s: Seq<char>, p: Seq<char>) -> bool {
    occurs_at(s, p, 0)
}

/// Whether `s` starts with `p`.
pub fn starts_with(s: &str, p: &str) -> (b: bool)
    ensures
        b == starts(s@, p@),
{
    matches_at(&chars_of(s), &chars_of(p), 0)
}

/// How the engine at an endpoint is reached.
#[derive(Clone, Copy, Debug, PartialEq, Eq, Structural)]
pub enum Transport {
    /// `ssh://…`, through the system `ssh`.
    Ssh,
    /// `unix://…` or `npipe://…` sockets.
    Socket,
    /// No endpoint: the environment's defaults.
    Defaults,
    /// Anything else, over HTTP.
    Http,
}

/// The transport for endpoint `host`.
pub open spec fn transport_spec(host: Seq<char>) -> Transport {
    if starts(host, "ssh://"@) {
        Transport::Ssh
    } else if starts(host, "unix://"@) || starts(host, "npipe://"@) {
        Transport::Socket
    } else if host.len() == 0 {
        Transport::Defaults
    } else {
        Transport::Http
    }
}

/// The transport for endpoint `host`.
pub fn transport_of(host: &str) -> (t: Transport)
    ensures
        t == transport_spec(host@),
{
    if starts_with(host, "ssh://") {
        Transport::Ssh
    } else if starts_with(host, "unix://") || starts_with(host, "npipe://") {
        Transport::Socket
    } else if host.unicode_len() == 0 {
        Transport::Defaults
    } else {
        Transport::Http
    }
}

/// The swarm state shown for an engine: the node's local state when the
/// engine reports one (`inactive` when it reports none or an empty one),
/// `unreachable` when asking failed.
pub open spec fn swarm_text_spec(r: Result<Option<Seq<char>>, Seq<char>>) -> Seq<char> {
    match r {
        Ok(Some(s)) => if s.len() > 0 {
            s
        } else {
            "inactive"@
        },
        Ok(None) => "inactive"@,
        Err(_) => "unreachable"@,
    }
}

/// The swarm state shown for an engine, from what asking it returned.
pub fn swarm_text(r: Result<Option<String>, String>) -> (out: String)
    ensures
        out@ == swarm_text_spec(match r {
            Ok(Some(s)) => Ok(Some(s@)),
            Ok(None) => Ok(None),
            Err(e) => Err(e@),
        }),
{
    match r {
        Ok(Some(s)) => if s.as_str().unicode_len() > 0 {
            s
        } else {
            lit("inactive")
        },
        Ok(None) => lit("inactive"),
        Err(_) => lit("unreachable"),
    }
}

/// Number of line-break characters (`\n`, `\r`) at the end of `s`.
pub open spec fn trailing_breaks(s: Seq<char>) -> nat
    decreases s.len(),
{
    if s.len() > 0 && (s.last() == '\n' || s.last() == '\r') {
        1 + trailing_breaks(s.drop_last())
    } else {
        0
    }
}

/// A log chunk as shown: without its trailing line breaks; a stream error
/// as a warning.
pub open spec fn log_text_spec(r: Result<Seq<char>, Seq<char>>) -> Seq<char> {
    match r {
        Ok(s) => s.take(s.len() - trailing_breaks(s)),
        Err(e) => "⚠ "@ + e,
    }
}

/// A log chunk as shown, from what the stream yielded.
pub fn log_text(r: Result<String, String>) -> (out: String)
    ensures
        out@ == log_text_spec(match r {
            Ok(s) => Ok(s@),
            Err(e) => Err(e@),
        }),
{
    match r {
        Ok(s) => {
            let cs = chars_of(s.as_str());
            let mut n = cs.len();
            assert(cs@.take(n as int) == cs@);
            while n > 0 && (cs[n - 1] == '\n' || cs[n - 1] == '\r')
                invariant
                    n <= cs@.len(),
                    cs@ == s@,
                    trailing_breaks(cs@) == trailing_breaks(cs@.take(n as int)) + (cs@.len() - n),
                decreases n,
            {
                assert(cs@.take(n as int).drop_last() == cs@.take(n - 1));
                n -= 1;
            }
            assert(trailing_breaks(cs@.take(n as int)) == 0);
            let mut out: Vec<char> = Vec::new();
            let mut i: usize = 0;
            while i < n
                invariant
                    i <= n,
                    n <= cs@.len(),
                    out@ == cs@.take(i as int),
                decreases n - i,
            {
                out.push(cs[i]);
                assert(cs@.take(i + 1) == cs@.take(i as int).push(cs@[i as int]));
                i += 1;
            }
            string_of(&out)
        },
        Err(e) => cat("⚠ ", e.as_str()),
    }
}

/// The lifecycle operations on one container.
#[derive(Clone, Copy, Debug, PartialEq, Eq, Structural)]
pub enum ContainerVerb {
    Start,
    Stop,
    Restart,
    Pause,
    Unpause,
    /// Forced removal.
    Remove,
}

/// The operation a lifecycle verb names, or the error for an unknown one.
pub open spec fn container_verb_spec(verb: Seq<char>) -> Result<ContainerVerb, Seq<char>> {
    if verb == "start"@ {
        Ok(ContainerVerb::Start)
    } else if verb == "stop"@ {
        Ok(ContainerVerb::Stop)
    } else if verb == "restart"@ {
        Ok(ContainerVerb::Restart)
    } else if verb == "pause"@ {
        Ok(ContainerVerb::Pause)
    } else if verb == "unpause"@ {
        Ok(ContainerVerb::Unpause)
    } else if verb == "rm"@ {
        Ok(ContainerVerb::Remove)
    } else {
        Err("unknown action '"@ + verb + "'"@)
    }
}

/// The operation a lifecycle verb names.
pub fn container_verb(verb: &str) -> (r: Result<ContainerVerb, String>)
    ensures
        match (r, container_verb_spec(verb@)) {
            (Ok(a), Ok(b)) => a == b,
            (Err(a), Err(b)) => a@ == b,
            _ => false,
        },
{
    let v = lit(verb);
    if v == lit("start") {
        Ok(ContainerVerb::Start)
    } else if v == lit("stop") {
        Ok(ContainerVerb::Stop)
    } else if v == lit("restart") {
        Ok(ContainerVerb::Restart)
    } else if v == lit("pause") {
        Ok(ContainerVerb::Pause)
    } else if v == lit("unpause") {
        Ok(ContainerVerb::Unpause)
    } else if v == lit("rm") {
        Ok(ContainerVerb::Remove)
    } else {
        Err(cat3("unknown action '", verb, "'"))
    }
}

/// The view whose resources an inspect kind names, or the error for an
/// unknown kind.
pub open spec fn inspect_kind_spec(kind: Seq<char>) -> Result<View, Seq<char>> {
    if kind == "container"@ {
        Ok(View::Containers)
    } else if kind == "image"@ {
        Ok(View::Images)
    } else if kind == "service"@ {
        Ok(View::Services)
    } else if kind == "node"@ {
        Ok(View::Nodes)
    } else if kind == "volume"@ {
        Ok(View::Volumes)
    } else if kind == "network"@ {
        Ok(View::Networks)
    } else {
        Err("cannot inspect '"@ + kind + "'"@)
    }
}

/// The view whose resources an inspect kind names.
pub fn inspect_kind(kind: &str) -> (r: Result<View, String>)
    ensures
        match (r, inspect_kind_spec(kind@)) {
            (Ok(a), Ok(b)) => a == b,
            (Err(a), Err(b)) => a@ == b,
            _ => false,
        },
{
    let k = lit(kind);
    if k == lit("container") {
        Ok(View::Containers)
    } else if k == lit("image") {
        Ok(View::Images)
    } else if k == lit("service") {
        Ok(View::Services)
    } else if k == lit("node") {
        Ok(View::Nodes)
    } else if k == lit("volume") {
        Ok(View::Volumes)
    } else if k == lit("network") {
        Ok(View::Networks)
    } else {
        Err(cat3("cannot inspect '", kind, "'"))
    }
}

/// Whether rows of `view` can be deleted (containers, images, volumes and
/// networks, each forced); the error otherwise.
pub fn delete_check(view: View) -> (r: Result<(), String>)
    ensures
        r is Ok <==> (view == View::Containers || view == View::Images || view == View::Volumes || view
            == View::Networks),
        r matches Err(e) ==> e@ == "cannot delete from this view"@,
{
    match view {
        View::Containers | View::Images | View::Volumes | View::Networks => Ok(()),
        _ => Err(lit("cannot delete from this view")),
    }
}

/// Whether the Containers listing for the fetch argument `arg` includes
/// stopped containers (`docker ps -a`): only for `all`; running ones only
/// otherwise.
pub fn lists_all(arg: &str) -> (b: bool)
    ensures
        b == (arg@ == "all"@),
{
    lit(arg) == lit("all")
}

/// Whether a batch run with verb `verb` deletes its targets (`delete`);
/// any other verb is a lifecycle action run on each target.
pub fn batch_deletes(verb: &str) -> (b: bool)
    ensures
        b == (verb@ == "delete"@),
{
    lit(verb) == lit("delete")
}

} // verus!
