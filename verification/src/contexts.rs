//! Docker context discovery: choosing the current context, listing the
//! contexts found in the store, resolving one to its endpoint, and the
//! commands that reach an engine host over ssh.

use vstd::prelude::*;
use vstd::string::*;
use crate::text::{
    chars_of, string_of, trim_chars, trimmed, matches_at, occurs_at, lex_lt, lex_compare, slice_chars, opt_view,
    views_of, lit, push_lit, push_str, lemma_lex_transitive, lemma_lex_trichotomy,
};

verus! {

/// A Docker context: its name, description and endpoint host string.
#[derive(Clone, Debug)]
pub struct DockerContext {
    pub name: String,
    pub description: String,
    pub host: String,
}

impl View for DockerContext {
    type V = (Seq<char>, Seq<char>, Seq<char>);

    open spec fn view(&self) -> (Seq<char>, Seq<char>, Seq<char>) {
        (self.name@, self.description@, self.host@)
    }
}

/// `j` is where a stable insertion puts a context named `x` into `s`: after
/// every context whose name does not order after `x`'s, before the first
/// that does.
pub open spec fn is_insert_pos(s: Seq<(Seq<char>, Seq<char>, Seq<char>)>, x: Seq<char>, j: int) -> bool {
    &&& 0 <= j <= s.len()
    &&& forall|k: int| 0 <= k < j ==> !lex_lt(x, #[trigger] s[k].0)
    &&& j == s.len() || lex_lt(x, s[j].0)
}

/// Stable sort of contexts by name (`sort_by` on the name's `Ord`).
pub open spec fn sorted_by_name(s: Seq<(Seq<char>, Seq<char>, Seq<char>)>) -> Seq<(Seq<char>, Seq<char>, Seq<char>)>
    decreases s.len(),
{
    if s.len() == 0 {
        s
    } else {
        let r = sorted_by_name(s.drop_last());
        let j = choose|j: int| is_insert_pos(r, s.last().0, j);
        r.insert(j, s.last())
    }
}

/// Contexts that have a non-empty name, in order.
pub open spec fn named_only(s: Seq<(Seq<char>, Seq<char>, Seq<char>)>) -> Seq<(Seq<char>, Seq<char>, Seq<char>)>
    decreases s.len(),
{
    if s.len() == 0 {
        s
    } else if s.last().0.len() == 0 {
        named_only(s.drop_last())
    } else {
        named_only(s.drop_last()).push(s.last())
    }
}

/// The endpoint of the built-in default context when `DOCKER_HOST` is unset.
pub open spec fn default_socket() -> Seq<char> {
    "unix:///var/run/docker.sock"@
}

/// The built-in "default" context, whose host is `$DOCKER_HOST` when set.
pub open spec fn default_context_spec(docker_host: Option<Seq<char>>) -> (Seq<char>, Seq<char>, Seq<char>) {
    (
        "default"@,
        "Current DOCKER_HOST based configuration"@,
        match docker_host {
            Some(h) => h,
            None => default_socket(),
        },
    )
}

proof fn lemma_insert_pos_unique(s: Seq<(Seq<char>, Seq<char>, Seq<char>)>, x: Seq<char>, j1: int, j2: int)
    requires
        is_insert_pos(s, x, j1),
        is_insert_pos(s, x, j2),
    ensures
        j1 == j2,
{
    if j1 < j2 {
        assert(!lex_lt(x, s[j1].0));
    } else if j2 < j1 {
        assert(!lex_lt(x, s[j2].0));
    }
}

/// The views of a sequence of contexts.
pub open spec fn ctx_views(v: Seq<DockerContext>) -> Seq<(Seq<char>, Seq<char>, Seq<char>)> {
    v.map_values(|c: DockerContext| c@)
}

/// Whether `key` orders strictly before `name`.
fn orders_before(key: &[char], name: &String) -> (b: bool)
    ensures
        b == lex_lt(key@, name@),
{
    let other = chars_of(name.as_str());
    lex_compare(key, &other) < 0
}

/// Stable insertion of `c` into `out`, which is kept sorted by name.
fn insert_by_name(out: &mut Vec<DockerContext>, c: DockerContext)
    ensures
        exists|j: int|
            is_insert_pos(ctx_views(old(out)@), c.name@, j) && ctx_views(final(out)@) == ctx_views(
                old(out)@,
            ).insert(j, c@),
{
    let key = chars_of(c.name.as_str());
    let mut j: usize = 0;
    while j < out.len() && !orders_before(&key, &out[j].name)
        invariant
            j <= out@.len(),
            key@ == c.name@,
            forall|k: int| 0 <= k < j ==> !lex_lt(c.name@, #[trigger] ctx_views(out@)[k].0),
        decreases out.len() - j,
    {
        j += 1;
    }
    let ghost before = out@;
    assert(is_insert_pos(ctx_views(before), c.name@, j as int));
    out.insert(j, c);
    assert(ctx_views(out@) =~= ctx_views(before).insert(j as int, c@));
}

/// Contexts sorted by name, stably.
fn sort_by_name(cs: Vec<DockerContext>) -> (out: Vec<DockerContext>)
    ensures
        ctx_views(out@) == sorted_by_name(ctx_views(cs@)),
{
    let mut out: Vec<DockerContext> = Vec::new();
    let mut rest = cs;
    let ghost all = cs@;
    while rest.len() > 0
        invariant
            rest@.len() <= all.len(),
            rest@ == all.skip(all.len() - rest@.len()),
            ctx_views(out@) == sorted_by_name(ctx_views(all.take(all.len() - rest@.len()))),
        decreases rest.len(),
    {
        let ghost n = all.len() - rest@.len();
        let c = rest.remove(0);
        assert(c == all[n]);
        assert(rest@ =~= all.skip(n + 1));
        let ghost prev = ctx_views(out@);
        insert_by_name(&mut out, c);
        proof {
            let t = ctx_views(all.take(n + 1));
            assert(t.drop_last() == ctx_views(all.take(n)));
            assert(t.last() == c@);
            let j = choose|j: int| is_insert_pos(prev, c.name@, j) && ctx_views(out@) == prev.insert(j, c@);
            let j2 = choose|j: int| is_insert_pos(sorted_by_name(t.drop_last()), t.last().0, j);
            lemma_insert_pos_unique(prev, c.name@, j, j2);
        }
    }
    assert(all.take(all.len() as int) == all);
    out
}

/// All contexts: the built-in default (host from `DOCKER_HOST`, else the
/// local socket) followed by the stored contexts that have a name, sorted by
/// name.
pub fn load_contexts(docker_host: Option<String>, stored: Vec<DockerContext>) -> (out: Vec<DockerContext>)
    ensures
        ctx_views(out@) == sorted_by_name(
            seq![default_context_spec(opt_view(docker_host))]
                + named_only(ctx_views(stored@)),
        ),
{
    let ghost dh = opt_view(docker_host);
    let host = match docker_host {
        Some(h) => h,
        None => String::from_str("unix:///var/run/docker.sock"),
    };
    let mut all: Vec<DockerContext> = Vec::new();
    all.push(DockerContext {
        name: String::from_str("default"),
        description: String::from_str("Current DOCKER_HOST based configuration"),
        host,
    });
    assert(ctx_views(all@) =~= seq![default_context_spec(dh)]);
    let mut rest = stored;
    let ghost st = stored@;
    while rest.len() > 0
        invariant
            rest@.len() <= st.len(),
            rest@ == st.skip(st.len() - rest@.len()),
            ctx_views(all@) == seq![default_context_spec(dh)] + named_only(
                ctx_views(st.take(st.len() - rest@.len())),
            ),
        decreases rest.len(),
    {
        let ghost n = st.len() - rest@.len();
        let c = rest.remove(0);
        assert(c == st[n]);
        assert(rest@ =~= st.skip(n + 1));
        let ghost t = ctx_views(st.take(n + 1));
        assert(t.drop_last() == ctx_views(st.take(n)));
        assert(t.last() == c@);
        if c.name.as_str().unicode_len() > 0 {
            let ghost before = all@;
            all.push(c);
            assert(ctx_views(all@) =~= ctx_views(before).push(c@));
        }
    }
    assert(st.take(st.len() as int) == st);
    sort_by_name(all)
}

/// No context's name orders before the name of one listed earlier.
pub open spec fn names_in_order(s: Seq<(Seq<char>, Seq<char>, Seq<char>)>) -> bool {
    forall|i: int, j: int| 0 <= i < j < s.len() ==> !lex_lt(#[trigger] s[j].0, #[trigger] s[i].0)
}

proof fn lemma_insert_pos_exists(s: Seq<(Seq<char>, Seq<char>, Seq<char>)>, x: Seq<char>)
    ensures
        exists|j: int| is_insert_pos(s, x, j),
    decreases s.len(),
{
    if s.len() == 0 {
        assert(is_insert_pos(s, x, 0));
    } else {
        let p = s.drop_last();
        lemma_insert_pos_exists(p, x);
        let j = choose|j: int| is_insert_pos(p, x, j);
        if j < p.len() {
            assert(is_insert_pos(s, x, j)) by {
                assert forall|k: int| 0 <= k < j implies !lex_lt(x, #[trigger] s[k].0) by {
                    assert(s[k] == p[k]);
                }
                assert(s[j] == p[j]);
            }
        } else if lex_lt(x, s[s.len() - 1].0) {
            assert(is_insert_pos(s, x, s.len() - 1)) by {
                assert forall|k: int| 0 <= k < s.len() - 1 implies !lex_lt(x, #[trigger] s[k].0) by {
                    assert(s[k] == p[k]);
                }
            }
        } else {
            assert(is_insert_pos(s, x, s.len() as int)) by {
                assert forall|k: int| 0 <= k < s.len() implies !lex_lt(x, #[trigger] s[k].0) by {
                    if k < s.len() - 1 {
                        assert(s[k] == p[k]);
                    }
                }
            }
        }
    }
}

proof fn lemma_sorted_by_name(s: Seq<(Seq<char>, Seq<char>, Seq<char>)>)
    ensures
        sorted_by_name(s).to_multiset() == s.to_multiset(),
        names_in_order(sorted_by_name(s)),
    decreases s.len(),
{
    broadcast use vstd::seq_lib::group_to_multiset_ensures;

    if s.len() > 0 {
        let p = s.drop_last();
        let x = s.last();
        lemma_sorted_by_name(p);
        let r = sorted_by_name(p);
        lemma_insert_pos_exists(r, x.0);
        let j = choose|j: int| is_insert_pos(r, x.0, j);
        let out = r.insert(j, x);
        assert(sorted_by_name(s) == out);
        assert(out.remove(j) =~= r);
        assert(out[j] == x);
        assert(out.contains(x));
        assert(s =~= p.push(x));
        assert(out.to_multiset() =~= r.to_multiset().insert(x));
        assert forall|a: int, b: int| 0 <= a < b < out.len() implies !lex_lt(
            #[trigger] out[b].0,
            #[trigger] out[a].0,
        ) by {
            if b < j {
                assert(out[a] == r[a] && out[b] == r[b]);
            } else if b == j {
                assert(out[a] == r[a]);
            } else if a < j {
                assert(out[a] == r[a] && out[b] == r[b - 1]);
            } else if a == j {
                let y = r[b - 1].0;
                assert(out[b] == r[b - 1]);
                assert(lex_lt(x.0, r[j].0));
                lemma_lex_trichotomy(r[j].0, y);
                if b - 1 > j {
                    assert(!lex_lt(r[b - 1].0, r[j].0));
                }
                if lex_lt(r[j].0, y) {
                    lemma_lex_transitive(x.0, r[j].0, y);
                }
                lemma_lex_trichotomy(x.0, y);
            } else {
                assert(out[a] == r[a - 1] && out[b] == r[b - 1]);
            }
        }
    }
}

/// The contexts listed come in name order, and they are exactly the
/// built-in default and the stored contexts that have a name, each once.
pub proof fn contexts_in_name_order(docker_host: Option<Seq<char>>, stored: Seq<(Seq<char>, Seq<char>, Seq<char>)>)
    ensures
        names_in_order(sorted_by_name(seq![default_context_spec(docker_host)] + named_only(stored))),
        sorted_by_name(seq![default_context_spec(docker_host)] + named_only(stored)).to_multiset()
            == (seq![default_context_spec(docker_host)] + named_only(stored)).to_multiset(),
        forall|i: int| 0 <= i < named_only(stored).len() ==> stored.contains(#[trigger] named_only(stored)[i]) && named_only(stored)[i].0.len() > 0,
        forall|i: int| 0 <= i < stored.len() && stored[i].0.len() > 0 ==> named_only(stored).contains(#[trigger] stored[i]),
{
    lemma_sorted_by_name(seq![default_context_spec(docker_host)] + named_only(stored));
    lemma_named_only(stored);
}

proof fn lemma_named_only(s: Seq<(Seq<char>, Seq<char>, Seq<char>)>)
    ensures
        forall|i: int| 0 <= i < named_only(s).len() ==> s.contains(#[trigger] named_only(s)[i]) && named_only(s)[i].0.len() > 0,
        forall|i: int| 0 <= i < s.len() && s[i].0.len() > 0 ==> named_only(s).contains(#[trigger] s[i]),
    decreases s.len(),
{
    if s.len() > 0 {
        let p = s.drop_last();
        lemma_named_only(p);
        assert forall|i: int| 0 <= i < named_only(s).len() implies s.contains(#[trigger] named_only(s)[i]) && named_only(s)[i].0.len() > 0 by {
            if i < named_only(p).len() {
                assert(named_only(s)[i] == named_only(p)[i]);
                let w = choose|w: int| 0 <= w < p.len() && p[w] == named_only(p)[i];
                assert(s[w] == p[w]);
            } else {
                assert(named_only(s)[i] == s.last());
                assert(s[s.len() - 1] == s.last());
            }
        }
        assert forall|i: int| 0 <= i < s.len() && s[i].0.len() > 0 implies named_only(s).contains(#[trigger] s[i]) by {
            if i < p.len() {
                assert(s[i] == p[i]);
                let w = choose|w: int| 0 <= w < named_only(p).len() && named_only(p)[w] == p[i];
                assert(named_only(s)[w] == named_only(p)[w]);
            } else {
                assert(named_only(s)[named_only(s).len() - 1] == s[i]);
            }
        }
    }
}

/// `i` is the first context named `name`.
pub open spec fn first_named(cs: Seq<(Seq<char>, Seq<char>, Seq<char>)>, name: Seq<char>, i: int) -> bool {
    0 <= i < cs.len() && cs[i].0 == name && forall|j: int| 0 <= j < i ==> #[trigger] cs[j].0 != name
}

proof fn lemma_first_stays_first(s: Seq<(Seq<char>, Seq<char>, Seq<char>)>)
    requires
        s.len() >= 1,
    ensures
        exists|p: int| first_named(sorted_by_name(s), s[0].0, p) && sorted_by_name(s)[p] == s[0],
    decreases s.len(),
{
    let n = s[0].0;
    let out = sorted_by_name(s);
    let pre = s.drop_last();
    let r = sorted_by_name(pre);
    let x = s.last();
    lemma_insert_pos_exists(r, x.0);
    let j = choose|j: int| is_insert_pos(r, x.0, j);
    assert(out == r.insert(j, x));
    if s.len() == 1 {
        assert(pre.len() == 0);
        assert(r.len() == 0);
        assert(j == 0);
        assert(first_named(out, n, 0));
    } else {
        assert(pre[0] == s[0]);
        lemma_first_stays_first(pre);
        let p = choose|p: int| first_named(r, n, p) && r[p] == s[0];
        if x.0 == n {
            lemma_sorted_by_name(pre);
            if j <= p {
                assert(!lex_lt(x.0, r[p].0)) by {
                    lemma_lex_trichotomy(n, n);
                }
                if j < p {
                    assert(lex_lt(x.0, r[j].0));
                    assert(!lex_lt(r[p].0, r[j].0));
                }
                assert(false);
            }
            assert(out[p] == r[p]);
            assert forall|q: int| 0 <= q < p implies #[trigger] out[q].0 != n by {
                assert(out[q] == r[q]);
            }
            assert(first_named(out, n, p));
        } else if j <= p {
            assert(out[p + 1] == r[p]);
            assert forall|q: int| 0 <= q < p + 1 implies #[trigger] out[q].0 != n by {
                if q < j {
                    assert(out[q] == r[q]);
                } else if q > j {
                    assert(out[q] == r[q - 1]);
                }
            }
            assert(first_named(out, n, p + 1));
        } else {
            assert(out[p] == r[p]);
            assert forall|q: int| 0 <= q < p implies #[trigger] out[q].0 != n by {
                assert(out[q] == r[q]);
            }
            assert(first_named(out, n, p));
        }
    }
}

/// The endpoint of the built-in default context: `$DOCKER_HOST` when set,
/// else the local socket.
pub open spec fn default_host(docker_host: Option<Seq<char>>) -> Seq<char> {
    default_context_spec(docker_host).2
}

/// Among the listed contexts, the first one named `default` is always the
/// built-in one, even when the store holds another context of that name:
/// resolving `default` gives `$DOCKER_HOST` when set, else the local socket.
pub proof fn default_context_resolves(docker_host: Option<Seq<char>>, stored: Seq<(Seq<char>, Seq<char>, Seq<char>)>)
    ensures
        exists|i: int|
            first_named(sorted_by_name(seq![default_context_spec(docker_host)] + named_only(stored)), "default"@, i)
                && sorted_by_name(seq![default_context_spec(docker_host)] + named_only(stored))[i].2
                == default_host(docker_host),
{
    let s = seq![default_context_spec(docker_host)] + named_only(stored);
    assert(s[0] == default_context_spec(docker_host));
    lemma_first_stays_first(s);
}

/// Resolve a context name to its endpoint host string, among `contexts`.
pub fn resolve_host(contexts: &[DockerContext], name: &str) -> (r: Result<String, String>)
    ensures
        r matches Ok(h) ==> exists|i: int|
            first_named(ctx_views(contexts@), name@, i) && h@ == ctx_views(contexts@)[i].2,
        r is Err <==> forall|i: int|
            0 <= i < contexts@.len() ==> #[trigger] ctx_views(contexts@)[i].0 != name@,
        r matches Err(e) ==> e@ == "unknown context '"@ + name@ + "'"@,
{
    let key = lit(name);
    let mut i: usize = 0;
    while i < contexts.len()
        invariant
            i <= contexts@.len(),
            key@ == name@,
            forall|j: int| 0 <= j < i ==> #[trigger] ctx_views(contexts@)[j].0 != name@,
        decreases contexts.len() - i,
    {
        if contexts[i].name == key {
            assert(first_named(ctx_views(contexts@), name@, i as int));
            return Ok(contexts[i].host.clone());
        }
        i += 1;
    }
    let mut msg = lit("unknown context '");
    msg.append(name);
    msg.append("'");
    Err(msg)
}

/// The context Docker would use: `$DOCKER_CONTEXT` when set and non-empty,
/// else the CLI config's `currentContext` when non-empty, else "default".
pub open spec fn current_context_spec(env: Option<Seq<char>>, configured: Option<Seq<char>>) -> Seq<char> {
    match (env, configured) {
        (Some(e), _) if e.len() > 0 => e,
        (_, Some(c)) if c.len() > 0 => c,
        _ => "default"@,
    }
}

/// The context Docker would use right now, given `$DOCKER_CONTEXT` and the
/// `currentContext` of the CLI config (each when present).
pub fn current_context(env: Option<String>, configured: Option<String>) -> (r: String)
    ensures
        r@ == current_context_spec(opt_view(env), opt_view(configured)),
{
    if let Some(e) = env {
        if e.as_str().unicode_len() > 0 {
            return e;
        }
    }
    if let Some(c) = configured {
        if c.as_str().unicode_len() > 0 {
            return c;
        }
    }
    lit("default")
}

/// Which context is current: a non-empty `$DOCKER_CONTEXT` wins; when it is
/// unset or empty, a non-empty `currentContext` of the CLI config is used;
/// with neither, `default`. An empty `$DOCKER_CONTEXT` counts as unset.
pub proof fn current_context_precedence(env: Option<Seq<char>>, configured: Option<Seq<char>>)
    ensures
        env is Some && env->0.len() > 0 ==> current_context_spec(env, configured) == env->0,
        (env is None || env->0.len() == 0) && configured is Some && configured->0.len() > 0
            ==> current_context_spec(env, configured) == configured->0,
        (env is None || env->0.len() == 0) && (configured is None || configured->0.len() == 0)
            ==> current_context_spec(env, configured) == "default"@,
        current_context_spec(None, configured) == current_context_spec(Some(Seq::empty()), configured),
{
}

/// The `-p <port>` arguments for an optional port.
pub open spec fn port_args(port: Option<Seq<char>>) -> Seq<Seq<char>> {
    match port {
        Some(p) => seq!["-p"@, p],
        None => Seq::empty(),
    }
}

/// The view of an ssh target's user@host part.
pub open spec fn target_name(t: Option<(Seq<char>, Option<Seq<char>>)>) -> Seq<char> {
    match t {
        Some((n, _)) => n,
        None => Seq::empty(),
    }
}

/// The view of an ssh target's port.
pub open spec fn target_port(t: Option<(Seq<char>, Option<Seq<char>>)>) -> Option<Seq<char>> {
    match t {
        Some((_, p)) => p,
        None => None,
    }
}

/// Arguments of the `ssh` command that prints a file of a remote engine host.
pub open spec fn remote_read_spec(target: Seq<char>, port: Option<Seq<char>>, path: Seq<char>) -> Seq<Seq<char>> {
    seq!["-o"@, "BatchMode=yes"@] + port_args(port) + seq![target, "cat"@, "--"@, path]
}

/// How a file on the engine host is read: for an `ssh://` endpoint, the
/// arguments of the `ssh` command that prints it; `None` when the file is
/// read from the local filesystem.
pub fn remote_read_args(host: &str, path: &str) -> (r: Option<Vec<String>>)
    ensures
        r is Some <==> ssh_target_spec(host@) is Some,
        r matches Some(v) ==> views_of(v@) == remote_read_spec(
            target_name(ssh_target_spec(host@)),
            target_port(ssh_target_spec(host@)),
            path@,
        ),
{
    match ssh_target(host) {
        None => None,
        Some((target, port)) => {
            let mut v: Vec<String> = Vec::new();
            assert(views_of(v@) =~= Seq::<Seq<char>>::empty());
            push_lit(&mut v, "-o");
            push_lit(&mut v, "BatchMode=yes");
            if let Some(p) = port {
                push_lit(&mut v, "-p");
                push_str(&mut v, p);
            }
            push_str(&mut v, target);
            push_lit(&mut v, "cat");
            push_lit(&mut v, "--");
            push_str(&mut v, lit(path));
            assert(views_of(v@) =~= remote_read_spec(
                target_name(ssh_target_spec(host@)),
                target_port(ssh_target_spec(host@)),
                path@,
            ));
            Some(v)
        },
    }
}

/// What reading a file of a remote engine host comes to, from the outcome
/// of the `ssh` command: what it printed when it succeeded, else its error
/// output without surrounding white space.
pub fn read_result(success: bool, stdout: String, stderr: &str) -> (r: Result<String, String>)
    ensures
        success ==> (r matches Ok(o) && o@ == stdout@),
        !success ==> (r matches Err(e) && e@ == trimmed(stderr@)),
{
    if success {
        Ok(stdout)
    } else {
        Err(string_of(&trim_chars(&chars_of(stderr))))
    }
}

/// Arguments of the `ssh` command that opens a remote file in the remote
/// `$EDITOR` (falling back to `vi`).
pub open spec fn remote_edit_spec(target: Seq<char>, port: Option<Seq<char>>, path: Seq<char>) -> Seq<Seq<char>> {
    seq!["-t"@] + port_args(port) + seq![target, "${EDITOR:-vi} "@ + sh_quote_spec(path)]
}

/// How a file on the engine host is edited: for an `ssh://` endpoint, the
/// arguments of the interactive `ssh` command; `None` when the local editor
/// opens the local file.
pub fn remote_edit_args(host: &str, path: &str) -> (r: Option<Vec<String>>)
    ensures
        r is Some <==> ssh_target_spec(host@) is Some,
        r matches Some(v) ==> views_of(v@) == remote_edit_spec(
            target_name(ssh_target_spec(host@)),
            target_port(ssh_target_spec(host@)),
            path@,
        ),
{
    match ssh_target(host) {
        None => None,
        Some((target, port)) => {
            let mut v: Vec<String> = Vec::new();
            assert(views_of(v@) =~= Seq::<Seq<char>>::empty());
            push_lit(&mut v, "-t");
            if let Some(p) = port {
                push_lit(&mut v, "-p");
                push_str(&mut v, p);
            }
            push_str(&mut v, target);
            let mut cmd = lit("${EDITOR:-vi} ");
            let q = sh_quote(path);
            cmd.append(q.as_str());
            push_str(&mut v, cmd);
            assert(views_of(v@) =~= remote_edit_spec(
                target_name(ssh_target_spec(host@)),
                target_port(ssh_target_spec(host@)),
                path@,
            ));
            Some(v)
        },
    }
}

/// Arguments of `docker` for an interactive shell in container `id`
/// (bash when the container has it, else sh).
pub fn exec_args(context: &str, id: &str) -> (v: Vec<String>)
    ensures
        views_of(v@) == seq![
            "--context"@,
            context@,
            "exec"@,
            "-it"@,
            id@,
            "sh"@,
            "-c"@,
            "command -v bash >/dev/null 2>&1 && exec bash || exec sh"@,
        ],
{
    let mut v: Vec<String> = Vec::new();
    assert(views_of(v@) =~= Seq::<Seq<char>>::empty());
    push_lit(&mut v, "--context");
    push_str(&mut v, lit(context));
    push_lit(&mut v, "exec");
    push_lit(&mut v, "-it");
    push_str(&mut v, lit(id));
    push_lit(&mut v, "sh");
    push_lit(&mut v, "-c");
    push_lit(&mut v, "command -v bash >/dev/null 2>&1 && exec bash || exec sh");
    assert(views_of(v@) =~= seq![
        "--context"@,
        context@,
        "exec"@,
        "-it"@,
        id@,
        "sh"@,
        "-c"@,
        "command -v bash >/dev/null 2>&1 && exec bash || exec sh"@,
    ]);
    v
}

/// Arguments of `docker` that attach to container `id` without proxying
/// signals.
pub fn attach_args(context: &str, id: &str) -> (v: Vec<String>)
    ensures
        views_of(v@) == seq!["--context"@, context@, "attach"@, "--sig-proxy=false"@, id@],
{
    let mut v: Vec<String> = Vec::new();
    assert(views_of(v@) =~= Seq::<Seq<char>>::empty());
    push_lit(&mut v, "--context");
    push_str(&mut v, lit(context));
    push_lit(&mut v, "attach");
    push_lit(&mut v, "--sig-proxy=false");
    push_str(&mut v, lit(id));
    assert(views_of(v@) =~= seq!["--context"@, context@, "attach"@, "--sig-proxy=false"@, id@]);
    v
}

/// The characters of `ssh://`.
pub open spec fn ssh_scheme() -> Seq<char> {
    seq!['s', 's', 'h', ':', '/', '/']
}

/// Whether every character of `s` is an ASCII digit.
pub open spec fn all_digits(s: Seq<char>) -> bool {
    forall|i: int| 0 <= i < s.len() ==> '0' <= #[trigger] s[i] <= '9'
}

/// `k` is the position of the last `:` in `s`.
pub open spec fn last_colon_at(s: Seq<char>, k: int) -> bool {
    0 <= k < s.len() && s[k] == ':' && forall|j: int| k < j < s.len() ==> s[j] != ':'
}

/// The (user@host, port) split of an `ssh://user@host[:port]` endpoint; the
/// port is the text after the last `:` when that text is a non-empty run of
/// ASCII digits. `None` for endpoints that are not `ssh://`.
pub open spec fn ssh_target_spec(host: Seq<char>) -> Option<(Seq<char>, Option<Seq<char>>)> {
    if !(host.len() >= 6 && host.take(6) == ssh_scheme()) {
        None
    } else {
        let rest = host.skip(6);
        if exists|k: int| last_colon_at(rest, k) && k + 1 < rest.len() && all_digits(rest.skip(k + 1)) {
            let k = choose|k: int| last_colon_at(rest, k);
            Some((rest.take(k), Some(rest.skip(k + 1))))
        } else {
            Some((rest, None))
        }
    }
}

proof fn lemma_last_colon_unique(s: Seq<char>, k1: int, k2: int)
    requires
        last_colon_at(s, k1),
        last_colon_at(s, k2),
    ensures
        k1 == k2,
{
}

fn digits_only(s: &[char]) -> (b: bool)
    ensures
        b == all_digits(s@),
{
    let mut i: usize = 0;
    while i < s.len()
        invariant
            i <= s.len(),
            forall|j: int| 0 <= j < i ==> '0' <= #[trigger] s@[j] <= '9',
        decreases s.len() - i,
    {
        if !('0' <= s[i] && s[i] <= '9') {
            return false;
        }
        i += 1;
    }
    true
}

/// Split an `ssh://user@host[:port]` endpoint into (user@host, port).
/// Returns None for non-ssh endpoints (local socket / tcp).
pub fn ssh_target(host: &str) -> (r: Option<(String, Option<String>)>)
    ensures
        match (r, ssh_target_spec(host@)) {
            (None, None) => true,
            (Some((t, p)), Some((ts, ps))) => t@ == ts && match (p, ps) {
                (None, None) => true,
                (Some(p), Some(ps)) => p@ == ps,
                _ => false,
            },
            _ => false,
        },
{
    let h = chars_of(host);
    let scheme = vec!['s', 's', 'h', ':', '/', '/'];
    if !matches_at(&h, &scheme, 0) {
        proof {
            assert(h@.len() >= 6 && h@.take(6) == ssh_scheme() ==> occurs_at(h@, scheme@, 0)) by {
                if h@.len() >= 6 && h@.take(6) == ssh_scheme() {
                    assert(h@.subrange(0, 6) == h@.take(6));
                }
            };
        }
        return None;
    }
    assert(h@.take(6) == h@.subrange(0, 6));
    let rest = slice_chars(&h, 6, h.len());
    assert(rest@ == host@.skip(6));
    // find the last ':'
    let mut k: usize = rest.len();
    while k > 0 && rest[k - 1] != ':'
        invariant
            k <= rest@.len(),
            forall|j: int| k <= j < rest@.len() ==> rest@[j] != ':',
        decreases k,
    {
        k -= 1;
    }
    if k > 0 {
        let c = k - 1;
        assert(last_colon_at(rest@, c as int));
        let port = slice_chars(&rest, k, rest.len());
        assert(port@ == rest@.skip(k as int));
        if port.len() > 0 && digits_only(&port) {
            let hostpart = slice_chars(&rest, 0, c);
            assert(hostpart@ == rest@.take(c as int));
            proof {
                let kk = choose|kk: int| last_colon_at(rest@, kk);
                lemma_last_colon_unique(rest@, kk, c as int);
            }
            return Some((string_of(&hostpart), Some(string_of(&port))));
        }
        proof {
            assert forall|kk: int| last_colon_at(rest@, kk) implies !(kk + 1 < rest@.len() && all_digits(rest@.skip(kk + 1))) by {
                lemma_last_colon_unique(rest@, kk, c as int);
            }
        }
    } else {
        proof {
            assert forall|kk: int| !last_colon_at(rest@, kk) by {}
        }
    }
    Some((string_of(&rest), None))
}

/// `s` with every `'` replaced by `'\''`.
pub open spec fn escape_quotes(s: Seq<char>) -> Seq<char>
    decreases s.len(),
{
    if s.len() == 0 {
        Seq::empty()
    } else {
        escape_quotes(s.drop_last()) + if s.last() == '\'' {
            seq!['\'', '\\', '\'', '\'']
        } else {
            seq![s.last()]
        }
    }
}

/// `s` in single quotes for a POSIX shell.
pub open spec fn sh_quote_spec(s: Seq<char>) -> Seq<char> {
    seq!['\''] + escape_quotes(s) + seq!['\'']
}

/// Single-quote a path for a remote shell.
pub fn sh_quote(s: &str) -> (out: String)
    ensures
        out@ == sh_quote_spec(s@),
{
    let cs = chars_of(s);
    let mut out: Vec<char> = vec!['\''];
    let mut i: usize = 0;
    while i < cs.len()
        invariant
            i <= cs@.len(),
            out@ == seq!['\''] + escape_quotes(cs@.take(i as int)),
        decreases cs.len() - i,
    {
        proof {
            assert(cs@.take(i + 1).drop_last() == cs@.take(i as int));
        }
        if cs[i] == '\'' {
            out.push('\'');
            out.push('\\');
            out.push('\'');
            out.push('\'');
        } else {
            out.push(cs[i]);
        }
        i += 1;
    }
    out.push('\'');
    assert(cs@.take(cs.len() as int) == cs@);
    string_of(&out)
}

/// The word a POSIX shell reads from `q`: inside single quotes every
/// character stands for itself up to the closing quote; outside them a
/// backslash makes the next character literal. `quoted` tells whether the
/// reading starts inside single quotes.
pub open spec fn shell_word(q: Seq<char>, quoted: bool) -> Seq<char>
    decreases q.len(),
{
    if q.len() == 0 {
        Seq::empty()
    } else if quoted {
        if q[0] == '\'' {
            shell_word(q.drop_first(), false)
        } else {
            seq![q[0]] + shell_word(q.drop_first(), true)
        }
    } else if q[0] == '\'' {
        shell_word(q.drop_first(), true)
    } else if q[0] == '\\' && q.len() >= 2 {
        seq![q[1]] + shell_word(q.skip(2), false)
    } else {
        seq![q[0]] + shell_word(q.drop_first(), false)
    }
}

/// Escaped form of one character.
pub open spec fn escape_one(c: char) -> Seq<char> {
    if c == '\'' {
        seq!['\'', '\\', '\'', '\'']
    } else {
        seq![c]
    }
}

proof fn lemma_escape_cons(c: char, t: Seq<char>)
    ensures
        escape_quotes(seq![c] + t) == escape_one(c) + escape_quotes(t),
    decreases t.len(),
{
    if t.len() == 0 {
        assert(seq![c] + t == seq![c]);
        assert((seq![c]).drop_last() == Seq::<char>::empty());
        assert(escape_quotes(Seq::<char>::empty()) == Seq::<char>::empty());
        assert(escape_quotes(seq![c]) == escape_one(c));
    } else {
        let s = seq![c] + t;
        assert(s.drop_last() == seq![c] + t.drop_last());
        assert(s.last() == t.last());
        lemma_escape_cons(c, t.drop_last());
    }
}

proof fn lemma_unquote_escaped(s: Seq<char>)
    ensures
        shell_word(escape_quotes(s) + seq!['\''], true) == s,
    decreases s.len(),
{
    if s.len() == 0 {
        assert(escape_quotes(s) == Seq::<char>::empty());
        assert(escape_quotes(s) + seq!['\''] == seq!['\'']);
        assert(seq!['\''].drop_first() == Seq::<char>::empty());
        assert(shell_word(seq!['\''], true) == shell_word(Seq::<char>::empty(), false));
        assert(s =~= Seq::<char>::empty());
    } else {
        let c = s[0];
        let t = s.drop_first();
        assert(s == seq![c] + t);
        lemma_escape_cons(c, t);
        lemma_unquote_escaped(t);
        let rest = escape_quotes(t) + seq!['\''];
        assert(escape_quotes(s) + seq!['\''] == escape_one(c) + rest);
        if c == '\'' {
            let q = escape_one(c) + rest;
            assert(q[0] == '\'');
            assert(q.drop_first() == seq!['\\', '\'', '\''] + rest);
            let q1 = q.drop_first();
            assert(q1[0] == '\\' && q1.len() >= 2 && q1[1] == '\'');
            assert(q1.skip(2) == seq!['\''] + rest);
            let q2 = q1.skip(2);
            assert(q2[0] == '\'');
            assert(q2.drop_first() == rest);
            assert(shell_word(q2, false) == shell_word(rest, true));
            assert(shell_word(q1, false) == seq![q1[1]] + shell_word(q2, false));
            assert(shell_word(q, true) == shell_word(q1, false));
            assert(shell_word(q, true) == seq!['\''] + t);
        } else {
            let q = seq![c] + rest;
            assert(q[0] == c);
            assert(q.drop_first() == rest);
            assert(shell_word(q, true) == seq![c] + shell_word(rest, true));
        }
    }
}

/// A string quoted by `sh_quote` is read back by a POSIX shell as the string
/// itself, whatever quotes it holds.
pub proof fn sh_quote_reads_back(s: Seq<char>)
    ensures
        shell_word(sh_quote_spec(s), false) == s,
{
    lemma_unquote_escaped(s);
    let q = sh_quote_spec(s);
    assert(q[0] == '\'');
    assert(q.drop_first() == escape_quotes(s) + seq!['\'']);
}

} // verus!
