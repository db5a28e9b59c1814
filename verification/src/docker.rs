//! Resource views and table rows, and the pure formatting the Docker data
//! layer applies to what the engine returns.

use vstd::prelude::*;
use vstd::view::View as ViewOf;
use crate::text::{
    decimal, decimal_int, digit_char, digit, decimal_u64, decimal_i64, concat_chars, string_of,
    chars_of, matches_at, occurs_at, find_chars, has_substring, slice_chars, join_spec, join_chars,
    views_of, lit, push_str, dedup_spec, dedup_chars, opt_view,
};
use crate::contexts::{DockerContext, last_colon_at};


verus! {

/// The resource views the UI can browse.
#[derive(Clone, Copy, Debug, PartialEq, Eq, Structural)]
pub enum View {
    Containers,
    Compose,
    Images,
    Services,
    Stacks,
    Nodes,
    Contexts,
    ServiceTasks,
    StackTasks,
    Volumes,
    Networks,
}

/// One row in a resource table. `header` rows are group headings: they are
/// never selected or marked.
#[derive(Clone, Debug)]
pub struct Item {
    pub id: String,
    pub name: String,
    pub cells: Vec<String>,
    pub header: bool,
}

/// Title of each view.
pub open spec fn view_title(v: View) -> &'static str {
    match v {
        View::Containers => "Containers",
        View::Compose => "Compose",
        View::Images => "Images",
        View::Services => "Services",
        View::Stacks => "Stacks",
        View::Nodes => "Nodes",
        View::Contexts => "Contexts",
        View::ServiceTasks => "Service Tasks",
        View::StackTasks => "Stack Tasks",
        View::Volumes => "Volumes",
        View::Networks => "Networks",
    }
}

/// Column titles of each view.
pub open spec fn view_columns(v: View) -> Seq<&'static str> {
    match v {
        View::Containers => seq!["ID", "NAME", "IMAGE", "STATE", "STATUS", "PORTS"],
        View::Compose => seq!["NAME", "STATUS", "SERVICES", "CONFIG FILES"],
        View::Images => seq!["REPOSITORY", "TAG", "ID", "SIZE", "CREATED"],
        View::Services => seq!["NAME", "MODE", "REPLICAS", "IMAGE", "PORTS"],
        View::Stacks => seq!["NAME", "SERVICES", "ORCHESTRATOR"],
        View::Nodes => seq!["HOSTNAME", "STATUS", "AVAILABILITY", "MANAGER", "ENGINE"],
        View::Contexts => seq!["", "NAME", "DESCRIPTION", "ENDPOINT"],
        View::ServiceTasks => seq!["NAME", "NODE", "DESIRED", "CURRENT", "IMAGE", "ERROR"],
        View::StackTasks => seq!["NAME", "SERVICE", "NODE", "DESIRED", "CURRENT", "IMAGE", "ERROR"],
        View::Volumes => seq!["NAME", "DRIVER", "SIZE", "MOUNTPOINT"],
        View::Networks => seq!["NAME", "DRIVER", "SCOPE", "ID"],
    }
}

/// What `inspect` is called with for each view, if the view can be inspected.
pub open spec fn view_inspect_type(v: View) -> Option<&'static str> {
    match v {
        View::Containers => Some("container"),
        View::Images => Some("image"),
        View::Services => Some("service"),
        View::Nodes => Some("node"),
        View::Volumes => Some("volume"),
        View::Networks => Some("network"),
        _ => None,
    }
}

impl View {
    /// The view's name on its tab.
    pub fn title(self) -> (r: &'static str)
        ensures
            r == view_title(self),
    {
        match self {
            View::Containers => "Containers",
            View::Compose => "Compose",
            View::Images => "Images",
            View::Services => "Services",
            View::Stacks => "Stacks",
            View::Nodes => "Nodes",
            View::Contexts => "Contexts",
            View::ServiceTasks => "Service Tasks",
            View::StackTasks => "Stack Tasks",
            View::Volumes => "Volumes",
            View::Networks => "Networks",
        }
    }

    /// Column titles of the view's table.
    pub fn columns(self) -> (r: &'static [&'static str])
        ensures
            r@ == view_columns(self),
    {
        match self {
            View::Containers => &["ID", "NAME", "IMAGE", "STATE", "STATUS", "PORTS"],
            View::Compose => &["NAME", "STATUS", "SERVICES", "CONFIG FILES"],
            View::Images => &["REPOSITORY", "TAG", "ID", "SIZE", "CREATED"],
            View::Services => &["NAME", "MODE", "REPLICAS", "IMAGE", "PORTS"],
            View::Stacks => &["NAME", "SERVICES", "ORCHESTRATOR"],
            View::Nodes => &["HOSTNAME", "STATUS", "AVAILABILITY", "MANAGER", "ENGINE"],
            View::Contexts => &["", "NAME", "DESCRIPTION", "ENDPOINT"],
            View::ServiceTasks => &["NAME", "NODE", "DESIRED", "CURRENT", "IMAGE", "ERROR"],
            View::StackTasks => &["NAME", "SERVICE", "NODE", "DESIRED", "CURRENT", "IMAGE", "ERROR"],
            View::Volumes => &["NAME", "DRIVER", "SIZE", "MOUNTPOINT"],
            View::Networks => &["NAME", "DRIVER", "SCOPE", "ID"],
        }
    }

    /// Kind of object `inspect` reads for the view's rows, if any.
    pub fn inspect_type(self) -> (r: Option<&'static str>)
        ensures
            r == view_inspect_type(self),
    {
        match self {
            View::Containers => Some("container"),
            View::Images => Some("image"),
            View::Services => Some("service"),
            View::Nodes => Some("node"),
            View::Volumes => Some("volume"),
            View::Networks => Some("network"),
            _ => None,
        }
    }
}


/// `2^e`.
pub open spec fn two_to(e: nat) -> nat
    decreases e,
{
    if e == 0 {
        1
    } else {
        2 * two_to((e - 1) as nat)
    }
}

/// `1024^i`.
pub open spec fn pow1024(i: nat) -> nat
    decreases i,
{
    if i == 0 {
        1
    } else {
        1024 * pow1024((i - 1) as nat)
    }
}

/// Number of binary digits of `n`.
pub open spec fn bit_len(n: nat) -> nat
    decreases n,
{
    if n == 0 {
        0
    } else {
        1 + bit_len(n / 2)
    }
}

/// `num / den` rounded to the nearest integer, ties to even.
pub open spec fn round_half_even(num: nat, den: nat) -> nat {
    let q = num / den;
    let r = num % den;
    if 2 * r > den || (2 * r == den && q % 2 == 1) {
        q + 1
    } else {
        q
    }
}

/// `n` rounded to the nearest value a 64-bit float holds (53 significant
/// bits, ties to even), as an integer-to-float conversion rounds.
pub open spec fn to_f64_value(n: nat) -> nat {
    if n < two_to(53) {
        n
    } else {
        let u = two_to((bit_len(n) - 53) as nat);
        round_half_even(n, u) * u
    }
}

/// How many times a value is divided by 1024 before it is shown: while it
/// is at least 1024, up to TB.
pub open spec fn unit_index(f: nat) -> nat {
    if f >= pow1024(4) {
        4
    } else if f >= pow1024(3) {
        3
    } else if f >= pow1024(2) {
        2
    } else if f >= pow1024(1) {
        1
    } else {
        0
    }
}

/// Name of the unit after `i` divisions by 1024.
pub open spec fn unit_name(i: nat) -> Seq<char> {
    if i == 0 {
        seq!['B']
    } else if i == 1 {
        seq!['K', 'B']
    } else if i == 2 {
        seq!['M', 'B']
    } else if i == 3 {
        seq!['G', 'B']
    } else {
        seq!['T', 'B']
    }
}

/// A byte count for display: below 1024 the exact count and `B`; otherwise
/// the count as a 64-bit float, divided by 1024 up to TB while it is at least
/// 1024, with one decimal rounded half to even.
pub open spec fn human_size_spec(bytes: int) -> Seq<char> {
    if bytes < 1024 {
        decimal_int(bytes) + unit_name(0)
    } else {
        let f = to_f64_value(bytes as nat);
        let i = unit_index(f);
        let t = round_half_even(10 * f, pow1024(i));
        decimal(t / 10) + seq!['.', digit_char((t % 10) as int)] + unit_name(i)
    }
}

proof fn lemma_bit_len_bounds(n: nat, k: nat)
    ensures
        n < two_to(k) ==> bit_len(n) <= k,
        n >= two_to(k) ==> bit_len(n) >= k + 1,
    decreases k,
{
    if k > 0 {
        lemma_bit_len_bounds(n / 2, (k - 1) as nat);
    } else {
        if n >= 1 {
            assert(bit_len(n) == 1 + bit_len(n / 2));
        }
    }
}

pub(crate) proof fn lemma_two_to_mono(a: nat, b: nat)
    requires
        a <= b,
    ensures
        two_to(a) <= two_to(b),
        two_to(a) >= 1,
    decreases b,
{
    if a < b {
        lemma_two_to_mono(a, (b - 1) as nat);
    } else if a > 0 {
        lemma_two_to_mono((a - 1) as nat, (a - 1) as nat);
    }
}

pub(crate) proof fn lemma_two_to_add(a: nat, b: nat)
    ensures
        two_to(a + b) == two_to(a) * two_to(b),
    decreases a,
{
    if a > 0 {
        lemma_two_to_add((a - 1) as nat, b);
        let x = two_to((a - 1) as nat);
        let y = two_to(b);
        assert(two_to(a + b) == 2 * two_to((a - 1 + b) as nat));
        assert(two_to((a - 1 + b) as nat) == x * y);
        assert(two_to(a) == 2 * x);
        assert((2 * x) * y == 2 * (x * y)) by (nonlinear_arith);
    } else {
        assert(two_to(0) == 1);
        assert(1 * two_to(b) == two_to(b));
    }
}

pub(crate) proof fn lemma_two_to_values()
    ensures
        two_to(10) == 1024,
        two_to(53) == 0x20_0000_0000_0000,
        two_to(63) == 0x8000_0000_0000_0000,
        two_to(64) == 0x1_0000_0000_0000_0000,
{
    reveal_with_fuel(two_to, 11);
    assert(two_to(10) == 1024);
    lemma_two_to_add(10, 10);
    lemma_two_to_add(20, 10);
    lemma_two_to_add(30, 10);
    lemma_two_to_add(40, 10);
    lemma_two_to_add(50, 10);
    reveal_with_fuel(two_to, 4);
    assert(two_to(3) == 8);
    lemma_two_to_add(50, 3);
    lemma_two_to_add(60, 3);
    assert(two_to(4) == 16);
    lemma_two_to_add(60, 4);
}

fn bit_length(n: u64) -> (b: u64)
    ensures
        b == bit_len(n as nat),
        b <= 64,
{
    let mut m = n;
    let mut b: u64 = 0;
    proof {
        lemma_two_to_values();
        lemma_bit_len_bounds(n as nat, 64);
    }
    while m > 0
        invariant
            bit_len(n as nat) == b + bit_len(m as nat),
            b + bit_len(m as nat) <= 64,
        decreases m,
    {
        m = m / 2;
        b = b + 1;
    }
    b
}

fn power_of_two(e: u64) -> (u: u64)
    requires
        e <= 63,
    ensures
        u == two_to(e as nat),
{
    let mut u: u64 = 1;
    let mut k: u64 = 0;
    while k < e
        invariant
            k <= e <= 63,
            u == two_to(k as nat),
        decreases e - k,
    {
        proof {
            lemma_two_to_mono((k + 1) as nat, 63);
            lemma_two_to_values();
        }
        u = u * 2;
        k = k + 1;
    }
    u
}

/// `num / den` rounded half to even.
fn round_half_even_u128(num: u128, den: u128) -> (r: u128)
    requires
        den > 0,
        den <= 0x1_0000_0000_0000,
        num < 0x1_0000_0000_0000_0000_0000_0000_0000,
    ensures
        r == round_half_even(num as nat, den as nat),
{
    let q = num / den;
    let r = num % den;
    if 2 * r > den || (2 * r == den && q % 2 == 1) {
        q + 1
    } else {
        q
    }
}

/// The integer value of `b as f64`.
fn to_f64_int(b: u64) -> (f: u64)
    requires
        b < 0x8000_0000_0000_0000,
    ensures
        f == to_f64_value(b as nat),
        f <= 0x8000_0000_0000_0000,
        b >= 1024 ==> f >= 1024,
{
    proof {
        lemma_two_to_values();
    }
    if b < 0x20_0000_0000_0000 {
        return b;
    }
    let bl = bit_length(b);
    proof {
        lemma_bit_len_bounds(b as nat, 53);
        lemma_bit_len_bounds(b as nat, 63);
    }
    let e = bl - 53;
    let u = power_of_two(e);
    proof {
        lemma_two_to_add(e as nat, 53);
        lemma_two_to_mono(e as nat, 10);
        lemma_bit_len_bounds(b as nat, bl as nat);
        assert(b < two_to(bl as nat)) by {
            if b >= two_to(bl as nat) {
                lemma_bit_len_bounds(b as nat, bl as nat);
            }
        }
        lemma_two_to_mono(bl as nat, 63);
    }
    let q = round_half_even_u128(b as u128, u as u128);
    proof {
        assert(q <= two_to(53)) by (nonlinear_arith)
            requires
                q <= (b as int) / (u as int) + 1,
                (b as int) < two_to(53) * (u as int),
                (u as int) > 0,
                q == round_half_even(b as nat, u as nat),
        ;
        assert(q * u <= two_to(53) * u) by (nonlinear_arith)
            requires q <= two_to(53), u >= 1;
        let bi = b as int;
        let ui = u as int;
        assert(q >= bi / ui);
        assert((bi / ui) * ui + bi % ui == bi && 0 <= bi % ui < ui) by (nonlinear_arith)
            requires ui > 0;
        assert(q * ui >= (bi / ui) * ui) by (nonlinear_arith)
            requires q >= bi / ui, ui > 0;
        assert(q * ui >= 1024);
    }
    (q as u64) * u
}

/// The characters of `sha256:`.
pub open spec fn sha_prefix() -> Seq<char> {
    seq!['s', 'h', 'a', '2', '5', '6', ':']
}

/// `id` without a leading `sha256:`.
pub open spec fn strip_sha(id: Seq<char>) -> Seq<char> {
    if id.len() >= 7 && id.take(7) == sha_prefix() {
        id.skip(7)
    } else {
        id
    }
}

/// The first 12 characters of an id, after dropping a `sha256:` prefix.
pub open spec fn short_spec(id: Seq<char>) -> Seq<char> {
    let s = strip_sha(id);
    if s.len() <= 12 {
        s
    } else {
        s.take(12)
    }
}

/// Short form of an id.
pub fn short(id: &str) -> (out: String)
    ensures
        out@ == short_spec(id@),
{
    let cs = chars_of(id);
    let prefix = vec!['s', 'h', 'a', '2', '5', '6', ':'];
    let start: usize = if matches_at(&cs, &prefix, 0) {
        assert(cs@.subrange(0, 7) == cs@.take(7));
        7
    } else {
        assert(cs@.len() >= 7 && cs@.take(7) == sha_prefix() ==> occurs_at(cs@, prefix@, 0)) by {
            if cs@.len() >= 7 && cs@.take(7) == sha_prefix() {
                assert(cs@.subrange(0, 7) == cs@.take(7));
            }
        }
        0
    };
    let end: usize = if cs.len() - start <= 12 {
        cs.len()
    } else {
        start + 12
    };
    let out = slice_chars(&cs, start, end);
    assert(out@ == short_spec(id@));
    string_of(&out)
}

/// The characters of `@sha256:`.
pub open spec fn digest_marker() -> Seq<char> {
    seq!['@', 's', 'h', 'a', '2', '5', '6', ':']
}

/// An image reference without a trailing `@sha256:…` digest: everything
/// before the first `@sha256:`.
pub open spec fn clean_image_spec(img: Seq<char>) -> Seq<char> {
    if has_substring(img, digest_marker()) {
        let i = choose|i: int| occurs_at(img, digest_marker(), i) && forall|j: int|
            0 <= j < i ==> !occurs_at(img, digest_marker(), j);
        img.take(i)
    } else {
        img
    }
}

proof fn lemma_first_occurrence_unique(s: Seq<char>, n: Seq<char>, i: int, k: int)
    requires
        occurs_at(s, n, i) && forall|j: int| 0 <= j < i ==> !occurs_at(s, n, j),
        occurs_at(s, n, k) && forall|j: int| 0 <= j < k ==> !occurs_at(s, n, j),
    ensures
        i == k,
{
    if i < k {
        assert(!occurs_at(s, n, i));
    }
    if k < i {
        assert(!occurs_at(s, n, k));
    }
}

/// Strip a trailing `@sha256:…` digest from an image ref for display.
pub fn clean_image(img: &str) -> (out: String)
    ensures
        out@ == clean_image_spec(img@),
{
    let cs = chars_of(img);
    let marker = vec!['@', 's', 'h', 'a', '2', '5', '6', ':'];
    match find_chars(&cs, &marker) {
        Some(i) => {
            proof {
                assert(has_substring(cs@, digest_marker()));
                let k = choose|k: int| occurs_at(cs@, digest_marker(), k) && forall|j: int|
                    0 <= j < k ==> !occurs_at(cs@, digest_marker(), j);
                lemma_first_occurrence_unique(cs@, digest_marker(), i as int, k);
            }
            let head = slice_chars(&cs, 0, i);
            assert(head@ == cs@.take(i as int));
            string_of(&head)
        },
        None => lit(img),
    }
}

/// How long ago an event was, from its age in seconds: seconds below a
/// minute, then minutes, hours, days (negative ages count as 0).
pub open spec fn age_spec(d: int) -> Seq<char> {
    let d = if d < 0 {
        0
    } else {
        d
    };
    if d <= 59 {
        decimal(d as nat) + seq!['s']
    } else if d <= 3599 {
        decimal((d / 60) as nat) + seq!['m']
    } else if d <= 86399 {
        decimal((d / 3600) as nat) + seq!['h']
    } else {
        decimal((d / 86400) as nat) + seq!['d']
    }
}

/// Age of a unix timestamp at time `now` (both in seconds).
pub fn fmt_age(unix_secs: i64, now: i64) -> (out: String)
    requires
        i64::MIN <= now - unix_secs <= i64::MAX,
    ensures
        out@ == age_spec(now - unix_secs),
{
    let raw = now - unix_secs;
    let d: u64 = if raw < 0 {
        0
    } else {
        raw as u64
    };
    let (n, unit): (u64, char) = if d <= 59 {
        (d, 's')
    } else if d <= 3599 {
        (d / 60, 'm')
    } else if d <= 86399 {
        (d / 3600, 'h')
    } else {
        (d / 86400, 'd')
    };
    let mut v = decimal_u64(n);
    v.push(unit);
    string_of(&v)
}

/// A container port mapping: private port, public port when published, and
/// protocol.
#[derive(Clone, Debug)]
pub struct PortSpec {
    pub private_port: u16,
    pub public_port: Option<u16>,
    pub proto: String,
}

/// How one port mapping is shown: `public->private/proto`, or
/// `private/proto` when unpublished.
pub open spec fn port_text(p: PortSpec) -> Seq<char> {
    match p.public_port {
        Some(pb) => decimal(pb as nat) + seq!['-', '>'] + decimal(p.private_port as nat) + seq!['/']
            + p.proto@,
        None => decimal(p.private_port as nat) + seq!['/'] + p.proto@,
    }
}

/// The separator between listed values.
pub open spec fn comma_sep() -> Seq<char> {
    seq![',', ' ']
}

/// A container's ports: each distinct mapping once, in first-seen order,
/// joined with `, `.
pub open spec fn ports_spec(ports: Seq<PortSpec>) -> Seq<char> {
    join_spec(dedup_spec(ports.map_values(|p: PortSpec| port_text(p))), comma_sep())
}

fn port_chars(p: &PortSpec) -> (out: Vec<char>)
    ensures
        out@ == port_text(*p),
{
    let prv = decimal_u64(p.private_port as u64);
    let proto = chars_of(p.proto.as_str());
    let mut tail = prv;
    tail.push('/');
    let tail = concat_chars(&tail, &proto);
    match p.public_port {
        Some(pb) => {
            let mut head = decimal_u64(pb as u64);
            head.push('-');
            head.push('>');
            let out = concat_chars(&head, &tail);
            assert(out@ =~= port_text(*p));
            out
        },
        None => {
            assert(tail@ =~= port_text(*p));
            tail
        },
    }
}

/// Format a container's port mappings.
pub fn fmt_ports(ports: &[PortSpec]) -> (out: String)
    ensures
        out@ == ports_spec(ports@),
{
    let mut texts: Vec<Vec<char>> = Vec::new();
    let mut i: usize = 0;
    while i < ports.len()
        invariant
            i <= ports@.len(),
            texts@.map_values(|t: Vec<char>| t@) == ports@.take(i as int).map_values(
                |p: PortSpec| port_text(p),
            ),
        decreases ports.len() - i,
    {
        let ghost before = texts@;
        let t = port_chars(&ports[i]);
        texts.push(t);
        assert(texts@ == before.push(t));
        assert(ports@.take(i + 1) == ports@.take(i as int).push(ports@[i as int]));
        assert(texts@.map_values(|t: Vec<char>| t@) =~= before.map_values(|t: Vec<char>| t@).push(
            t@,
        ));
        assert(ports@.take(i + 1).map_values(|p: PortSpec| port_text(p)) =~= ports@.take(
            i as int,
        ).map_values(|p: PortSpec| port_text(p)).push(port_text(ports@[i as int])));
        assert(texts@.map_values(|t: Vec<char>| t@) =~= ports@.take(i + 1).map_values(
            |p: PortSpec| port_text(p),
        ));
        i += 1;
    }
    assert(ports@.take(ports.len() as int) == ports@);
    let uniq = dedup_chars(texts);
    let sep = vec![',', ' '];
    let joined = join_chars(&uniq, &sep);
    string_of(&joined)
}

/// `s` without its leading `/` characters.
pub open spec fn strip_slashes(s: Seq<char>) -> Seq<char>
    decreases s.len(),
{
    if s.len() > 0 && s[0] == '/' {
        strip_slashes(s.drop_first())
    } else {
        s
    }
}

fn strip_slashes_exec(s: &str) -> (out: String)
    ensures
        out@ == strip_slashes(s@),
{
    let cs = chars_of(s);
    let mut k: usize = 0;
    assert(cs@.skip(0) == cs@);
    while k < cs.len() && cs[k] == '/'
        invariant
            k <= cs@.len(),
            strip_slashes(cs@) == strip_slashes(cs@.skip(k as int)),
        decreases cs.len() - k,
    {
        assert(cs@.skip(k as int).drop_first() == cs@.skip(k + 1));
        k += 1;
    }
    let rest = slice_chars(&cs, k, cs.len());
    assert(rest@ == cs@.skip(k as int));
    string_of(&rest)
}

/// Views of a row's fields: id, name, cells, and whether it is a header.
pub open spec fn row(it: Item) -> (Seq<char>, Seq<char>, Seq<Seq<char>>, bool) {
    (it.id@, it.name@, views_of(it.cells@), it.header)
}

/// Row for a container: short id, name without leading `/`, image without
/// digest, state, status and ports.
pub fn container_item(
    id: String,
    first_name: String,
    image: String,
    state: String,
    status: String,
    ports: &[PortSpec],
) -> (it: Item)
    ensures
        row(it) == (
            id@,
            strip_slashes(first_name@),
            seq![
                short_spec(id@),
                strip_slashes(first_name@),
                clean_image_spec(image@),
                state@,
                status@,
                ports_spec(ports@),
            ],
            false,
        ),
{
    let name = strip_slashes_exec(first_name.as_str());
    let mut cells: Vec<String> = Vec::new();
    assert(views_of(cells@) =~= Seq::<Seq<char>>::empty());
    push_str(&mut cells, short(id.as_str()));
    push_str(&mut cells, name.clone());
    push_str(&mut cells, clean_image(image.as_str()));
    push_str(&mut cells, state);
    push_str(&mut cells, status);
    push_str(&mut cells, fmt_ports(ports));
    let it = Item { id, name, cells, header: false };
    assert(views_of(it.cells@) =~= seq![
        short_spec(id@),
        strip_slashes(first_name@),
        clean_image_spec(image@),
        state@,
        status@,
        ports_spec(ports@),
    ]);
    it
}

/// The placeholder for a missing repository or tag.
pub open spec fn none_marker() -> Seq<char> {
    "<none>"@
}

/// Repository and tag of an image, split at the last `:` of its first tag;
/// `<none>` for both when there is no tag or it has no `:`.
pub open spec fn repo_tag_spec(first_tag: Option<Seq<char>>) -> (Seq<char>, Seq<char>) {
    match first_tag {
        Some(t) => split_last_colon(t),
        None => (none_marker(), none_marker()),
    }
}

/// `t` split at its last `:`; `<none>` for both parts when it has none.
pub open spec fn split_last_colon(t: Seq<char>) -> (Seq<char>, Seq<char>) {
    if exists|k: int| last_colon_at(t, k) {
        let c = choose|j: int| last_colon_at(t, j);
        (t.take(c), t.skip(c + 1))
    } else {
        (none_marker(), none_marker())
    }
}

/// Split of the first tag at its last `:`.
fn repo_tag(first_tag: Option<String>) -> (r: (String, String))
    ensures
        (r.0@, r.1@) == repo_tag_spec(opt_view(first_tag)),
{
    match first_tag {
        None => (lit("<none>"), lit("<none>")),
        Some(t) => {
            let cs = chars_of(t.as_str());
            let mut k: usize = cs.len();
            while k > 0 && cs[k - 1] != ':'
                invariant
                    k <= cs@.len(),
                    forall|j: int| k <= j < cs@.len() ==> cs@[j] != ':',
                decreases k,
            {
                k -= 1;
            }
            if k == 0 {
                assert(forall|kk: int| !last_colon_at(cs@, kk));
                (lit("<none>"), lit("<none>"))
            } else {
                proof {
                    assert(last_colon_at(cs@, k - 1));
                    let kk = choose|kk: int| last_colon_at(cs@, kk);
                    assert(kk == k - 1) by {
                        if kk < k - 1 {
                            assert(cs@[k - 1] == ':');
                        }
                        if kk > k - 1 {
                            assert(cs@[kk] != ':');
                        }
                    }
                }
                let repo = slice_chars(&cs, 0, k - 1);
                let tag = slice_chars(&cs, k, cs.len());
                assert(repo@ == cs@.take(k - 1));
                assert(tag@ == cs@.skip(k as int));
                (string_of(&repo), string_of(&tag))
            }
        },
    }
}

/// Row for an image: repository, tag, short id, size and age at `now`; the
/// row is named `repo:tag`.
pub fn image_item(id: String, first_tag: Option<String>, size: i64, created: i64, now: i64) -> (it: Item)
    requires
        i64::MIN <= now - created <= i64::MAX,
    ensures
        ({
            let (repo, tag) = repo_tag_spec(opt_view(first_tag));
            row(it) == (
                id@,
                repo + seq![':'] + tag,
                seq![repo, tag, short_spec(id@), human_size_spec(size as int), age_spec(now - created)],
                false,
            )
        }),
{
    let (repo, tag) = repo_tag(first_tag);
    let mut name = repo.clone();
    name.append(":");
    name.append(tag.as_str());
    assert(":"@ =~= seq![':']) by {
        reveal_strlit(":");
    }
    let mut cells: Vec<String> = Vec::new();
    assert(views_of(cells@) =~= Seq::<Seq<char>>::empty());
    push_str(&mut cells, repo);
    push_str(&mut cells, tag);
    push_str(&mut cells, short(id.as_str()));
    push_str(&mut cells, human_size(size));
    push_str(&mut cells, fmt_age(created, now));
    let it = Item { id, name, cells, header: false };
    it
}

/// How a swarm service is scheduled: replicated (with its replica count when
/// known), global, or neither.
#[derive(Clone, Copy, Debug, PartialEq, Eq, Structural)]
pub enum ServiceMode {
    Replicated(Option<i64>),
    Global,
    Unknown,
}

/// The MODE and REPLICAS cells of a service.
pub open spec fn mode_cells(m: ServiceMode) -> (Seq<char>, Seq<char>) {
    match m {
        ServiceMode::Replicated(Some(n)) => ("replicated"@, decimal_int(n as int)),
        ServiceMode::Replicated(None) => ("replicated"@, Seq::empty()),
        ServiceMode::Global => ("global"@, seq!['-']),
        ServiceMode::Unknown => (Seq::empty(), Seq::empty()),
    }
}

/// Published ports of a service: `published:target` for each port that is
/// published (target 0 when unknown).
pub open spec fn published_texts(ports: Seq<(Option<i64>, Option<i64>)>) -> Seq<Seq<char>>
    decreases ports.len(),
{
    if ports.len() == 0 {
        Seq::empty()
    } else {
        let rest = published_texts(ports.drop_last());
        match ports.last().0 {
            Some(p) => rest.push(
                decimal_int(p as int) + seq![':'] + decimal_int(
                    match ports.last().1 {
                        Some(t) => t as int,
                        None => 0,
                    },
                ),
            ),
            None => rest,
        }
    }
}

/// An optional image reference without its digest; empty when absent.
pub open spec fn opt_image(image: Option<Seq<char>>) -> Seq<char> {
    match image {
        Some(i) => clean_image_spec(i),
        None => Seq::empty(),
    }
}

fn opt_image_exec(image: Option<String>) -> (out: String)
    ensures
        out@ == opt_image(opt_view(image)),
{
    match image {
        Some(i) => clean_image(i.as_str()),
        None => String::new(),
    }
}

fn decimal_string(n: i64) -> (out: String)
    ensures
        out@ == decimal_int(n as int),
{
    let v = decimal_i64(n);
    string_of(&v)
}

/// Row for a swarm service: name, mode, replicas, image, published ports.
pub fn service_item(
    id: String,
    name: String,
    mode: ServiceMode,
    image: Option<String>,
    ports: &[(Option<i64>, Option<i64>)],
) -> (it: Item)
    ensures
        row(it) == (
            id@,
            name@,
            seq![
                name@,
                mode_cells(mode).0,
                mode_cells(mode).1,
                opt_image(opt_view(image)),
                join_spec(published_texts(ports@), comma_sep()),
            ],
            false,
        ),
{
    let (mode_s, replicas) = match mode {
        ServiceMode::Replicated(Some(n)) => (lit("replicated"), decimal_string(n)),
        ServiceMode::Replicated(None) => (lit("replicated"), String::new()),
        ServiceMode::Global => {
            let dash = vec!['-'];
            assert(dash@ == seq!['-']);
            (lit("global"), string_of(&dash))
        },
        ServiceMode::Unknown => (String::new(), String::new()),
    };
    assert((mode_s@, replicas@) == mode_cells(mode));
    let mut texts: Vec<Vec<char>> = Vec::new();
    let mut i: usize = 0;
    while i < ports.len()
        invariant
            i <= ports@.len(),
            texts@.map_values(|t: Vec<char>| t@) == published_texts(ports@.take(i as int)),
        decreases ports.len() - i,
    {
        proof {
            assert(ports@.take(i + 1).drop_last() == ports@.take(i as int));
            assert(ports@.take(i + 1).last() == ports@[i as int]);
        }
        let (published, target) = ports[i];
        if let Some(p) = published {
            let mut t = decimal_i64(p);
            t.push(':');
            let tv = decimal_i64(match target {
                Some(x) => x,
                None => 0,
            });
            let t = concat_chars(&t, &tv);
            assert(t@ == decimal_int(p as int) + seq![':'] + decimal_int(
                match target {
                    Some(x) => x as int,
                    None => 0,
                },
            ));
            let ghost before = texts@;
            texts.push(t);
            assert(texts@.map_values(|t: Vec<char>| t@) =~= before.map_values(|t: Vec<char>| t@).push(
                t@,
            ));
        }
        i += 1;
    }
    assert(ports@.take(ports.len() as int) == ports@);
    let sep = vec![',', ' '];
    let joined = join_chars(&texts, &sep);
    let mut cells: Vec<String> = Vec::new();
    assert(views_of(cells@) =~= Seq::<Seq<char>>::empty());
    push_str(&mut cells, name.clone());
    push_str(&mut cells, mode_s);
    push_str(&mut cells, replicas);
    push_str(&mut cells, opt_image_exec(image));
    push_str(&mut cells, string_of(&joined));
    let it = Item { id, name, cells, header: false };
    assert(views_of(it.cells@) =~= seq![
        name@,
        mode_cells(mode).0,
        mode_cells(mode).1,
        opt_image(opt_view(image)),
        join_spec(published_texts(ports@), comma_sep()),
    ]);
    it
}

/// The MANAGER cell of a node: `Leader`, `Reachable` for other managers,
/// empty for workers. `manager` is `Some(is_leader)` for a manager.
pub open spec fn manager_text(manager: Option<bool>) -> Seq<char> {
    match manager {
        Some(true) => "Leader"@,
        Some(false) => "Reachable"@,
        None => Seq::empty(),
    }
}

/// Row for a swarm node, named by its hostname.
pub fn node_item(
    id: String,
    hostname: String,
    status: String,
    availability: String,
    manager: Option<bool>,
    engine: String,
) -> (it: Item)
    ensures
        row(it) == (
            id@,
            hostname@,
            seq![hostname@, status@, availability@, manager_text(manager), engine@],
            false,
        ),
{
    let m = match manager {
        Some(true) => lit("Leader"),
        Some(false) => lit("Reachable"),
        None => String::new(),
    };
    let mut cells: Vec<String> = Vec::new();
    assert(views_of(cells@) =~= Seq::<Seq<char>>::empty());
    push_str(&mut cells, hostname.clone());
    push_str(&mut cells, status);
    push_str(&mut cells, availability);
    push_str(&mut cells, m);
    push_str(&mut cells, engine);
    Item { id, name: hostname, cells, header: false }
}

/// The hostname recorded for node `id` in `nodes`: the first entry with that
/// id.
pub open spec fn node_lookup(nodes: Seq<(String, String)>, id: Seq<char>) -> Option<Seq<char>>
    decreases nodes.len(),
{
    if nodes.len() == 0 {
        None
    } else if nodes[0].0@ == id {
        Some(nodes[0].1@)
    } else {
        node_lookup(nodes.drop_first(), id)
    }
}

fn find_node(nodes: &[(String, String)], id: &String) -> (r: Option<String>)
    ensures
        opt_view(r) == node_lookup(nodes@, id@),
{
    let mut i: usize = 0;
    assert(nodes@.skip(0) == nodes@);
    while i < nodes.len()
        invariant
            i <= nodes@.len(),
            node_lookup(nodes@, id@) == node_lookup(nodes@.skip(i as int), id@),
        decreases nodes.len() - i,
    {
        assert(nodes@.skip(i as int)[0] == nodes@[i as int]);
        if nodes[i].0 == *id {
            return Some(nodes[i].1.clone());
        }
        assert(nodes@.skip(i as int).drop_first() == nodes@.skip(i + 1));
        i += 1;
    }
    None
}

/// The name shown for a task: its own name when non-empty, else
/// `service.slot`, else (no slot) its short id.
pub open spec fn task_name_spec(service: Seq<char>, id: Seq<char>, name: Option<Seq<char>>, slot: Option<i64>) -> Seq<char> {
    match name {
        Some(n) if n.len() > 0 => n,
        _ => match slot {
            Some(s) => service + seq!['.'] + decimal_int(s as int),
            None => short_spec(id),
        },
    }
}

/// Row for a task of service `service`: name, node hostname (else the node's
/// short id), desired state, current state, image, error.
pub fn task_item(
    service: &str,
    id: String,
    name: Option<String>,
    slot: Option<i64>,
    node_id: String,
    nodes: &[(String, String)],
    desired: String,
    current: String,
    err: String,
    image: Option<String>,
) -> (it: Item)
    ensures
        ({
            let n = task_name_spec(service@, id@, opt_view(name), slot);
            row(it) == (
                id@,
                n,
                seq![
                    n,
                    match node_lookup(nodes@, node_id@) {
                        Some(h) => h,
                        None => short_spec(node_id@),
                    },
                    desired@,
                    current@,
                    opt_image(opt_view(image)),
                    err@,
                ],
                false,
            )
        }),
{
    let ghost nv = opt_view(name);
    let shown: String = match name {
        Some(n) if n.as_str().unicode_len() > 0 => n,
        _ => match slot {
            Some(sl) => {
                let mut t = lit(service);
                t.append(".");
                let d = decimal_string(sl);
                t.append(d.as_str());
                assert("."@ =~= seq!['.']) by {
                    reveal_strlit(".");
                }
                t
            },
            None => short(id.as_str()),
        },
    };
    assert(shown@ == task_name_spec(service@, id@, nv, slot));
    let node = match find_node(nodes, &node_id) {
        Some(h) => h,
        None => short(node_id.as_str()),
    };
    let mut cells: Vec<String> = Vec::new();
    assert(views_of(cells@) =~= Seq::<Seq<char>>::empty());
    push_str(&mut cells, shown.clone());
    push_str(&mut cells, node);
    push_str(&mut cells, desired);
    push_str(&mut cells, current);
    push_str(&mut cells, opt_image_exec(image));
    push_str(&mut cells, err);
    Item { id, name: shown, cells, header: false }
}

/// Row for a volume, identified by its name: name, driver, size and mount
/// point. The size is `?` until the engine's disk usage is taken in.
pub fn volume_item(name: String, driver: String, mountpoint: String) -> (it: Item)
    ensures
        row(it) == (name@, name@, seq![name@, driver@, "?"@, mountpoint@], false),
{
    let mut cells: Vec<String> = Vec::new();
    assert(views_of(cells@) =~= Seq::<Seq<char>>::empty());
    push_str(&mut cells, name.clone());
    push_str(&mut cells, driver);
    push_str(&mut cells, lit("?"));
    push_str(&mut cells, mountpoint);
    Item { id: name.clone(), name, cells, header: false }
}

/// Row for a network: name, driver, scope, short id.
pub fn network_item(id: String, name: String, driver: String, scope: String) -> (it: Item)
    ensures
        row(it) == (id@, name@, seq![name@, driver@, scope@, short_spec(id@)], false),
{
    let mut cells: Vec<String> = Vec::new();
    assert(views_of(cells@) =~= Seq::<Seq<char>>::empty());
    push_str(&mut cells, name.clone());
    push_str(&mut cells, driver);
    push_str(&mut cells, scope);
    push_str(&mut cells, short(id.as_str()));
    Item { id, name, cells, header: false }
}

/// Row for a context; the first cell marks the current context with `●`.
pub fn context_item(c: DockerContext, current: &str) -> (it: Item)
    ensures
        row(it) == (
            c.name@,
            c.name@,
            seq![
                if c.name@ == current@ {
                    seq!['●']
                } else {
                    seq![' ']
                },
                c.name@,
                c.description@,
                c.host@,
            ],
            false,
        ),
{
    let is_current = c.name == lit(current);
    let mark = if is_current {
        let m = vec!['●'];
        assert(m@ == seq!['●']);
        string_of(&m)
    } else {
        let m = vec![' '];
        assert(m@ == seq![' ']);
        string_of(&m)
    };
    let mut cells: Vec<String> = Vec::new();
    assert(views_of(cells@) =~= Seq::<Seq<char>>::empty());
    push_str(&mut cells, mark);
    push_str(&mut cells, c.name.clone());
    push_str(&mut cells, c.description);
    push_str(&mut cells, c.host);
    let it = Item { id: c.name.clone(), name: c.name, cells, header: false };
    assert(views_of(it.cells@) =~= seq![
        if c.name@ == current@ {
            seq!['●']
        } else {
            seq![' ']
        },
        c.name@,
        c.description@,
        c.host@,
    ]);
    it
}

/// What scaling a replicated service by `delta` does: the version to update
/// at, the current and the new replica count (never below 0).
#[derive(Clone, Copy, Debug, PartialEq, Eq, Structural)]
pub struct ScalePlan {
    pub version: i32,
    pub current: i64,
    pub next: i64,
}

/// Plan a scale of a service from what its inspection holds: its version
/// index, whether it has a spec, and its replica count when it is replicated
/// (`Some(None)`: replicated with no count, taken as 0). The errors are those
/// of a service that cannot be scaled.
pub fn plan_scale(
    version: Option<u64>,
    has_spec: bool,
    replicated: Option<Option<i64>>,
    delta: i64,
) -> (r: Result<ScalePlan, String>)
    requires
        version is Some && has_spec ==> (replicated matches Some(Some(n)) ==> i64::MIN <= n + delta
            <= i64::MAX),
    ensures
        version is None ==> (r matches Err(e) && e@ == "service has no version"@),
        version is Some && !has_spec ==> (r matches Err(e) && e@ == "service has no spec"@),
        version is Some && has_spec && replicated is None ==> (r matches Err(e) && e@
            == "not a replicated service"@),
        version is Some && has_spec && replicated is Some ==> (r matches Ok(p) && p.version
            == (version->0 as i32) && p.current == (match replicated->0 {
            Some(n) => n,
            None => 0,
        }) && p.next == (if p.current + delta < 0 {
            0
        } else {
            p.current + delta
        })),
{
    let v = match version {
        Some(v) => v,
        None => return Err(lit("service has no version")),
    };
    if !has_spec {
        return Err(lit("service has no spec"));
    }
    let cur = match replicated {
        Some(Some(n)) => n,
        Some(None) => 0,
        None => return Err(lit("not a replicated service")),
    };
    let sum = cur + delta;
    let next = if sum < 0 {
        0
    } else {
        sum
    };
    Ok(ScalePlan { version: v as i32, current: cur, next })
}

/// Report of a scale: `scaled NAME: CUR -> NEXT`.
pub fn scale_message(name: &str, current: i64, next: i64) -> (out: String)
    ensures
        out@ == "scaled "@ + name@ + ": "@ + decimal_int(current as int) + " -> "@ + decimal_int(
            next as int,
        ),
{
    let mut s = lit("scaled ");
    s.append(name);
    s.append(": ");
    let c = decimal_string(current);
    s.append(c.as_str());
    s.append(" -> ");
    let n = decimal_string(next);
    s.append(n.as_str());
    s
}

/// Report of an image prune: how many images were deleted and the space
/// reclaimed.
pub fn prune_message(deleted: usize, reclaimed: i64) -> (out: String)
    ensures
        out@ == "pruned "@ + decimal(deleted as nat) + " image(s), reclaimed "@ + human_size_spec(
            reclaimed as int,
        ),
{
    let mut s = lit("pruned ");
    let d = decimal_u64(deleted as u64);
    let ds = string_of(&d);
    s.append(ds.as_str());
    s.append(" image(s), reclaimed ");
    let h = human_size(reclaimed);
    s.append(h.as_str());
    s
}

/// Report of a system prune: how many containers, networks and images were
/// removed and the space reclaimed.
pub fn sysprune_message(containers: usize, networks: usize, images: usize, reclaimed: i64) -> (out: String)
    ensures
        out@ == "system prune: removed "@ + decimal(containers as nat) + " container(s), "@ + decimal(
            networks as nat,
        ) + " network(s), "@ + decimal(images as nat) + " image(s); reclaimed "@ + human_size_spec(
            reclaimed as int,
        ),
{
    let mut s = lit("system prune: removed ");
    s.append(string_of(&decimal_u64(containers as u64)).as_str());
    s.append(" container(s), ");
    s.append(string_of(&decimal_u64(networks as u64)).as_str());
    s.append(" network(s), ");
    s.append(string_of(&decimal_u64(images as u64)).as_str());
    s.append(" image(s); reclaimed ");
    s.append(human_size(reclaimed).as_str());
    s
}

proof fn lemma_pow1024_values()
    ensures
        pow1024(0) == 1,
        pow1024(1) == 1024,
        pow1024(2) == 1048576,
        pow1024(3) == 1073741824,
        pow1024(4) == 1099511627776,
{
    reveal_with_fuel(pow1024, 5);
}

fn push_unit(v: &mut Vec<char>, i: u64)
    requires
        i <= 4,
    ensures
        final(v)@ == old(v)@ + unit_name(i as nat),
{
    if i == 0 {
        v.push('B');
    } else {
        if i == 1 {
            v.push('K');
        } else if i == 2 {
            v.push('M');
        } else if i == 3 {
            v.push('G');
        } else {
            v.push('T');
        }
        v.push('B');
    }
    assert(v@ =~= old(v)@ + unit_name(i as nat));
}

/// Render a byte count for display, e.g. `900B`, `1.5GB`.
pub fn human_size(bytes: i64) -> (out: String)
    ensures
        out@ == human_size_spec(bytes as int),
{
    if bytes < 1024 {
        let mut v = decimal_i64(bytes);
        push_unit(&mut v, 0);
        return string_of(&v);
    }
    let f = to_f64_int(bytes as u64);
    proof {
        lemma_pow1024_values();
    }
    let (i, den): (u64, u64) = if f >= 1099511627776 {
        (4, 1099511627776)
    } else if f >= 1073741824 {
        (3, 1073741824)
    } else if f >= 1048576 {
        (2, 1048576)
    } else {
        (1, 1024)
    };
    assert(i == unit_index(f as nat) && den == pow1024(i as nat));
    let t128 = round_half_even_u128(10 * (f as u128), den as u128);
    proof {
        let n = 10 * (f as int);
        let d = den as int;
        assert(t128 <= n / d + 1);
        assert(n / d <= n / 1024) by (nonlinear_arith)
            requires d >= 1024, n >= 0;
        assert(n / 1024 <= 10 * 0x8000_0000_0000_0000 / 1024) by (nonlinear_arith)
            requires n <= 10 * 0x8000_0000_0000_0000;
    }
    let t = t128 as u64;
    let mut v = decimal_u64(t / 10);
    v.push('.');
    v.push(digit(t % 10));
    push_unit(&mut v, i);
    string_of(&v)
}

} // verus!
