//! Release planning for a cargo workspace: which packages are published, in which order,
//! and with which `cargo` command.
use vstd::prelude::*;
use crate::graph::{
    is_topological_order, lemma_full_schedule_is_topological, lemma_short_schedule_means_cycle,
    placed_before, schedule, schedule_nodes, unplaced, unplaced_dependencies,
};
use crate::text::{join_seq, join_strings, string_views, contains_seq, contains_str};

verus! {

/// The kind of a dependency edge, as cargo reports it.
#[derive(Clone, Copy, Debug, PartialEq, Eq, Structural)]
pub enum DependencyKind {
    Normal,
    Development,
    Build,
    Unknown,
}

/// One dependency of a package: the name of the package it refers to, and its kind.
pub struct DependencyInfo {
    pub name: String,
    pub kind: DependencyKind,
}

/// What release planning reads of a package of the workspace metadata.
pub struct PackageInfo {
    /// The opaque package id that cargo assigns.
    pub id: String,
    pub name: String,
    pub version: String,
    pub dependencies: Vec<DependencyInfo>,
    /// The registries the package may be published to; `None` for any registry.
    pub publish: Option<Vec<String>>,
}

/// A package to publish.
#[derive(Clone, Debug, PartialEq, Eq)]
pub struct ReleasePackage {
    pub id: String,
    pub name: String,
    pub version: String,
}

/// A package that release planning could not place, with the unplaced packages it waits on.
#[derive(Clone, Debug, PartialEq, Eq)]
pub struct BlockedPackage {
    pub name: String,
    pub waits_on: Vec<String>,
}

/// Why a release plan could not be made.
#[derive(Clone, Debug, PartialEq, Eq)]
pub enum ReleaseError {
    /// The publishable packages depend on each other in a cycle.
    DependencyCycle { blocked: Vec<BlockedPackage> },
    /// `--from` named a package that is not part of the release.
    UnknownPackage { name: String, expected: Vec<String> },
}

/// A package may be published unless its `publish` list is empty.
pub open spec fn spec_is_publishable(publish: Option<Vec<String>>) -> bool {
    match publish {
        None => true,
        Some(registries) => registries.len() > 0,
    }
}

/// The index of the last of the first `end` packages whose id is `id`.
pub open spec fn last_with_id(pkgs: Seq<PackageInfo>, id: Seq<char>, end: int) -> Option<usize>
    decreases end,
{
    if end <= 0 {
        None
    } else if pkgs[end - 1].id@ == id {
        Some((end - 1) as usize)
    } else {
        last_with_id(pkgs, id, end - 1)
    }
}

/// The publishable workspace members, as package indices in member order, each once.
pub open spec fn publishable_members(pkgs: Seq<PackageInfo>, members: Seq<String>) -> Seq<usize>
    decreases members.len(),
{
    if members.len() == 0 {
        seq![]
    } else {
        let prev = publishable_members(pkgs, members.drop_last());
        match last_with_id(pkgs, members.last()@, pkgs.len() as int) {
            Some(i) => if spec_is_publishable(pkgs[i as int].publish) && !prev.contains(i) {
                prev.push(i)
            } else {
                prev
            },
            None => prev,
        }
    }
}

/// The last of the first `end` release positions whose package is named `name`.
pub open spec fn node_named(pkgs: Seq<PackageInfo>, nodes: Seq<usize>, name: Seq<char>, end: int) -> Option<usize>
    decreases end,
{
    if end <= 0 {
        None
    } else if pkgs[nodes[end - 1] as int].name@ == name {
        Some((end - 1) as usize)
    } else {
        node_named(pkgs, nodes, name, end - 1)
    }
}

/// The release positions that the non-development dependencies `deps` name, in order.
pub open spec fn dependency_nodes(pkgs: Seq<PackageInfo>, nodes: Seq<usize>, deps: Seq<DependencyInfo>) -> Seq<usize>
    decreases deps.len(),
{
    if deps.len() == 0 {
        seq![]
    } else {
        let prev = dependency_nodes(pkgs, nodes, deps.drop_last());
        if deps.last().kind == DependencyKind::Development {
            prev
        } else {
            match node_named(pkgs, nodes, deps.last().name@, nodes.len() as int) {
                Some(q) => prev.push(q),
                None => prev,
            }
        }
    }
}

/// The dependency graph among release positions: entry `p` lists the positions that the
/// package at position `p` depends on outside development.
pub open spec fn release_graph(pkgs: Seq<PackageInfo>, nodes: Seq<usize>) -> Seq<Seq<usize>> {
    Seq::new(
        nodes.len(),
        |p: int| dependency_nodes(pkgs, nodes, pkgs[nodes[p] as int].dependencies@),
    )
}

/// `r` names the package `pkg`.
pub open spec fn release_entry_of(r: ReleasePackage, pkg: PackageInfo) -> bool {
    &&& r.id@ == pkg.id@
    &&& r.name@ == pkg.name@
    &&& r.version@ == pkg.version@
}

/// `b` reports the unplaced position `p` of a schedule `s` of `g` and the unplaced
/// positions it waits on, by their package names.
pub open spec fn blocked_entry_of(
    b: BlockedPackage,
    pkgs: Seq<PackageInfo>,
    nodes: Seq<usize>,
    g: Seq<Seq<usize>>,
    s: Seq<usize>,
    p: usize,
) -> bool {
    let w = unplaced_dependencies(g, s, p as int, nodes.len());
    &&& b.name@ == pkgs[nodes[p as int] as int].name@
    &&& b.waits_on@.len() == w.len()
    &&& forall|t: int| 0 <= t < w.len() ==> #[trigger] b.waits_on@[t]@ == pkgs[nodes[w[t] as int] as int].name@
}

/// The packages of a release in publishing order: the publishable workspace members,
/// each after the members it depends on outside development, the lowest member first
/// whenever several are free to go; or, when that order cannot place them all, the
/// members left over with what they wait on.
pub open spec fn release_order_result(
    pkgs: Seq<PackageInfo>,
    members: Seq<String>,
    r: Result<Vec<ReleasePackage>, ReleaseError>,
) -> bool {
    let nodes = publishable_members(pkgs, members);
    let g = release_graph(pkgs, nodes);
    let s = schedule(g);
    match r {
        Ok(v) => {
            &&& s.len() == nodes.len()
            &&& v@.len() == s.len()
            &&& forall|i: int| 0 <= i < s.len() ==> release_entry_of(
                #[trigger] v@[i],
                pkgs[nodes[s[i] as int] as int],
            )
        },
        Err(ReleaseError::DependencyCycle { blocked }) => {
            let u = unplaced(s, nodes.len());
            &&& s.len() < nodes.len()
            &&& blocked@.len() == u.len()
            &&& forall|k: int| 0 <= k < u.len() ==> blocked_entry_of(#[trigger] blocked@[k], pkgs, nodes, g, s, u[k])
        },
        Err(ReleaseError::UnknownPackage { .. }) => false,
    }
}

/// Whether `package` may be published: it is unless its list of registries is empty.
pub fn is_publishable(package: &PackageInfo) -> (r: bool)
    ensures
        r == spec_is_publishable(package.publish),
{
    match &package.publish {
        None => true,
        Some(registries) => registries.len() > 0,
    }
}

/// The index of the last package whose id is `id`.
fn find_package(pkgs: &Vec<PackageInfo>, id: &String) -> (r: Option<usize>)
    ensures
        r == last_with_id(pkgs@, id@, pkgs@.len() as int),
{
    let mut found: Option<usize> = None;
    let mut i: usize = 0;
    while i < pkgs.len()
        invariant
            i <= pkgs@.len(),
            found == last_with_id(pkgs@, id@, i as int),
        decreases pkgs@.len() - i,
    {
        if pkgs[i].id == *id {
            found = Some(i);
        }
        i = i + 1;
    }
    found
}

/// Whether `v` holds `x`.
fn vec_contains(v: &Vec<usize>, x: usize) -> (r: bool)
    ensures
        r == v@.contains(x),
{
    let mut i: usize = 0;
    while i < v.len()
        invariant
            i <= v@.len(),
            forall|k: int| 0 <= k < i ==> v@[k] != x,
        decreases v@.len() - i,
    {
        if v[i] == x {
            assert(v@[i as int] == x);
            return true;
        }
        i = i + 1;
    }
    false
}

/// The publishable workspace members, as package indices.
fn publishable_nodes(pkgs: &Vec<PackageInfo>, members: &Vec<String>) -> (r: Vec<usize>)
    ensures
        r@ == publishable_members(pkgs@, members@),
        forall|k: int| 0 <= k < r@.len() ==> #[trigger] r@[k] < pkgs@.len(),
{
    let mut nodes: Vec<usize> = Vec::new();
    let mut i: usize = 0;
    let plen = pkgs.len();
    assert(members@.take(0) =~= Seq::<String>::empty());
    while i < members.len()
        invariant
            i <= members@.len(),
            nodes@ == publishable_members(pkgs@, members@.take(i as int)),
            pkgs@.len() <= usize::MAX,
            forall|k: int| 0 <= k < nodes@.len() ==> #[trigger] nodes@[k] < pkgs@.len(),
        decreases members@.len() - i,
    {
        assert(members@.take(i + 1).drop_last() =~= members@.take(i as int));
        assert(members@.take(i + 1).last() == members@[i as int]);
        let found = find_package(pkgs, &members[i]);
        proof {
            lemma_last_with_id_bounds(pkgs@, members@[i as int]@, pkgs@.len() as int);
        }
        match found {
            Some(p) => {
                if is_publishable(&pkgs[p]) && !vec_contains(&nodes, p) {
                    nodes.push(p);
                }
            },
            None => {},
        }
        i = i + 1;
    }
    assert(members@.take(members@.len() as int) =~= members@);
    nodes
}

/// An index reported by `last_with_id` is below its end bound.
proof fn lemma_last_with_id_bounds(pkgs: Seq<PackageInfo>, id: Seq<char>, end: int)
    requires
        end <= pkgs.len(),
        pkgs.len() <= usize::MAX,
    ensures
        last_with_id(pkgs, id, end) matches Some(i) ==> i < end && pkgs[i as int].id@ == id,
    decreases end,
{
    if end > 0 && pkgs[end - 1].id@ != id {
        lemma_last_with_id_bounds(pkgs, id, end - 1);
    }
}

/// A position reported by `node_named` is below its end bound.
proof fn lemma_node_named_bounds(pkgs: Seq<PackageInfo>, nodes: Seq<usize>, name: Seq<char>, end: int)
    requires
        end <= nodes.len(),
    ensures
        node_named(pkgs, nodes, name, end) matches Some(q) ==> q < end,
    decreases end,
{
    if end > 0 && pkgs[nodes[end - 1] as int].name@ != name {
        lemma_node_named_bounds(pkgs, nodes, name, end - 1);
    }
}

/// The last release position whose package is named `name`.
fn find_node_named(pkgs: &Vec<PackageInfo>, nodes: &Vec<usize>, name: &String) -> (r: Option<usize>)
    requires
        forall|k: int| 0 <= k < nodes@.len() ==> #[trigger] nodes@[k] < pkgs@.len(),
    ensures
        r == node_named(pkgs@, nodes@, name@, nodes@.len() as int),
{
    let mut found: Option<usize> = None;
    let mut q: usize = 0;
    while q < nodes.len()
        invariant
            q <= nodes@.len(),
            forall|k: int| 0 <= k < nodes@.len() ==> #[trigger] nodes@[k] < pkgs@.len(),
            found == node_named(pkgs@, nodes@, name@, q as int),
        decreases nodes@.len() - q,
    {
        if pkgs[nodes[q]].name == *name {
            found = Some(q);
        }
        q = q + 1;
    }
    found
}

/// The dependency graph among release positions.
fn build_release_graph(pkgs: &Vec<PackageInfo>, nodes: &Vec<usize>) -> (adj: Vec<Vec<usize>>)
    requires
        forall|k: int| 0 <= k < nodes@.len() ==> #[trigger] nodes@[k] < pkgs@.len(),
    ensures
        adj.deep_view() == release_graph(pkgs@, nodes@),
        forall|p: int, k: int|
            0 <= p < adj@.len() && 0 <= k < adj@[p]@.len() ==> #[trigger] adj@[p]@[k] < nodes@.len(),
{
    let ghost g = release_graph(pkgs@, nodes@);
    let mut adj: Vec<Vec<usize>> = Vec::new();
    let mut p: usize = 0;
    while p < nodes.len()
        invariant
            p <= nodes@.len(),
            g == release_graph(pkgs@, nodes@),
            forall|k: int| 0 <= k < nodes@.len() ==> #[trigger] nodes@[k] < pkgs@.len(),
            adj@.len() == p,
            forall|t: int| 0 <= t < p ==> #[trigger] adj@[t]@ == g[t],
            forall|t: int, k: int|
                0 <= t < adj@.len() && 0 <= k < adj@[t]@.len() ==> #[trigger] adj@[t]@[k] < nodes@.len(),
        decreases nodes@.len() - p,
    {
        let deps = &pkgs[nodes[p]].dependencies;
        let mut row: Vec<usize> = Vec::new();
        let mut d: usize = 0;
        assert(deps@.take(0) =~= Seq::<DependencyInfo>::empty());
        while d < deps.len()
            invariant
                d <= deps@.len(),
                forall|k: int| 0 <= k < nodes@.len() ==> #[trigger] nodes@[k] < pkgs@.len(),
                row@ == dependency_nodes(pkgs@, nodes@, deps@.take(d as int)),
                forall|k: int| 0 <= k < row@.len() ==> #[trigger] row@[k] < nodes@.len(),
            decreases deps@.len() - d,
        {
            assert(deps@.take(d + 1).drop_last() =~= deps@.take(d as int));
            assert(deps@.take(d + 1).last() == deps@[d as int]);
            match deps[d].kind {
                DependencyKind::Development => {},
                _ => {
                    let found = find_node_named(pkgs, nodes, &deps[d].name);
                    proof {
                        lemma_node_named_bounds(pkgs@, nodes@, deps@[d as int].name@, nodes@.len() as int);
                    }
                    match found {
                        Some(q) => {
                            row.push(q);
                        },
                        None => {},
                    }
                },
            }
            d = d + 1;
        }
        assert(deps@.take(deps@.len() as int) =~= deps@);
        adj.push(row);
        p = p + 1;
    }
    assert(adj.deep_view() =~= g) by {
        assert forall|t: int| 0 <= t < adj@.len() implies adj.deep_view()[t] == g[t] by {
            assert(adj.deep_view()[t] =~= adj@[t]@);
        }
    }
    adj
}

/// The publishing order of the publishable workspace members of `packages`, taken in the
/// order of `workspace_members` (package ids): every package comes after the packages it
/// depends on outside development, and whenever several packages are free to go, the one
/// listed first among the members goes first. When the members depend on each other in a
/// cycle, the error lists each package left over with the left-over packages it waits on.
pub fn release_order(packages: &Vec<PackageInfo>, workspace_members: &Vec<String>) -> (r: Result<Vec<ReleasePackage>, ReleaseError>)
    ensures
        release_order_result(packages@, workspace_members@, r),
{
    let nodes = publishable_nodes(packages, workspace_members);
    let adj = build_release_graph(packages, &nodes);
    let ghost g = adj.deep_view();
    let order = schedule_nodes(&adj);
    let n = nodes.len();
    proof {
        crate::graph::lemma_schedule_respects_dependencies(g);
    }
    if order.len() == n {
        let mut out: Vec<ReleasePackage> = Vec::new();
        let mut i: usize = 0;
        while i < order.len()
            invariant
                n == nodes@.len(),
                order@.len() == n,
                forall|k: int| 0 <= k < nodes@.len() ==> #[trigger] nodes@[k] < packages@.len(),
                forall|k: int| 0 <= k < order@.len() ==> #[trigger] order@[k] < n,
                i <= n,
                out@.len() == i,
                forall|k: int| 0 <= k < i ==> release_entry_of(
                    #[trigger] out@[k],
                    packages@[nodes@[order@[k] as int] as int],
                ),
            decreases n - i,
        {
            let pkg = &packages[nodes[order[i]]];
            out.push(
                ReleasePackage {
                    id: pkg.id.clone(),
                    name: pkg.name.clone(),
                    version: pkg.version.clone(),
                },
            );
            i = i + 1;
        }
        Ok(out)
    } else {
        let mut placed: Vec<bool> = Vec::new();
        let mut z: usize = 0;
        while z < n
            invariant
                z <= n,
                placed@.len() == z,
                forall|q: int| 0 <= q < z ==> placed@[q] == order@.contains(q as usize),
            decreases n - z,
        {
            placed.push(vec_contains(&order, z));
            z = z + 1;
        }
        let ghost s = order@;
        let mut blocked: Vec<BlockedPackage> = Vec::new();
        let mut p: usize = 0;
        while p < n
            invariant
                n == nodes@.len(),
                g.len() == n,
                g == adj.deep_view(),
                adj@.len() == n,
                placed@.len() == n,
                forall|q: int| 0 <= q < n ==> placed@[q] == s.contains(q as usize),
                forall|k: int| 0 <= k < nodes@.len() ==> #[trigger] nodes@[k] < packages@.len(),
                p <= n,
                blocked@.len() == unplaced(s, p as nat).len(),
                forall|k: int| 0 <= k < blocked@.len() ==> blocked_entry_of(
                    #[trigger] blocked@[k],
                    packages@,
                    nodes@,
                    g,
                    s,
                    unplaced(s, p as nat)[k],
                ),
                forall|k: int| 0 <= k < unplaced(s, p as nat).len() ==> #[trigger] unplaced(s, p as nat)[k] < p,
            decreases n - p,
        {
            if !placed[p] {
                let mut waits_on: Vec<String> = Vec::new();
                let mut q: usize = 0;
                let row = &adj[p];
                assert(g[p as int] == row@);
                while q < n
                    invariant
                        n == nodes@.len(),
                        placed@.len() == n,
                        forall|t: int| 0 <= t < n ==> placed@[t] == s.contains(t as usize),
                        forall|k: int| 0 <= k < nodes@.len() ==> #[trigger] nodes@[k] < packages@.len(),
                        g[p as int] == row@,
                        q <= n,
                        waits_on@.len() == unplaced_dependencies(g, s, p as int, q as nat).len(),
                        forall|t: int| 0 <= t < waits_on@.len() ==> #[trigger] waits_on@[t]@
                            == packages@[nodes@[unplaced_dependencies(g, s, p as int, q as nat)[t] as int] as int].name@,
                        forall|t: int| 0 <= t < unplaced_dependencies(g, s, p as int, q as nat).len() ==> #[trigger] unplaced_dependencies(g, s, p as int, q as nat)[t] < q,
                    decreases n - q,
                {
                    if !placed[q] && vec_contains(row, q) {
                        waits_on.push(packages[nodes[q]].name.clone());
                    }
                    q = q + 1;
                }
                blocked.push(BlockedPackage { name: packages[nodes[p]].name.clone(), waits_on });
            }
            p = p + 1;
        }
        Err(ReleaseError::DependencyCycle { blocked })
    }
}

/// A release plan that succeeds places every publishable workspace member, once, after
/// every member it depends on outside development.
pub proof fn lemma_release_order_is_topological(pkgs: Seq<PackageInfo>, members: Seq<String>)
    requires
        pkgs.len() <= usize::MAX,
        members.len() <= usize::MAX,
        schedule(release_graph(pkgs, publishable_members(pkgs, members))).len()
            == publishable_members(pkgs, members).len(),
    ensures
        is_topological_order(
            release_graph(pkgs, publishable_members(pkgs, members)),
            schedule(release_graph(pkgs, publishable_members(pkgs, members))),
        ),
{
    let nodes = publishable_members(pkgs, members);
    lemma_publishable_members_shape(pkgs, members);
    lemma_full_schedule_is_topological(release_graph(pkgs, nodes));
}

/// A release plan fails only when no order of the publishable members can place each after
/// the members it depends on: their dependencies hold a cycle.
pub proof fn lemma_release_order_fails_only_on_cycles(
    pkgs: Seq<PackageInfo>,
    members: Seq<String>,
    order: Seq<usize>,
)
    requires
        pkgs.len() <= usize::MAX,
        members.len() <= usize::MAX,
        schedule(release_graph(pkgs, publishable_members(pkgs, members))).len()
            < publishable_members(pkgs, members).len(),
    ensures
        !is_topological_order(release_graph(pkgs, publishable_members(pkgs, members)), order),
{
    let nodes = publishable_members(pkgs, members);
    lemma_publishable_members_shape(pkgs, members);
    lemma_short_schedule_means_cycle(release_graph(pkgs, nodes), order);
}

/// Each package released is a distinct publishable workspace member.
pub proof fn lemma_publishable_members_shape(pkgs: Seq<PackageInfo>, members: Seq<String>)
    requires
        pkgs.len() <= usize::MAX,
    ensures
        publishable_members(pkgs, members).no_duplicates(),
        publishable_members(pkgs, members).len() <= members.len(),
        forall|k: int|
            0 <= k < publishable_members(pkgs, members).len() ==> {
                let i = #[trigger] publishable_members(pkgs, members)[k];
                &&& i < pkgs.len()
                &&& spec_is_publishable(pkgs[i as int].publish)
                &&& exists|m: int| 0 <= m < members.len() && last_with_id(pkgs, members[m]@, pkgs.len() as int) == Some(i)
            },
    decreases members.len(),
{
    if members.len() > 0 {
        let prev = publishable_members(pkgs, members.drop_last());
        lemma_publishable_members_shape(pkgs, members.drop_last());
        lemma_last_with_id_bounds(pkgs, members.last()@, pkgs.len() as int);
        let r = publishable_members(pkgs, members);
        assert forall|k: int| 0 <= k < r.len() implies {
            let i = #[trigger] r[k];
            &&& i < pkgs.len()
            &&& spec_is_publishable(pkgs[i as int].publish)
            &&& exists|m: int| 0 <= m < members.len() && last_with_id(pkgs, members[m]@, pkgs.len() as int) == Some(i)
        } by {
            if k < prev.len() {
                assert(r[k] == prev[k]);
                let m = choose|m: int| 0 <= m < members.drop_last().len() && last_with_id(pkgs, members.drop_last()[m]@, pkgs.len() as int) == Some(prev[k]);
                assert(members.drop_last()[m] == members[m]);
            } else {
                assert(members.last() == members[members.len() - 1]);
            }
        }
        match last_with_id(pkgs, members.last()@, pkgs.len() as int) {
            Some(i) => {
                if spec_is_publishable(pkgs[i as int].publish) && !prev.contains(i) {
                    assert forall|a: int, b: int| 0 <= a < r.len() && 0 <= b < r.len() && a != b implies r[a] != r[b] by {
                        if a < prev.len() && b < prev.len() {
                            assert(r[a] == prev[a] && r[b] == prev[b]);
                        } else if a < prev.len() {
                            assert(r[a] == prev[a]);
                        } else if b < prev.len() {
                            assert(r[b] == prev[b]);
                        }
                    }
                }
            },
            None => {},
        }
    }
}

/// Options of a workspace publish run.
#[derive(Clone, Debug)]
pub struct PublishOptions {
    pub execute: bool,
    pub from: Option<String>,
    pub registry: Option<String>,
    pub allow_dirty: bool,
    pub skip_verify: bool,
    pub include_dev_deps: bool,
    pub skip_existing: bool,
    pub retries: u32,
    pub retry_delay_seconds: u64,
}

impl PublishOptions {
    /// Options for a run that uploads only when `execute` is set, with three retries twenty
    /// seconds apart and every other option off.
    pub fn new(execute: bool) -> (r: Self)
        ensures
            r == (PublishOptions {
                execute,
                from: None,
                registry: None,
                allow_dirty: false,
                skip_verify: false,
                include_dev_deps: false,
                skip_existing: false,
                retries: 3,
                retry_delay_seconds: 20,
            }),
    {
        PublishOptions {
            execute,
            from: None,
            registry: None,
            allow_dirty: false,
            skip_verify: false,
            include_dev_deps: false,
            skip_existing: false,
            retries: 3,
            retry_delay_seconds: 20,
        }
    }

    /// These options, resuming the run at the package named `from`.
    pub fn resume_from(self, from: Option<String>) -> (r: Self)
        ensures
            r == (PublishOptions { from, ..self }),
    {
        PublishOptions { from, ..self }
    }

    /// These options, publishing to `registry`.
    pub fn registry(self, registry: Option<String>) -> (r: Self)
        ensures
            r == (PublishOptions { registry, ..self }),
    {
        PublishOptions { registry, ..self }
    }

    /// These options, with `allow_dirty` set as given.
    pub fn allow_dirty(self, allow_dirty: bool) -> (r: Self)
        ensures
            r == (PublishOptions { allow_dirty, ..self }),
    {
        PublishOptions { allow_dirty, ..self }
    }

    /// These options, with `skip_verify` (passing `--no-verify` to cargo) set as given.
    pub fn skip_verify(self, skip_verify: bool) -> (r: Self)
        ensures
            r == (PublishOptions { skip_verify, ..self }),
    {
        PublishOptions { skip_verify, ..self }
    }

    /// These options, with `include_dev_deps` set as given.
    pub fn include_dev_deps(self, include_dev_deps: bool) -> (r: Self)
        ensures
            r == (PublishOptions { include_dev_deps, ..self }),
    {
        PublishOptions { include_dev_deps, ..self }
    }

    /// These options, with `skip_existing` set as given.
    pub fn skip_existing(self, skip_existing: bool) -> (r: Self)
        ensures
            r == (PublishOptions { skip_existing, ..self }),
    {
        PublishOptions { skip_existing, ..self }
    }

    /// These options, with `retries` set as given.
    pub fn retries(self, retries: u32) -> (r: Self)
        ensures
            r == (PublishOptions { retries, ..self }),
    {
        PublishOptions { retries, ..self }
    }

    /// These options, with `retry_delay_seconds` set as given.
    pub fn retry_delay_seconds(self, retry_delay_seconds: u64) -> (r: Self)
        ensures
            r == (PublishOptions { retry_delay_seconds, ..self }),
    {
        PublishOptions { retry_delay_seconds, ..self }
    }
}

/// `cargo publish` needs `--allow-dirty` when the user allows it or when `cargo hack`
/// rewrites the manifests for the run.
pub open spec fn spec_needs_allow_dirty(options: PublishOptions) -> bool {
    options.allow_dirty || !options.include_dev_deps
}

/// The worktree must be clean before each attempt unless the user allows a dirty tree or
/// plain `cargo publish` is used.
pub open spec fn spec_requires_clean_worktree_guard(options: PublishOptions) -> bool {
    !options.allow_dirty && !options.include_dev_deps
}

/// The command line that publishes the package named `name`.
pub open spec fn spec_cargo_publish_command(name: Seq<char>, options: PublishOptions) -> Seq<Seq<char>> {
    let base = if options.include_dev_deps {
        seq!["cargo"@, "publish"@, "-p"@, name]
    } else {
        seq!["cargo"@, "hack"@, "--no-dev-deps"@, "publish"@, "-p"@, name]
    };
    let registry = match options.registry {
        Some(r) => seq!["--registry"@, r@],
        None => seq![],
    };
    let dirty = if spec_needs_allow_dirty(options) {
        seq!["--allow-dirty"@]
    } else {
        seq![]
    };
    let verify = if options.skip_verify {
        seq!["--no-verify"@]
    } else {
        seq![]
    };
    base + registry + dirty + verify
}

/// Whether `cargo publish` must be given `--allow-dirty`.
pub fn cargo_publish_needs_allow_dirty(options: &PublishOptions) -> (r: bool)
    ensures
        r == spec_needs_allow_dirty(*options),
{
    options.allow_dirty || !options.include_dev_deps
}

/// Whether the tracked worktree must be checked for changes before each attempt.
pub fn requires_clean_worktree_guard(options: &PublishOptions) -> (r: bool)
    ensures
        r == spec_requires_clean_worktree_guard(*options),
{
    !options.allow_dirty && !options.include_dev_deps
}

/// The command line that publishes `package`: through `cargo hack --no-dev-deps` unless
/// development dependencies are kept, with the registry, `--allow-dirty` and
/// `--no-verify` flags that the options call for.
pub fn cargo_publish_command(package: &ReleasePackage, options: &PublishOptions) -> (r: Vec<String>)
    ensures
        string_views(r@) == spec_cargo_publish_command(package.name@, *options),
{
    let mut command: Vec<String> = if options.include_dev_deps {
        vec!["cargo".to_owned(), "publish".to_owned(), "-p".to_owned(), package.name.clone()]
    } else {
        vec![
            "cargo".to_owned(),
            "hack".to_owned(),
            "--no-dev-deps".to_owned(),
            "publish".to_owned(),
            "-p".to_owned(),
            package.name.clone(),
        ]
    };
    let ghost base = string_views(command@);
    assert(base == (if options.include_dev_deps {
        seq!["cargo"@, "publish"@, "-p"@, package.name@]
    } else {
        seq!["cargo"@, "hack"@, "--no-dev-deps"@, "publish"@, "-p"@, package.name@]
    }));
    match &options.registry {
        Some(registry) => {
            command.push("--registry".to_owned());
            command.push(registry.clone());
        },
        None => {},
    }
    let ghost with_registry = string_views(command@);
    assert(with_registry =~= base + match options.registry {
        Some(r) => seq!["--registry"@, r@],
        None => seq![],
    });
    if cargo_publish_needs_allow_dirty(options) {
        command.push("--allow-dirty".to_owned());
    }
    let ghost with_dirty = string_views(command@);
    assert(with_dirty =~= with_registry + if spec_needs_allow_dirty(*options) {
        seq!["--allow-dirty"@]
    } else {
        seq![]
    });
    if options.skip_verify {
        command.push("--no-verify".to_owned());
    }
    assert(string_views(command@) =~= with_dirty + if options.skip_verify {
        seq!["--no-verify"@]
    } else {
        seq![]
    });
    command
}

/// The position of the first package named `name`, at `k` or later.
pub open spec fn first_named(pkgs: Seq<ReleasePackage>, name: Seq<char>, k: int) -> Option<int>
    decreases pkgs.len() - k,
{
    if k < 0 || k >= pkgs.len() {
        None
    } else if pkgs[k].name@ == name {
        Some(k)
    } else {
        first_named(pkgs, name, k + 1)
    }
}

/// The names of `pkgs`, in order.
pub open spec fn release_names(pkgs: Seq<ReleasePackage>) -> Seq<Seq<char>> {
    Seq::new(pkgs.len(), |i: int| pkgs[i].name@)
}

/// The packages to publish when resuming at `from`: all of them without a name, else the
/// packages from the first one of that name on, or an error that lists the names.
pub open spec fn packages_from_result(
    packages: Seq<ReleasePackage>,
    from: Option<Seq<char>>,
    r: Result<Seq<ReleasePackage>, ReleaseError>,
) -> bool {
    match from {
        None => r == Ok::<Seq<ReleasePackage>, ReleaseError>(packages),
        Some(name) => match first_named(packages, name, 0) {
            Some(i) => r == Ok::<Seq<ReleasePackage>, ReleaseError>(packages.subrange(i, packages.len() as int)),
            None => match r {
                Err(ReleaseError::UnknownPackage { name: n, expected }) => {
                    &&& n@ == name
                    &&& string_views(expected@) == release_names(packages)
                },
                _ => false,
            },
        },
    }
}

/// The view of a result that holds a slice of packages.
pub open spec fn slice_result_view(r: Result<&[ReleasePackage], ReleaseError>) -> Result<Seq<ReleasePackage>, ReleaseError> {
    match r {
        Ok(s) => Ok(s@),
        Err(e) => Err(e),
    }
}

/// The packages of the release order from the one named `from` on.
pub fn packages_from<'a>(packages: &'a [ReleasePackage], from: Option<&str>) -> (r: Result<&'a [ReleasePackage], ReleaseError>)
    ensures
        packages_from_result(
            packages@,
            match from {
                Some(f) => Some(f@),
                None => None,
            },
            slice_result_view(r),
        ),
{
    let name = match from {
        Some(name) => name,
        None => {
            return Ok(packages);
        },
    };
    let n = packages.len();
    let mut i: usize = 0;
    while i < n
        invariant
            n == packages@.len(),
            i <= n,
            first_named(packages@, name@, 0) == first_named(packages@, name@, i as int),
            from == Some(name),
        decreases n - i,
    {
        if crate::text::str_eq(packages[i].name.as_str(), name) {
            assert(first_named(packages@, name@, i as int) == Some(i as int));
            let tail = vstd::slice::slice_subrange(packages, i, n);
            return Ok(tail);
        }
        i = i + 1;
    }
    let mut names: Vec<String> = Vec::new();
    let mut j: usize = 0;
    while j < n
        invariant
            n == packages@.len(),
            j <= n,
            names@.len() == j,
            forall|k: int| 0 <= k < j ==> #[trigger] names@[k]@ == packages@[k].name@,
        decreases n - j,
    {
        names.push(packages[j].name.clone());
        j = j + 1;
    }
    assert(string_views(names@) =~= release_names(packages@));
    Err(ReleaseError::UnknownPackage { name: name.to_owned(), expected: names })
}

/// How one blocked package reads in a cycle report.
pub open spec fn blocked_line(b: BlockedPackage) -> Seq<char> {
    b.name@ + " waits on "@ + join_seq(string_views(b.waits_on@), ", "@)
}

/// The message that reports `e`.
pub open spec fn spec_error_message(e: ReleaseError) -> Seq<char> {
    match e {
        ReleaseError::DependencyCycle { blocked } => "workspace publish dependencies contain a cycle: "@
            + join_seq(Seq::new(blocked@.len(), |k: int| blocked_line(blocked@[k])), "; "@),
        ReleaseError::UnknownPackage { name, expected } => "unknown release package `"@ + name@
            + "`; expected one of: "@ + join_seq(string_views(expected@), ", "@),
    }
}

impl ReleaseError {
    /// The message that reports this error.
    pub fn message(&self) -> (r: String)
        ensures
            r@ == spec_error_message(*self),
    {
        match self {
            ReleaseError::DependencyCycle { blocked } => {
                let mut lines: Vec<String> = Vec::new();
                let mut k: usize = 0;
                while k < blocked.len()
                    invariant
                        k <= blocked@.len(),
                        lines@.len() == k,
                        forall|t: int| 0 <= t < k ==> #[trigger] lines@[t]@ == blocked_line(blocked@[t]),
                    decreases blocked@.len() - k,
                {
                    let b = &blocked[k];
                    let mut line = b.name.clone();
                    line.append(" waits on ");
                    let waits = join_strings(&b.waits_on, ", ");
                    line.append(waits.as_str());
                    lines.push(line);
                    k = k + 1;
                }
                assert(string_views(lines@) =~= Seq::new(blocked@.len(), |t: int| blocked_line(blocked@[t])));
                let mut r = "workspace publish dependencies contain a cycle: ".to_owned();
                let joined = join_strings(&lines, "; ");
                r.append(joined.as_str());
                r
            },
            ReleaseError::UnknownPackage { name, expected } => {
                let mut r = "unknown release package `".to_owned();
                r.append(name.as_str());
                r.append("`; expected one of: ");
                let joined = join_strings(expected, ", ");
                r.append(joined.as_str());
                r
            },
        }
    }
}

/// The decimal digit `d`, for `d < 10`.
pub open spec fn digit_char(d: nat) -> char {
    seq!['0', '1', '2', '3', '4', '5', '6', '7', '8', '9'][d as int]
}

/// `n` written in decimal, without leading zeros.
pub open spec fn decimal(n: nat) -> Seq<char>
    decreases n,
{
    if n < 10 {
        seq![digit_char(n)]
    } else {
        decimal(n / 10).push(digit_char(n % 10))
    }
}

/// `text` right-aligned in a field two characters wide.
pub open spec fn right_aligned_2(text: Seq<char>) -> Seq<char> {
    if text.len() < 2 {
        " "@ + text
    } else {
        text
    }
}

/// The line that lists `package` at position `position` (counting from one) of a release
/// order: the position right-aligned in two columns, a dot, the name and the version.
pub open spec fn spec_order_line(position: nat, package: ReleasePackage) -> Seq<char> {
    right_aligned_2(decimal(position)) + ". "@ + package.name@ + " "@ + package.version@
}

/// The first line of a printed release order.
pub open spec fn order_header() -> Seq<char> {
    "Release publish order:"@
}

/// The last line of a printed release order.
pub open spec fn order_footer() -> Seq<char> {
    "Order is computed from non-dev workspace dependencies."@
}

/// The string of the single decimal digit `d`.
fn digit_str(d: usize) -> (r: &'static str)
    requires
        d < 10,
    ensures
        r@ == seq![digit_char(d as nat)],
{
    proof {
        reveal_strlit("0");
        reveal_strlit("1");
        reveal_strlit("2");
        reveal_strlit("3");
        reveal_strlit("4");
        reveal_strlit("5");
        reveal_strlit("6");
        reveal_strlit("7");
        reveal_strlit("8");
        reveal_strlit("9");
    }
    match d {
        0 => "0",
        1 => "1",
        2 => "2",
        3 => "3",
        4 => "4",
        5 => "5",
        6 => "6",
        7 => "7",
        8 => "8",
        _ => "9",
    }
}

/// `n` written in decimal.
pub fn decimal_string(n: usize) -> (r: String)
    ensures
        r@ == decimal(n as nat),
    decreases n,
{
    if n < 10 {
        digit_str(n).to_owned()
    } else {
        let mut r = decimal_string(n / 10);
        r.append(digit_str(n % 10));
        r
    }
}

/// The lines that print a release order: a heading, one line per package with its position
/// right-aligned in two columns, its name and its version, and a closing note.
pub fn release_order_lines(packages: &[ReleasePackage]) -> (r: Vec<String>)
    ensures
        r@.len() == packages@.len() + 2,
        r@[0]@ == order_header(),
        forall|k: int| 0 <= k < packages@.len() ==> #[trigger] r@[k + 1]@ == spec_order_line(
            (k + 1) as nat,
            packages@[k],
        ),
        r@[packages@.len() + 1int]@ == order_footer(),
{
    let mut lines: Vec<String> = Vec::new();
    lines.push("Release publish order:".to_owned());
    let n = packages.len();
    let mut i: usize = 0;
    while i < n
        invariant
            n == packages@.len(),
            i <= n,
            lines@.len() == i + 1,
            lines@[0]@ == order_header(),
            forall|k: int| 0 <= k < i ==> #[trigger] lines@[k + 1]@ == spec_order_line(
                (k + 1) as nat,
                packages@[k],
            ),
        decreases n - i,
    {
        let number = decimal_string(i + 1);
        let mut line = if number.unicode_len() < 2 {
            let mut padded = " ".to_owned();
            padded.append(number.as_str());
            padded
        } else {
            number
        };
        line.append(". ");
        line.append(packages[i].name.as_str());
        line.append(" ");
        line.append(packages[i].version.as_str());
        lines.push(line);
        i = i + 1;
    }
    lines.push("Order is computed from non-dev workspace dependencies.".to_owned());
    lines
}

/// What to do after one attempt to publish a package.
#[derive(Clone, Copy, Debug, PartialEq, Eq, Structural)]
pub enum PublishStep {
    /// The upload succeeded.
    Published,
    /// The registry already holds this version and the options say to go on.
    AlreadyUploaded,
    /// The last allowed attempt failed.
    GiveUp,
    /// Wait the retry delay, then try again.
    Retry,
}

/// The step after attempt number `attempt` (counting from zero), given whether the upload
/// succeeded and whether cargo reported the version as uploaded already.
pub open spec fn spec_publish_step(options: PublishOptions, attempt: u32, succeeded: bool, already_uploaded: bool) -> PublishStep {
    if succeeded {
        PublishStep::Published
    } else if options.skip_existing && already_uploaded {
        PublishStep::AlreadyUploaded
    } else if attempt >= options.retries {
        PublishStep::GiveUp
    } else {
        PublishStep::Retry
    }
}

/// The step after attempt number `attempt` of a publish: done on success, done as well when
/// the version exists and `skip_existing` is set, else another try until the retries run
/// out.
pub fn publish_step(options: &PublishOptions, attempt: u32, succeeded: bool, already_uploaded: bool) -> (r: PublishStep)
    ensures
        r == spec_publish_step(*options, attempt, succeeded, already_uploaded),
{
    if succeeded {
        PublishStep::Published
    } else if options.skip_existing && already_uploaded {
        PublishStep::AlreadyUploaded
    } else if attempt >= options.retries {
        PublishStep::GiveUp
    } else {
        PublishStep::Retry
    }
}

/// What `String::from_utf8_lossy` makes of `bytes`.
pub uninterp spec fn decoded_lossy(bytes: Seq<u8>) -> Seq<char>;

/// What `str::to_lowercase` makes of `s`.
pub uninterp spec fn lowercased(s: Seq<char>) -> Seq<char>;

/// `String::from_utf8_lossy`: the text of `bytes`, with each invalid sequence replaced by
/// U+FFFD; the contract names the result and claims nothing more of it.
#[verifier::external_body]
fn utf8_lossy(bytes: &[u8]) -> (r: String)
    ensures
        r@ == decoded_lossy(bytes@),
{
    String::from_utf8_lossy(bytes).into_owned()
}

/// `str::to_lowercase`: the lowercase form of `s` under Unicode case mapping; the contract
/// names the result and claims nothing more of it.
#[verifier::external_body]
fn to_lowercase(s: &str) -> (r: String)
    ensures
        r@ == lowercased(s@),
{
    s.to_lowercase()
}

/// Whether lowercase text says "already uploaded" or "already exists".
pub open spec fn spec_text_mentions_existing_upload(text: Seq<char>) -> bool {
    contains_seq(text, "already uploaded"@) || contains_seq(text, "already exists"@)
}

/// Whether cargo's error output says the version was uploaded before.
pub open spec fn spec_mentions_existing_upload(stderr: Seq<u8>) -> bool {
    spec_text_mentions_existing_upload(lowercased(decoded_lossy(stderr)))
}

/// Whether `text`, cargo's error output already decoded and lowercased, says "already
/// uploaded" or "already exists".
pub fn text_mentions_existing_upload(text: &str) -> (r: bool)
    ensures
        r == spec_text_mentions_existing_upload(text@),
{
    contains_str(text, "already uploaded") || contains_str(text, "already exists")
}

/// Whether cargo's error output, read as lowercase text, says "already uploaded" or
/// "already exists".
pub fn output_mentions_existing_upload(stderr: &[u8]) -> (r: bool)
    ensures
        r == spec_mentions_existing_upload(stderr@),
{
    let text = utf8_lossy(stderr);
    let lower = to_lowercase(text.as_str());
    text_mentions_existing_upload(lower.as_str())
}

/// `cargo hack` rewrites the manifests for the run, so its command always passes
/// `--allow-dirty`; and the worktree guard is required exactly when that flag is passed for
/// the rewrite alone, not because the user allowed a dirty tree.
pub proof fn lemma_cargo_hack_publish_is_guarded(name: Seq<char>, options: PublishOptions)
    ensures
        !options.include_dev_deps ==> spec_cargo_publish_command(name, options).contains("--allow-dirty"@),
        spec_requires_clean_worktree_guard(options) <==> (spec_needs_allow_dirty(options) && !options.allow_dirty),
{
    let c = spec_cargo_publish_command(name, options);
    if !options.include_dev_deps {
        let base = seq!["cargo"@, "hack"@, "--no-dev-deps"@, "publish"@, "-p"@, name];
        let registry: Seq<Seq<char>> = match options.registry {
            Some(r) => seq!["--registry"@, r@],
            None => seq![],
        };
        let i = base.len() + registry.len();
        assert(c[i as int] == "--allow-dirty"@);
    }
}

/// A publish makes at most `retries + 1` attempts: no attempt numbered `retries` or more is
/// followed by another.
pub proof fn lemma_publish_attempts_are_bounded(
    options: PublishOptions,
    attempt: u32,
    succeeded: bool,
    already_uploaded: bool,
)
    requires
        attempt >= options.retries,
    ensures
        spec_publish_step(options, attempt, succeeded, already_uploaded) != PublishStep::Retry,
{
}


/// What a publish attempt leads to, whatever its number: a success is published; a failure
/// whose output reports the version as uploaded already is accepted as such whenever
/// `skip_existing` is set, on the first attempt as on the last; any other failure is
/// retried exactly while attempts remain and given up after the last one.
pub proof fn lemma_publish_step_outcomes(
    options: PublishOptions,
    attempt: u32,
    succeeded: bool,
    already_uploaded: bool,
)
    ensures
        (spec_publish_step(options, attempt, succeeded, already_uploaded) == PublishStep::Published)
            <==> succeeded,
        (spec_publish_step(options, attempt, succeeded, already_uploaded)
            == PublishStep::AlreadyUploaded) <==> (!succeeded && options.skip_existing
            && already_uploaded),
        (spec_publish_step(options, attempt, succeeded, already_uploaded) == PublishStep::Retry)
            <==> (!succeeded && !(options.skip_existing && already_uploaded) && attempt
            < options.retries),
        (spec_publish_step(options, attempt, succeeded, already_uploaded) == PublishStep::GiveUp)
            <==> (!succeeded && !(options.skip_existing && already_uploaded) && attempt
            >= options.retries),
{
}

/// Facts about the position of the first package named `name` from `k` on: it holds that
/// name, and no package between `k` and it does; when there is none, no package from `k` on
/// has that name.
proof fn lemma_first_named(pkgs: Seq<ReleasePackage>, name: Seq<char>, k: int)
    requires
        0 <= k,
    ensures
        match first_named(pkgs, name, k) {
            Some(i) => k <= i < pkgs.len() && pkgs[i].name@ == name && forall|j: int|
                k <= j < i ==> pkgs[j].name@ != name,
            None => forall|j: int| k <= j < pkgs.len() ==> pkgs[j].name@ != name,
        },
    decreases pkgs.len() - k,
{
    if k < pkgs.len() && pkgs[k].name@ != name {
        lemma_first_named(pkgs, name, k + 1);
    }
}

/// Resuming a release at `from`: without a name the release is unchanged; with a name, it
/// succeeds exactly when some package has exactly that name, and then gives the packages
/// from the first package of that name on, in order, so that what it gives starts with a
/// package of that name and no package left out has it.
pub proof fn lemma_packages_from_resumes_at_name(
    packages: Seq<ReleasePackage>,
    from: Option<Seq<char>>,
    r: Result<Seq<ReleasePackage>, ReleaseError>,
)
    requires
        packages_from_result(packages, from, r),
    ensures
        from is None ==> r == Ok::<Seq<ReleasePackage>, ReleaseError>(packages),
        from matches Some(name) ==> (r is Ok <==> exists|k: int|
            0 <= k < packages.len() && #[trigger] packages[k].name@ == name),
        from matches Some(name) ==> (r matches Ok(tail) ==> {
            &&& tail.len() > 0
            &&& tail[0].name@ == name
            &&& tail.len() <= packages.len()
            &&& forall|j: int| 0 <= j < tail.len() ==> #[trigger] tail[j] == packages[packages.len() - tail.len() + j]
            &&& forall|j: int| 0 <= j < packages.len() - tail.len() ==> #[trigger] packages[j].name@ != name
        }),
        from matches Some(name) ==> (r matches Err(e) ==> e matches ReleaseError::UnknownPackage { name: n, expected } && n@ == name
            && string_views(expected@) == release_names(packages)),
{
    if let Some(name) = from {
        lemma_first_named(packages, name, 0);
        match first_named(packages, name, 0) {
            Some(i) => {
                let tail = packages.subrange(i, packages.len() as int);
                assert(tail[0] == packages[i]);
            },
            None => {
                assert(r is Err);
            },
        }
    }
}

/// The publish command names the package after `-p`, and passes the registry after
/// `--registry` whenever one is chosen, through `cargo hack` as through plain `cargo
/// publish`; `--allow-dirty` whenever the user allows a dirty tree or `cargo hack` rewrites
/// the manifests, and `--no-verify` whenever verification is skipped. Every command starts
/// with `cargo`, then `publish` when development dependencies are kept, else `hack
/// --no-dev-deps publish`.
pub proof fn lemma_cargo_publish_command_passes_options(name: Seq<char>, options: PublishOptions)
    ensures
        ({
            let c = spec_cargo_publish_command(name, options);
            &&& c[0] == "cargo"@
            &&& options.include_dev_deps ==> c[1] == "publish"@
            &&& !options.include_dev_deps ==> c[1] == "hack"@ && c[2] == "--no-dev-deps"@ && c[3] == "publish"@
            &&& exists|k: int| 0 <= k && k + 1 < c.len() && #[trigger] c[k] == "-p"@ && c[k + 1] == name
            &&& options.registry matches Some(reg) ==> exists|k: int|
                0 <= k && k + 1 < c.len() && #[trigger] c[k] == "--registry"@ && c[k + 1] == reg@
            &&& (options.allow_dirty || !options.include_dev_deps) ==> c.contains("--allow-dirty"@)
            &&& options.skip_verify ==> c.contains("--no-verify"@)
        }),
{
    let c = spec_cargo_publish_command(name, options);
    let base = if options.include_dev_deps {
        seq!["cargo"@, "publish"@, "-p"@, name]
    } else {
        seq!["cargo"@, "hack"@, "--no-dev-deps"@, "publish"@, "-p"@, name]
    };
    let registry: Seq<Seq<char>> = match options.registry {
        Some(r) => seq!["--registry"@, r@],
        None => seq![],
    };
    let dirty: Seq<Seq<char>> = if spec_needs_allow_dirty(options) {
        seq!["--allow-dirty"@]
    } else {
        seq![]
    };
    let verify: Seq<Seq<char>> = if options.skip_verify {
        seq!["--no-verify"@]
    } else {
        seq![]
    };
    assert(c == base + registry + dirty + verify);
    let p = base.len() - 2;
    assert(c[p] == "-p"@ && c[p + 1] == name);
    if let Some(reg) = options.registry {
        let k = base.len() as int;
        assert(c[k] == "--registry"@ && c[k + 1] == reg@);
    }
    if spec_needs_allow_dirty(options) {
        let k = base.len() + registry.len();
        assert(c[k as int] == "--allow-dirty"@);
    }
    if options.skip_verify {
        let k = base.len() + registry.len() + dirty.len();
        assert(c[k as int] == "--no-verify"@);
    }
}


/// With distinct package ids, the package whose id a member names is found by that id.
proof fn lemma_last_with_id_finds(pkgs: Seq<PackageInfo>, q: int, end: int)
    requires
        0 <= q < end <= pkgs.len(),
        forall|a: int, b: int|
            0 <= a < pkgs.len() && 0 <= b < pkgs.len() && a != b ==> pkgs[a].id@ != pkgs[b].id@,
    ensures
        last_with_id(pkgs, pkgs[q].id@, end) == Some(q as usize),
    decreases end,
{
    if end - 1 != q {
        lemma_last_with_id_finds(pkgs, q, end - 1);
    }
}

/// Every publishable package that a member names by its id is among the release nodes.
proof fn lemma_publishable_member_is_node(pkgs: Seq<PackageInfo>, members: Seq<String>, m: int, q: int)
    requires
        pkgs.len() <= usize::MAX,
        0 <= m < members.len(),
        0 <= q < pkgs.len(),
        members[m]@ == pkgs[q].id@,
        spec_is_publishable(pkgs[q].publish),
        forall|a: int, b: int|
            0 <= a < pkgs.len() && 0 <= b < pkgs.len() && a != b ==> pkgs[a].id@ != pkgs[b].id@,
    ensures
        publishable_members(pkgs, members).contains(q as usize),
    decreases members.len(),
{
    let prev = publishable_members(pkgs, members.drop_last());
    lemma_last_with_id_finds(pkgs, q, pkgs.len() as int);
    if m < members.len() - 1 {
        assert(members.drop_last()[m] == members[m]);
        lemma_publishable_member_is_node(pkgs, members.drop_last(), m, q);
        let k = choose|k: int| 0 <= k < prev.len() && prev[k] == q as usize;
        let r = publishable_members(pkgs, members);
        assert(r[k] == q as usize);
    } else {
        assert(members.last() == members[m]);
        let r = publishable_members(pkgs, members);
        if !prev.contains(q as usize) {
            assert(r[prev.len() as int] == q as usize);
        }
    }
}

/// When some release position below `end` holds a package named `name`, `node_named`
/// reports such a position.
proof fn lemma_node_named_finds(pkgs: Seq<PackageInfo>, nodes: Seq<usize>, name: Seq<char>, end: int, y: int)
    requires
        0 <= y < end <= nodes.len(),
        nodes.len() <= usize::MAX,
        pkgs[nodes[y] as int].name@ == name,
    ensures
        node_named(pkgs, nodes, name, end) matches Some(x) && x < end && pkgs[nodes[x as int] as int].name@
            == name,
    decreases end,
{
    if end - 1 != y && pkgs[nodes[end - 1] as int].name@ != name {
        lemma_node_named_finds(pkgs, nodes, name, end - 1, y);
    }
}

/// Each dependency outside development that names a release position adds that position to
/// the dependencies of its package.
proof fn lemma_dependency_nodes_keeps(pkgs: Seq<PackageInfo>, nodes: Seq<usize>, deps: Seq<DependencyInfo>, t: int)
    requires
        0 <= t < deps.len(),
        deps[t].kind != DependencyKind::Development,
        node_named(pkgs, nodes, deps[t].name@, nodes.len() as int) is Some,
    ensures
        dependency_nodes(pkgs, nodes, deps).contains(
            node_named(pkgs, nodes, deps[t].name@, nodes.len() as int).unwrap(),
        ),
    decreases deps.len(),
{
    let prev = dependency_nodes(pkgs, nodes, deps.drop_last());
    let x = node_named(pkgs, nodes, deps[t].name@, nodes.len() as int).unwrap();
    let r = dependency_nodes(pkgs, nodes, deps);
    if t < deps.len() - 1 {
        assert(deps.drop_last()[t] == deps[t]);
        lemma_dependency_nodes_keeps(pkgs, nodes, deps.drop_last(), t);
        let k = choose|k: int| 0 <= k < prev.len() && prev[k] == x;
        if deps.last().kind != DependencyKind::Development {
            if let Some(q) = node_named(pkgs, nodes, deps.last().name@, nodes.len() as int) {
                assert(r[k] == x);
            }
        }
        assert(r.contains(x));
    } else {
        assert(deps.last() == deps[t]);
        assert(r[prev.len() as int] == x);
    }
}

/// In a release order that succeeds, every package comes after each package it depends on
/// outside development: for every package of the order and every dependency of it that is
/// not a development dependency and whose name is the name of a publishable workspace
/// member, a package of that name is published earlier. Package ids are taken to be
/// distinct, as cargo makes them.
pub proof fn lemma_release_order_publishes_dependencies_first(
    pkgs: Seq<PackageInfo>,
    members: Seq<String>,
    r: Result<Vec<ReleasePackage>, ReleaseError>,
)
    requires
        pkgs.len() <= usize::MAX,
        members.len() <= usize::MAX,
        forall|a: int, b: int|
            0 <= a < pkgs.len() && 0 <= b < pkgs.len() && a != b ==> pkgs[a].id@ != pkgs[b].id@,
        release_order_result(pkgs, members, r),
        r is Ok,
    ensures
        forall|i: int, p: int, t: int, q: int, m: int|
            #![trigger r->Ok_0@[i], pkgs[p].dependencies@[t], pkgs[q].name, members[m]]
            0 <= i < r->Ok_0@.len() && 0 <= p < pkgs.len() && pkgs[p].id@ == r->Ok_0@[i].id@
                && 0 <= t < pkgs[p].dependencies@.len()
                && pkgs[p].dependencies@[t].kind != DependencyKind::Development
                && 0 <= q < pkgs.len() && 0 <= m < members.len() && members[m]@ == pkgs[q].id@
                && spec_is_publishable(pkgs[q].publish)
                && pkgs[q].name@ == pkgs[p].dependencies@[t].name@
                ==> exists|j: int| 0 <= j < i && #[trigger] r->Ok_0@[j].name@ == pkgs[p].dependencies@[t].name@,
{
    let v = r->Ok_0@;
    let nodes = publishable_members(pkgs, members);
    let g = release_graph(pkgs, nodes);
    let s = schedule(g);
    lemma_publishable_members_shape(pkgs, members);
    lemma_full_schedule_is_topological(g);
    assert forall|i: int, p: int, t: int, q: int, m: int|
        #![trigger r->Ok_0@[i], pkgs[p].dependencies@[t], pkgs[q].name, members[m]]
        0 <= i < r->Ok_0@.len() && 0 <= p < pkgs.len() && pkgs[p].id@ == r->Ok_0@[i].id@
            && 0 <= t < pkgs[p].dependencies@.len()
            && pkgs[p].dependencies@[t].kind != DependencyKind::Development
            && 0 <= q < pkgs.len() && 0 <= m < members.len() && members[m]@ == pkgs[q].id@
            && spec_is_publishable(pkgs[q].publish)
            && pkgs[q].name@ == pkgs[p].dependencies@[t].name@
        implies exists|j: int| 0 <= j < i && #[trigger] r->Ok_0@[j].name@ == pkgs[p].dependencies@[t].name@ by {
        let d = pkgs[p].dependencies@[t];
        assert(release_entry_of(v[i], pkgs[nodes[s[i] as int] as int]));
        assert(s[i] < g.len());
        let src = nodes[s[i] as int];
        assert(src < pkgs.len());
        assert(p == src as int);
        lemma_publishable_member_is_node(pkgs, members, m, q);
        let y = choose|y: int| 0 <= y < nodes.len() && nodes[y] == q as usize;
        lemma_node_named_finds(pkgs, nodes, d.name@, nodes.len() as int, y);
        let x = node_named(pkgs, nodes, d.name@, nodes.len() as int).unwrap();
        lemma_dependency_nodes_keeps(pkgs, nodes, pkgs[p].dependencies@, t);
        let row = g[s[i] as int];
        assert(row == dependency_nodes(pkgs, nodes, pkgs[p].dependencies@));
        let k = choose|k: int| 0 <= k < row.len() && row[k] == x;
        assert(g[s[i] as int][k] == x);
        assert(placed_before(s, i, g[s[i] as int][k]));
        let j = choose|j: int| 0 <= j < i && s[j] == x;
        assert(release_entry_of(v[j], pkgs[nodes[s[j] as int] as int]));
        assert(v[j].name@ == d.name@);
    }
}

/// The conditions of a release order that succeeds, as the release planning states them.
pub open spec fn succeeded_order(pkgs: Seq<PackageInfo>, members: Seq<String>, v: Seq<ReleasePackage>) -> bool {
    let nodes = publishable_members(pkgs, members);
    let s = schedule(release_graph(pkgs, nodes));
    &&& s.len() == nodes.len()
    &&& v.len() == s.len()
    &&& forall|k: int| 0 <= k < s.len() ==> release_entry_of(
        #[trigger] v[k],
        pkgs[nodes[s[k] as int] as int],
    )
}

/// Every publishable package that a member names is somewhere in a release order that
/// succeeds.
proof fn lemma_order_covers_member(pkgs: Seq<PackageInfo>, members: Seq<String>, v: Seq<ReleasePackage>, q: int, m: int)
    requires
        pkgs.len() <= usize::MAX,
        members.len() <= usize::MAX,
        forall|a: int, b: int|
            0 <= a < pkgs.len() && 0 <= b < pkgs.len() && a != b ==> pkgs[a].id@ != pkgs[b].id@,
        succeeded_order(pkgs, members, v),
        0 <= q < pkgs.len(),
        0 <= m < members.len(),
        members[m]@ == pkgs[q].id@,
        spec_is_publishable(pkgs[q].publish),
    ensures
        exists|i: int| 0 <= i < v.len() && #[trigger] v[i].id@ == pkgs[q].id@,
{
    let nodes = publishable_members(pkgs, members);
    let g = release_graph(pkgs, nodes);
    let s = schedule(g);
    lemma_publishable_members_shape(pkgs, members);
    lemma_full_schedule_is_topological(g);
    lemma_publishable_member_is_node(pkgs, members, m, q);
    let y = choose|y: int| 0 <= y < nodes.len() && nodes[y] == q as usize;
    assert(s.contains(y as usize));
    let i = choose|i: int| 0 <= i < s.len() && s[i] == y as usize;
    assert(release_entry_of(v[i], pkgs[nodes[s[i] as int] as int]));
}

/// Two positions of a release order that succeeds hold packages with different ids.
proof fn lemma_order_entries_distinct(pkgs: Seq<PackageInfo>, members: Seq<String>, v: Seq<ReleasePackage>, i: int, j: int)
    requires
        pkgs.len() <= usize::MAX,
        members.len() <= usize::MAX,
        forall|a: int, b: int|
            0 <= a < pkgs.len() && 0 <= b < pkgs.len() && a != b ==> pkgs[a].id@ != pkgs[b].id@,
        succeeded_order(pkgs, members, v),
        0 <= i < v.len(),
        0 <= j < v.len(),
        i != j,
    ensures
        v[i].id@ != v[j].id@,
{
    let nodes = publishable_members(pkgs, members);
    let g = release_graph(pkgs, nodes);
    let s = schedule(g);
    lemma_publishable_members_shape(pkgs, members);
    lemma_full_schedule_is_topological(g);
    assert(release_entry_of(v[i], pkgs[nodes[s[i] as int] as int]));
    assert(release_entry_of(v[j], pkgs[nodes[s[j] as int] as int]));
    assert(s[i] != s[j]);
    assert(s[i] < g.len() && s[j] < g.len());
    assert(nodes[s[i] as int] != nodes[s[j] as int]);
}

/// The package at position `i` of a release order that succeeds is a publishable package
/// named by a workspace member; the lemma gives that package and that member.
proof fn lemma_order_entry_is_member(
    pkgs: Seq<PackageInfo>,
    members: Seq<String>,
    v: Seq<ReleasePackage>,
    i: int,
) -> (qm: (int, int))
    requires
        pkgs.len() <= usize::MAX,
        members.len() <= usize::MAX,
        succeeded_order(pkgs, members, v),
        0 <= i < v.len(),
    ensures
        0 <= qm.0 < pkgs.len(),
        0 <= qm.1 < members.len(),
        members[qm.1]@ == pkgs[qm.0].id@,
        spec_is_publishable(pkgs[qm.0].publish),
        release_entry_of(v[i], pkgs[qm.0]),
{
    let nodes = publishable_members(pkgs, members);
    let g = release_graph(pkgs, nodes);
    let s = schedule(g);
    lemma_publishable_members_shape(pkgs, members);
    lemma_full_schedule_is_topological(g);
    assert(release_entry_of(v[i], pkgs[nodes[s[i] as int] as int]));
    assert(s[i] < g.len());
    let q = nodes[s[i] as int];
    let m = choose|m: int| 0 <= m < members.len() && last_with_id(pkgs, members[m]@, pkgs.len() as int) == Some(q);
    lemma_last_with_id_bounds(pkgs, members[m]@, pkgs.len() as int);
    (q as int, m)
}

/// The package at `q` is publishable and the workspace member at `m` names it by its id.
pub open spec fn member_package(pkgs: Seq<PackageInfo>, members: Seq<String>, q: int, m: int) -> bool {
    &&& 0 <= q < pkgs.len()
    &&& 0 <= m < members.len()
    &&& members[m]@ =~= pkgs[q].id@
    &&& spec_is_publishable(pkgs[q].publish)
}

/// `entry` is the package of some publishable workspace member.
pub open spec fn published_member(pkgs: Seq<PackageInfo>, members: Seq<String>, entry: ReleasePackage) -> bool {
    exists|q: int, m: int| #[trigger] member_package(pkgs, members, q, m) && release_entry_of(entry, pkgs[q])
}

/// A release order that succeeds publishes exactly the publishable workspace members, each
/// once: every package of the order is a publishable package that a workspace member names,
/// every such package is in the order, and no package appears twice. Package ids are taken
/// to be distinct, as cargo makes them.
pub proof fn lemma_release_order_publishes_each_member_once(
    pkgs: Seq<PackageInfo>,
    members: Seq<String>,
    r: Result<Vec<ReleasePackage>, ReleaseError>,
)
    requires
        pkgs.len() <= usize::MAX,
        members.len() <= usize::MAX,
        forall|a: int, b: int|
            0 <= a < pkgs.len() && 0 <= b < pkgs.len() && a != b ==> pkgs[a].id@ != pkgs[b].id@,
        release_order_result(pkgs, members, r),
        r is Ok,
    ensures
        forall|i: int|
            0 <= i < r->Ok_0@.len() ==> #[trigger] published_member(pkgs, members, r->Ok_0@[i]),
        forall|q: int, m: int|
            #![trigger pkgs[q].publish, members[m]]
            0 <= q < pkgs.len() && 0 <= m < members.len() && members[m]@ == pkgs[q].id@
                && spec_is_publishable(pkgs[q].publish) ==> exists|i: int|
                0 <= i < r->Ok_0@.len() && #[trigger] r->Ok_0@[i].id@ == pkgs[q].id@,
        forall|i: int, j: int|
            0 <= i < r->Ok_0@.len() && 0 <= j < r->Ok_0@.len() && i != j ==> #[trigger] r->Ok_0@[i].id@
                != #[trigger] r->Ok_0@[j].id@,
{
    let v = r->Ok_0@;
    assert(succeeded_order(pkgs, members, v));
    assert forall|i: int| 0 <= i < r->Ok_0@.len() implies #[trigger] published_member(
        pkgs,
        members,
        r->Ok_0@[i],
    ) by {
        let (q, m) = lemma_order_entry_is_member(pkgs, members, v, i);
        assert(member_package(pkgs, members, q, m));
        assert(release_entry_of(v[i], pkgs[q]));
    }
    assert forall|q: int, m: int|
        #![trigger pkgs[q].publish, members[m]]
        0 <= q < pkgs.len() && 0 <= m < members.len() && members[m]@ == pkgs[q].id@
            && spec_is_publishable(pkgs[q].publish) implies exists|i: int|
            0 <= i < r->Ok_0@.len() && #[trigger] r->Ok_0@[i].id@ == pkgs[q].id@ by {
        lemma_order_covers_member(pkgs, members, v, q, m);
    }
    assert forall|i: int, j: int|
        0 <= i < r->Ok_0@.len() && 0 <= j < r->Ok_0@.len() && i != j implies #[trigger] r->Ok_0@[i].id@
            != #[trigger] r->Ok_0@[j].id@ by {
        lemma_order_entries_distinct(pkgs, members, v, i, j);
    }
}


/// Every position that the non-development dependencies name is a release position.
proof fn lemma_dependency_nodes_bounds(pkgs: Seq<PackageInfo>, nodes: Seq<usize>, deps: Seq<DependencyInfo>)
    ensures
        forall|k: int|
            0 <= k < dependency_nodes(pkgs, nodes, deps).len() ==> #[trigger] dependency_nodes(
                pkgs,
                nodes,
                deps,
            )[k] < nodes.len(),
    decreases deps.len(),
{
    if deps.len() > 0 {
        lemma_dependency_nodes_bounds(pkgs, nodes, deps.drop_last());
        lemma_node_named_bounds(pkgs, nodes, deps.last().name@, nodes.len() as int);
        let prev = dependency_nodes(pkgs, nodes, deps.drop_last());
        let r = dependency_nodes(pkgs, nodes, deps);
        assert forall|k: int| 0 <= k < r.len() implies #[trigger] r[k] < nodes.len() by {
            if k < prev.len() {
                assert(r[k] == prev[k]);
            }
        }
    }
}

/// A release plan fails only with a cycle report, and the report is never empty: every
/// package it lists as blocked waits on at least one package, and every package it waits on
/// is itself listed as blocked, so the blocked packages hold each other up.
pub proof fn lemma_release_cycle_report_lists_waiting_packages(
    pkgs: Seq<PackageInfo>,
    members: Seq<String>,
    r: Result<Vec<ReleasePackage>, ReleaseError>,
)
    requires
        pkgs.len() <= usize::MAX,
        members.len() <= usize::MAX,
        release_order_result(pkgs, members, r),
        r is Err,
    ensures
        r matches Err(ReleaseError::DependencyCycle { blocked }) && {
            &&& blocked@.len() > 0
            &&& forall|k: int| 0 <= k < blocked@.len() ==> #[trigger] blocked@[k].waits_on@.len() > 0
            &&& forall|k: int, t: int|
                0 <= k < blocked@.len() && 0 <= t < blocked@[k].waits_on@.len() ==> exists|k2: int|
                    0 <= k2 < blocked@.len() && #[trigger] blocked@[k2].name@ == #[trigger] blocked@[k].waits_on@[t]@
        },
{
    let nodes = publishable_members(pkgs, members);
    let g = release_graph(pkgs, nodes);
    let s = schedule(g);
    let n = nodes.len();
    lemma_publishable_members_shape(pkgs, members);
    crate::graph::lemma_schedule_respects_dependencies(g);
    if let Err(ReleaseError::DependencyCycle { blocked }) = r {
        let u = unplaced(s, n);
        crate::graph::lemma_distinct_nodes_cover(g, s);
        let p0 = choose|p: usize| p < g.len() && !s.contains(p);
        crate::graph::lemma_unplaced_contains(s, n, p0);
        assert(blocked@.len() > 0);
        assert forall|k: int| 0 <= k < blocked@.len() implies #[trigger] blocked@[k].waits_on@.len() > 0 by {
            let p = u[k];
            assert(u.contains(p));
            crate::graph::lemma_unplaced_contains(s, n, p);
            crate::graph::lemma_unplaced_node_waits(g, p);
            let kk = choose|kk: int| 0 <= kk < g[p as int].len() && !s.contains(#[trigger] g[p as int][kk]);
            let x = g[p as int][kk];
            lemma_dependency_nodes_bounds(pkgs, nodes, pkgs[nodes[p as int] as int].dependencies@);
            assert(x < n);
            assert(g[p as int].contains(x));
            crate::graph::lemma_unplaced_dependencies_contains(g, s, p as int, n, x);
            assert(blocked_entry_of(blocked@[k], pkgs, nodes, g, s, u[k]));
        }
        assert forall|k: int, t: int|
            0 <= k < blocked@.len() && 0 <= t < blocked@[k].waits_on@.len() implies exists|k2: int|
                0 <= k2 < blocked@.len() && #[trigger] blocked@[k2].name@ == #[trigger] blocked@[k].waits_on@[t]@ by {
            let p = u[k];
            assert(blocked_entry_of(blocked@[k], pkgs, nodes, g, s, p));
            let w = unplaced_dependencies(g, s, p as int, n);
            let x = w[t];
            assert(w.contains(x));
            crate::graph::lemma_unplaced_dependencies_contains(g, s, p as int, n, x);
            crate::graph::lemma_unplaced_contains(s, n, x);
            let k2 = choose|k2: int| 0 <= k2 < u.len() && u[k2] == x;
            assert(blocked_entry_of(blocked@[k2], pkgs, nodes, g, s, u[k2]));
            assert(blocked@[k2].name@ == blocked@[k].waits_on@[t]@);
        }
    }
}
} // verus!
