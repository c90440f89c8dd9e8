//! The feature classifier: for every resolution node of the graph, computes
//! the enabled, unused and dangling feature-name lists of its package,
//! assigns a collision-safe report key, and records the entries in a fixed
//! deterministic order.
//!
//! Nodes are visited sorted by package name, version and id, so that the
//! "first package claims the bare key" collision rule is reproducible
//! run-to-run instead of depending on incidental resolver order.

use vstd::prelude::*;

verus! {

use crate::model::ClassifyError;
use crate::model::FeatureDecl;
use crate::model::FeatureDeclV;
use crate::model::FeatureSet;
use crate::model::FeatureSetV;
use crate::model::Graph;
use crate::model::GraphV;
use crate::model::Node;
use crate::model::NodeV;
use crate::model::Package;
use crate::model::PackageV;
use crate::model::ReportEntry;
use crate::model::ReportEntryV;
use crate::model::UsageSet;
use crate::model::UsageSetV;
use crate::model::find_package_idx;
use crate::model::lemma_find_package_idx;
use crate::order::insert_name;
use crate::order::insert_name_exec;
use crate::order::lex_lt;
use crate::order::sort_names;
use crate::order::sort_names_exec;
use crate::order::str_eq;
use crate::order::str_lt;
use vstd::string::StrSliceExecFns;
use vstd::string::StringExecFns;

/// Visitation order of resolved packages: by name, then version, then id.
pub open spec fn pkg_order_lt(p: PackageV, q: PackageV) -> bool {
    ||| lex_lt(p.name, q.name)
    ||| (p.name == q.name && lex_lt(p.version, q.version))
    ||| (p.name == q.name && p.version == q.version && lex_lt(p.id, q.id))
}

/// A pair of a node index and the index of its resolved package.
pub open spec fn resolve_pairs(g: GraphV) -> Seq<(usize, usize)> {
    Seq::new(
        g.nodes.len(),
        |i: int|
            (
                i as usize,
                match find_package_idx(g.packages, g.nodes[i].id) {
                    Some(k) => k,
                    None => 0usize,
                },
            ),
    )
}

/// Every node's package id resolves to a package of the graph.
pub open spec fn all_resolvable(g: GraphV) -> bool {
    forall|i: int|
        0 <= i < g.nodes.len() ==> #[trigger] find_package_idx(g.packages, g.nodes[i].id)
            is Some
}

/// Stable ordered insertion of a node/package pair: a pair moves left past
/// exactly the pairs whose package orders strictly after its own.
pub open spec fn insert_pair(g: GraphV, s: Seq<(usize, usize)>, x: (usize, usize)) -> Seq<
    (usize, usize),
>
    decreases s.len(),
{
    if s.len() == 0 {
        seq![x]
    } else if pkg_order_lt(g.packages[x.1 as int], g.packages[s[0].1 as int]) {
        seq![x] + s
    } else {
        seq![s[0]] + insert_pair(g, s.skip(1), x)
    }
}

/// The node/package pairs sorted for visitation, stably.
pub open spec fn sort_pairs(g: GraphV, s: Seq<(usize, usize)>) -> Seq<(usize, usize)>
    decreases s.len(),
{
    if s.len() == 0 {
        Seq::empty()
    } else {
        insert_pair(g, sort_pairs(g, s.drop_last()), s.last())
    }
}

/// The usage set recorded for package `id`; empty when none was recorded.
pub open spec fn usage_names(us: Seq<UsageSetV>, id: Seq<char>) -> Seq<Seq<char>>
    decreases us.len(),
{
    if us.len() == 0 {
        Seq::empty()
    } else if us[0].package_id == id {
        us[0].used
    } else {
        usage_names(us.skip(1), id)
    }
}

/// The sorted list of declared feature names that are not activated.
pub open spec fn unused_names(fs: Seq<FeatureDeclV>, act: Seq<Seq<char>>) -> Seq<Seq<char>>
    decreases fs.len(),
{
    if fs.len() == 0 {
        Seq::empty()
    } else {
        let rest = unused_names(fs.drop_last(), act);
        if !act.contains(fs.last().name) {
            insert_name(rest, fs.last().name)
        } else {
            rest
        }
    }
}

/// The sorted list of declared feature names that are not activated, turn on
/// nothing, and are not referenced in source: removal candidates.
pub open spec fn dangling_names(
    fs: Seq<FeatureDeclV>,
    act: Seq<Seq<char>>,
    used: Seq<Seq<char>>,
) -> Seq<Seq<char>>
    decreases fs.len(),
{
    if fs.len() == 0 {
        Seq::empty()
    } else {
        let rest = dangling_names(fs.drop_last(), act, used);
        if fs.last().targets.len() == 0 && !act.contains(fs.last().name) && !used.contains(
            fs.last().name,
        ) {
            insert_name(rest, fs.last().name)
        } else {
            rest
        }
    }
}

/// The classification of one package under one resolution node. Dangling
/// candidates are reported for workspace members only.
pub open spec fn classify_node(p: PackageV, n: NodeV, member: bool, used: Seq<Seq<char>>)
    -> FeatureSetV {
    FeatureSetV {
        enabled: sort_names(n.activated),
        unused: unused_names(p.features, n.activated),
        dangling: if member {
            dangling_names(p.features, n.activated, used)
        } else {
            Seq::empty()
        },
    }
}

/// Some entry of the report already claimed key `k`.
pub open spec fn key_taken(rep: Seq<ReportEntryV>, k: Seq<char>) -> bool {
    exists|i: int| 0 <= i < rep.len() && rep[i].key == k
}

/// The report key of a package: its bare name, unless an earlier entry
/// claimed that name, in which case `name@version`.
pub open spec fn key_for(rep: Seq<ReportEntryV>, p: PackageV) -> Seq<char> {
    if key_taken(rep, p.name) {
        p.name + seq!['@'] + p.version
    } else {
        p.name
    }
}

/// Map-style insertion: an entry with a fresh key is appended; one with a
/// key already present replaces that entry in place.
pub open spec fn upsert(rep: Seq<ReportEntryV>, e: ReportEntryV) -> Seq<ReportEntryV>
    decreases rep.len(),
{
    if rep.len() == 0 {
        seq![e]
    } else if rep[0].key == e.key {
        seq![e] + rep.skip(1)
    } else {
        seq![rep[0]] + upsert(rep.skip(1), e)
    }
}

/// The entry recorded for the node/package pair `pr`, given the report
/// accumulated so far.
pub open spec fn entry_for(
    g: GraphV,
    us: Seq<UsageSetV>,
    rep: Seq<ReportEntryV>,
    pr: (usize, usize),
) -> ReportEntryV {
    let n = g.nodes[pr.0 as int];
    let p = g.packages[pr.1 as int];
    ReportEntryV {
        key: key_for(rep, p),
        features: classify_node(p, n, g.member_ids.contains(p.id), usage_names(us, p.id)),
    }
}

/// One pass over the sorted node/package pairs, growing the report.
pub open spec fn build_report(
    g: GraphV,
    us: Seq<UsageSetV>,
    prs: Seq<(usize, usize)>,
    acc: Seq<ReportEntryV>,
) -> Seq<ReportEntryV>
    decreases prs.len(),
{
    if prs.len() == 0 {
        acc
    } else {
        build_report(g, us, prs.skip(1), upsert(acc, entry_for(g, us, acc, prs[0])))
    }
}

/// The whole classification of a resolvable graph.
pub open spec fn classify_spec(g: GraphV, us: Seq<UsageSetV>) -> Seq<ReportEntryV> {
    build_report(g, us, sort_pairs(g, resolve_pairs(g)), Seq::empty())
}

/// Compares two packages in visitation order.
fn pkg_lt(p: &Package, q: &Package) -> (r: bool)
    ensures
        r == pkg_order_lt(p@, q@),
{
    if str_lt(p.name.as_str(), q.name.as_str()) {
        return true;
    }
    if !str_eq(p.name.as_str(), q.name.as_str()) {
        return false;
    }
    if str_lt(p.version.as_str(), q.version.as_str()) {
        return true;
    }
    if !str_eq(p.version.as_str(), q.version.as_str()) {
        return false;
    }
    str_lt(p.id.as_str(), q.id.as_str())
}

/// Whether the name list `v` holds `x`.
#[verifier::loop_isolation(false)]
pub fn contains_name(v: &Vec<String>, x: &str) -> (r: bool)
    ensures
        r == v.deep_view().contains(x@),
{
    let mut j: usize = 0;
    while j < v.len()
        invariant
            j <= v@.len(),
            forall|k: int| 0 <= k < j ==> v.deep_view()[k] != x@,
        decreases v@.len() - j,
    {
        if str_eq(v[j].as_str(), x) {
            proof {
                assert(v.deep_view()[j as int] == x@);
            }
            return true;
        }
        j = j + 1;
    }
    proof {
        if v.deep_view().contains(x@) {
            let k = choose|k: int| 0 <= k < v.deep_view().len() && v.deep_view()[k] == x@;
            assert(false);
        }
    }
    false
}

proof fn lemma_find_package_idx_prefix(ps: Seq<PackageV>, id: Seq<char>, i: int)
    requires
        ps.len() <= usize::MAX,
        0 <= i <= ps.len(),
        forall|j: int| 0 <= j < i ==> ps[j].id != id,
    ensures
        find_package_idx(ps, id) == match find_package_idx(ps.skip(i), id) {
            Some(k) => Some((i + k) as usize),
            None => None::<usize>,
        },
    decreases i,
{
    if i == 0 {
        assert(ps.skip(0) =~= ps);
        match find_package_idx(ps, id) {
            Some(k) => {
                assert((0 + k) as usize == k);
            },
            None => {},
        }
    } else {
        lemma_find_package_idx_prefix(ps, id, i - 1);
        assert(ps.skip(i - 1).len() > 0);
        assert(ps.skip(i - 1)[0] == ps[i - 1]);
        assert(ps.skip(i - 1).skip(1) =~= ps.skip(i));
        lemma_find_package_idx(ps.skip(i), id);
    }
}

/// Finds the position of the first package of `ps` whose id is `id`.
#[verifier::loop_isolation(false)]
fn find_package_exec(ps: &Vec<Package>, id: &str) -> (r: Option<usize>)
    ensures
        r == find_package_idx(ps.deep_view(), id@),
{
    let ghost psv = ps.deep_view();
    let mut i: usize = 0;
    while i < ps.len()
        invariant
            i <= ps@.len(),
            psv.len() == ps@.len(),
            forall|j: int| 0 <= j < i ==> psv[j].id != id@,
        decreases ps@.len() - i,
    {
        if str_eq(ps[i].id.as_str(), id) {
            proof {
                assert(psv[i as int].id == id@);
                lemma_find_package_idx_prefix(psv, id@, i as int);
                assert(psv.skip(i as int)[0] == psv[i as int]);
                assert(find_package_idx(psv.skip(i as int), id@) == Some(0usize));
            }
            return Some(i);
        }
        i = i + 1;
    }
    proof {
        lemma_find_package_idx_prefix(psv, id@, psv.len() as int);
        assert(psv.skip(psv.len() as int).len() == 0);
    }
    None
}

/// Looks up the usage set recorded for package `id`.
#[verifier::loop_isolation(false)]
fn find_usage<'a>(us: &'a Vec<UsageSet>, id: &str) -> (r: Option<&'a Vec<String>>)
    ensures
        match r {
            Some(u) => u.deep_view() == usage_names(us.deep_view(), id@),
            None => usage_names(us.deep_view(), id@) == Seq::<Seq<char>>::empty(),
        },
{
    let ghost usv = us.deep_view();
    let mut i: usize = 0;
    proof {
        assert(usv.skip(0) =~= usv);
    }
    while i < us.len()
        invariant
            i <= us@.len(),
            usv.len() == us@.len(),
            usage_names(usv, id@) == usage_names(usv.skip(i as int), id@),
        decreases us@.len() - i,
    {
        proof {
            assert(usv.skip(i as int)[0] == usv[i as int]);
        }
        if str_eq(us[i].package_id.as_str(), id) {
            return Some(&us[i].used);
        }
        proof {
            assert(usv.skip(i as int).skip(1) =~= usv.skip(i as int + 1));
        }
        i = i + 1;
    }
    None
}

/// Collects the sorted list of declared names not in `act`.
#[verifier::loop_isolation(false)]
fn unused_exec(decls: &Vec<FeatureDecl>, act: &Vec<String>) -> (r: Vec<String>)
    ensures
        r.deep_view() == unused_names(decls.deep_view(), act.deep_view()),
{
    let ghost ds = decls.deep_view();
    let mut out: Vec<String> = Vec::new();
    let mut i: usize = 0;
    proof {
        assert(out.deep_view() =~= unused_names(ds.take(0), act.deep_view()));
    }
    while i < decls.len()
        invariant
            i <= decls@.len(),
            ds.len() == decls@.len(),
            out.deep_view() == unused_names(ds.take(i as int), act.deep_view()),
        decreases decls@.len() - i,
    {
        proof {
            assert(ds.take(i as int + 1).drop_last() =~= ds.take(i as int));
            assert(ds.take(i as int + 1).last() == ds[i as int]);
        }
        if !contains_name(act, decls[i].name.as_str()) {
            let x = decls[i].name.clone();
            out = insert_name_exec(out, x);
        }
        i = i + 1;
    }
    proof {
        assert(ds.take(ds.len() as int) =~= ds);
    }
    out
}

/// Collects the sorted list of dangling names: declared with no activation
/// targets, not activated, and not referenced in source.
#[verifier::loop_isolation(false)]
fn dangling_exec(decls: &Vec<FeatureDecl>, act: &Vec<String>, used: &Vec<String>) -> (r: Vec<
    String,
>)
    ensures
        r.deep_view() == dangling_names(decls.deep_view(), act.deep_view(), used.deep_view()),
{
    let ghost ds = decls.deep_view();
    let mut out: Vec<String> = Vec::new();
    let mut i: usize = 0;
    proof {
        assert(out.deep_view() =~= dangling_names(ds.take(0), act.deep_view(), used.deep_view()));
    }
    while i < decls.len()
        invariant
            i <= decls@.len(),
            ds.len() == decls@.len(),
            out.deep_view() == dangling_names(ds.take(i as int), act.deep_view(), used.deep_view()),
        decreases decls@.len() - i,
    {
        proof {
            assert(ds.take(i as int + 1).drop_last() =~= ds.take(i as int));
            assert(ds.take(i as int + 1).last() == ds[i as int]);
        }
        if decls[i].targets.len() == 0 && !contains_name(act, decls[i].name.as_str())
            && !contains_name(used, decls[i].name.as_str()) {
            let x = decls[i].name.clone();
            out = insert_name_exec(out, x);
        }
        i = i + 1;
    }
    proof {
        assert(ds.take(ds.len() as int) =~= ds);
    }
    out
}

/// Classifies one package under one resolution node: its activated features
/// sorted, the declared-but-not-activated rest, and, for workspace members,
/// the dangling removal candidates.
pub fn classify_features(pkg: &Package, node: &Node, member: bool, used: &Vec<String>) -> (r:
    FeatureSet)
    ensures
        r@ == classify_node(pkg@, node@, member, used.deep_view()),
{
    let enabled = sort_names_exec(&node.activated);
    let unused = unused_exec(&pkg.features, &node.activated);
    let dangling = if member {
        dangling_exec(&pkg.features, &node.activated, used)
    } else {
        Vec::new()
    };
    proof {
        if !member {
            assert(dangling.deep_view() =~= Seq::<Seq<char>>::empty());
        }
    }
    FeatureSet { enabled, unused, dangling }
}

/// Whether some entry of `rep` already claimed key `k`.
#[verifier::loop_isolation(false)]
fn key_taken_exec(rep: &Vec<ReportEntry>, k: &str) -> (r: bool)
    ensures
        r == key_taken(rep.deep_view(), k@),
{
    let mut j: usize = 0;
    while j < rep.len()
        invariant
            j <= rep@.len(),
            forall|t: int| 0 <= t < j ==> rep.deep_view()[t].key != k@,
        decreases rep@.len() - j,
    {
        if str_eq(rep[j].key.as_str(), k) {
            proof {
                assert(rep.deep_view()[j as int].key == k@);
            }
            return true;
        }
        j = j + 1;
    }
    proof {
        if key_taken(rep.deep_view(), k@) {
            let t = choose|t: int|
                0 <= t < rep.deep_view().len() && rep.deep_view()[t].key == k@;
            assert(false);
        }
    }
    false
}

/// Computes the report key of `pkg`: the bare name, or `name@version` when
/// the bare name is already claimed.
fn make_key(rep: &Vec<ReportEntry>, pkg: &Package) -> (k: String)
    ensures
        k@ == key_for(rep.deep_view(), pkg@),
{
    if key_taken_exec(rep, pkg.name.as_str()) {
        let mut k = pkg.name.clone();
        k.append("@");
        k.append(pkg.version.as_str());
        proof {
            reveal_strlit("@");
            assert("@"@ =~= seq!['@']);
        }
        k
    } else {
        pkg.name.clone()
    }
}

/// Inserts `e` into the report: replaces the entry with the same key, or
/// appends.
#[verifier::loop_isolation(false)]
fn upsert_exec(rep: Vec<ReportEntry>, e: ReportEntry) -> (r: Vec<ReportEntry>)
    ensures
        r.deep_view() == upsert(rep.deep_view(), e.deep_view()),
{
    let ghost s = rep.deep_view();
    let ghost ev = e.deep_view();
    let mut rep = rep;
    let mut p: usize = 0;
    proof {
        assert(s.skip(0) =~= s);
        assert(s.take(0) + upsert(s.skip(0), ev) =~= upsert(s, ev));
    }
    loop
        invariant
            p <= rep@.len(),
            rep.deep_view() == s,
            s.len() == rep@.len(),
            upsert(s, ev) == s.take(p as int) + upsert(s.skip(p as int), ev),
        decreases rep@.len() - p,
    {
        if p == rep.len() {
            rep.push(e);
            proof {
                assert(upsert(s.skip(p as int), ev) =~= seq![ev]);
                assert forall|t: int| 0 <= t < rep@.len() implies rep.deep_view()[t] == (s.take(
                    p as int,
                ) + seq![ev])[t] by {
                    if t < p as int {
                        assert(rep.deep_view()[t] == s[t]);
                    }
                }
                assert(rep.deep_view() =~= s.take(p as int) + seq![ev]);
            }
            return rep;
        }
        proof {
            assert(s.skip(p as int)[0] == s[p as int]);
            assert(s[p as int] == rep@[p as int].deep_view());
        }
        if str_eq(rep[p].key.as_str(), e.key.as_str()) {
            let ghost before = rep@;
            rep.remove(p);
            let ghost removed = rep@;
            rep.insert(p, e);
            proof {
                assert(upsert(s.skip(p as int), ev) == seq![ev] + s.skip(p as int).skip(1));
                assert(s.skip(p as int).skip(1) =~= s.skip(p as int + 1));
                assert forall|t: int| 0 <= t < rep@.len() implies rep.deep_view()[t] == (s.take(
                    p as int,
                ) + (seq![ev] + s.skip(p as int + 1)))[t] by {
                    removed.insert_ensures(p as int, e);
                    if t < p as int {
                        assert(rep@[t] == removed[t]);
                        assert(removed[t] == before[t]);
                    } else if t == p as int {
                        assert(rep@[t] == e);
                    } else {
                        assert(rep@[t] == removed[t - 1]);
                        assert(removed[t - 1] == before[t]);
                    }
                }
                assert(rep.deep_view() =~= s.take(p as int) + (seq![ev] + s.skip(p as int + 1)));
            }
            return rep;
        }
        proof {
            assert(s.skip(p as int).skip(1) =~= s.skip(p as int + 1));
            assert(s.take(p as int) + seq![s[p as int]] =~= s.take(p as int + 1));
            assert((s.take(p as int) + (seq![s[p as int]] + upsert(s.skip(p as int + 1), ev)))
                =~= ((s.take(p as int) + seq![s[p as int]]) + upsert(s.skip(p as int + 1), ev)));
        }
        p = p + 1;
    }
}

/// Inserts the pair `x` into the sorted pair list, stably.
#[verifier::loop_isolation(false)]
fn insert_pair_exec(graph: &Graph, pairs: Vec<(usize, usize)>, x: (usize, usize)) -> (r: Vec<
    (usize, usize),
>)
    requires
        (x.0 as int) < graph.nodes@.len(),
        (x.1 as int) < graph.packages@.len(),
        forall|t: int| 0 <= t < pairs@.len() ==> (#[trigger] pairs@[t].1 as int)
            < graph.packages@.len(),
        forall|t: int| 0 <= t < pairs@.len() ==> (#[trigger] pairs@[t].0 as int)
            < graph.nodes@.len(),
    ensures
        r@ == insert_pair(graph@, pairs@, x),
        forall|t: int| 0 <= t < r@.len() ==> (#[trigger] r@[t].1 as int) < graph.packages@.len(),
        forall|t: int| 0 <= t < r@.len() ==> (#[trigger] r@[t].0 as int) < graph.nodes@.len(),
{
    let ghost s = pairs@;
    let mut pairs = pairs;
    let mut p: usize = 0;
    proof {
        assert(s.skip(0) =~= s);
        assert(s.take(0) + insert_pair(graph@, s.skip(0), x) =~= insert_pair(graph@, s, x));
    }
    loop
        invariant
            p <= pairs@.len(),
            pairs@ == s,
            insert_pair(graph@, s, x) == s.take(p as int) + insert_pair(
                graph@,
                s.skip(p as int),
                x,
            ),
        decreases pairs@.len() - p,
    {
        if p == pairs.len() {
            proof {
                assert(insert_pair(graph@, s.skip(p as int), x) =~= seq![x] + s.skip(p as int));
            }
            return place_pair(pairs, p, x, Ghost(s));
        }
        proof {
            assert(s.skip(p as int)[0] == s[p as int]);
            assert(graph@.packages[x.1 as int] == graph.packages@[x.1 as int]@);
            let sp = s[p as int];
            assert(graph@.packages[sp.1 as int] == graph.packages@[sp.1 as int]@);
        }
        let a = pairs[p];
        let lt = pkg_lt(&graph.packages[x.1], &graph.packages[a.1]);
        if lt {
            proof {
                assert(insert_pair(graph@, s.skip(p as int), x) == seq![x] + s.skip(p as int));
            }
            return place_pair(pairs, p, x, Ghost(s));
        }
        proof {
            assert(s.skip(p as int).skip(1) =~= s.skip(p as int + 1));
            assert(s.take(p as int) + seq![s[p as int]] =~= s.take(p as int + 1));
            assert((s.take(p as int) + (seq![s[p as int]] + insert_pair(
                graph@,
                s.skip(p as int + 1),
                x,
            ))) =~= ((s.take(p as int) + seq![s[p as int]]) + insert_pair(
                graph@,
                s.skip(p as int + 1),
                x,
            )));
        }
        p = p + 1;
    }
}

/// Places the pair `x` at position `p`; the helper step of ordered
/// insertion.
fn place_pair(
    pairs: Vec<(usize, usize)>,
    p: usize,
    x: (usize, usize),
    Ghost(s): Ghost<Seq<(usize, usize)>>,
) -> (r: Vec<(usize, usize)>)
    requires
        p <= pairs@.len(),
        s == pairs@,
    ensures
        r@ == s.take(p as int) + (seq![x] + s.skip(p as int)),
{
    let mut pairs = pairs;
    let ghost vseq = pairs@;
    pairs.insert(p, x);
    proof {
        vseq.insert_ensures(p as int, x);
        assert forall|t: int| 0 <= t < pairs@.len() implies pairs@[t] == (s.take(p as int) + (
        seq![x] + s.skip(p as int)))[t] by {
            if t < p as int {
                assert(pairs@[t] == vseq[t]);
            } else if t == p as int {
                assert(pairs@[t] == x);
            } else {
                assert(pairs@[t] == vseq[t - 1]);
            }
        }
        assert(pairs@ =~= s.take(p as int) + (seq![x] + s.skip(p as int)));
    }
    pairs
}

/// Sorts the node/package pairs into visitation order.
#[verifier::loop_isolation(false)]
fn sort_pairs_exec(graph: &Graph, pairs: &Vec<(usize, usize)>) -> (r: Vec<(usize, usize)>)
    requires
        forall|t: int| 0 <= t < pairs@.len() ==> (#[trigger] pairs@[t].1 as int)
            < graph.packages@.len(),
        forall|t: int| 0 <= t < pairs@.len() ==> (#[trigger] pairs@[t].0 as int)
            < graph.nodes@.len(),
    ensures
        r@ == sort_pairs(graph@, pairs@),
        forall|t: int| 0 <= t < r@.len() ==> (#[trigger] r@[t].1 as int) < graph.packages@.len(),
        forall|t: int| 0 <= t < r@.len() ==> (#[trigger] r@[t].0 as int) < graph.nodes@.len(),
{
    let ghost s = pairs@;
    let mut out: Vec<(usize, usize)> = Vec::new();
    let mut i: usize = 0;
    proof {
        assert(out@ =~= sort_pairs(graph@, s.take(0)));
    }
    while i < pairs.len()
        invariant
            i <= pairs@.len(),
            out@ == sort_pairs(graph@, s.take(i as int)),
            forall|t: int| 0 <= t < out@.len() ==> (#[trigger] out@[t].1 as int)
                < graph.packages@.len(),
            forall|t: int| 0 <= t < out@.len() ==> (#[trigger] out@[t].0 as int)
                < graph.nodes@.len(),
        decreases pairs@.len() - i,
    {
        let x = pairs[i];
        out = insert_pair_exec(graph, out, x);
        proof {
            assert(s.take(i as int + 1).drop_last() =~= s.take(i as int));
            assert(s.take(i as int + 1).last() == s[i as int]);
        }
        i = i + 1;
    }
    proof {
        assert(s.take(s.len() as int) =~= s);
    }
    out
}

/// Classifies every resolution node of `graph`, consulting `usages` for the
/// scanned source references of workspace members, and returns the report
/// entries in deterministic order. Fails exactly when some node names a
/// package id the graph does not hold.
///
/// The caller scans each workspace member's source tree beforehand and
/// hands the results in; a member with no recorded usage set is treated as
/// having no detected references.
#[verifier::loop_isolation(false)]
pub fn classify(graph: &Graph, usages: &Vec<UsageSet>) -> (r: Result<
    Vec<ReportEntry>,
    ClassifyError,
>)
    ensures
        match r {
            Ok(rep) => all_resolvable(graph@) && rep.deep_view() == classify_spec(
                graph@,
                usages.deep_view(),
            ),
            Err(e) => e == ClassifyError::InconsistentGraph && !all_resolvable(graph@),
        },
{
    let ghost g = graph@;
    let ghost usv = usages.deep_view();
    let n_packages = graph.packages.len();
    proof {
        assert(g.packages.len() == n_packages);
    }

    // Resolve every node to its package position.
    let mut pairs: Vec<(usize, usize)> = Vec::new();
    let mut i: usize = 0;
    proof {
        assert(pairs@ =~= resolve_pairs(g).take(0));
    }
    while i < graph.nodes.len()
        invariant
            i <= graph.nodes@.len(),
            g.nodes.len() == graph.nodes@.len(),
            pairs@ == resolve_pairs(g).take(i as int),
            forall|j: int| 0 <= j < i ==> #[trigger] find_package_idx(
                g.packages,
                g.nodes[j].id,
            ) is Some,
            forall|t: int| 0 <= t < pairs@.len() ==> (#[trigger] pairs@[t].1 as int)
                < graph.packages@.len(),
            forall|t: int| 0 <= t < pairs@.len() ==> (#[trigger] pairs@[t].0 as int)
                < graph.nodes@.len(),
        decreases graph.nodes@.len() - i,
    {
        proof {
            assert(g.nodes[i as int] == graph.nodes@[i as int]@);
        }
        match find_package_exec(&graph.packages, graph.nodes[i].id.as_str()) {
            Some(k) => {
                proof {
                    lemma_find_package_idx(g.packages, g.nodes[i as int].id);
                    assert(resolve_pairs(g)[i as int] == (i as usize, k));
                    assert(resolve_pairs(g).take(i as int + 1) =~= resolve_pairs(g).take(
                        i as int,
                    ).push((i as usize, k)));
                    assert(pairs@.push((i as usize, k)) =~= resolve_pairs(g).take(i as int + 1));
                }
                pairs.push((i, k));
            },
            None => {
                proof {
                    assert(find_package_idx(g.packages, g.nodes[i as int].id) is None);
                }
                return Err(ClassifyError::InconsistentGraph);
            },
        }
        i = i + 1;
    }
    proof {
        assert(resolve_pairs(g).take(g.nodes.len() as int) =~= resolve_pairs(g));
    }

    // Sort into the deterministic visitation order.
    let sorted = sort_pairs_exec(graph, &pairs);

    // Build the report.
    let ghost order = sorted@;
    let mut rep: Vec<ReportEntry> = Vec::new();
    let mut t: usize = 0;
    proof {
        assert(order.skip(0) =~= order);
        assert(rep.deep_view() =~= Seq::<ReportEntryV>::empty());
    }
    while t < sorted.len()
        invariant
            t <= sorted@.len(),
            sorted@ == order,
            forall|u: int| 0 <= u < order.len() ==> (#[trigger] order[u].1 as int)
                < graph.packages@.len(),
            forall|u: int| 0 <= u < order.len() ==> (#[trigger] order[u].0 as int)
                < graph.nodes@.len(),
            build_report(g, usv, order, Seq::empty()) == build_report(
                g,
                usv,
                order.skip(t as int),
                rep.deep_view(),
            ),
        decreases sorted@.len() - t,
    {
        let (ni, pi) = sorted[t];
        let node = &graph.nodes[ni];
        let pkg = &graph.packages[pi];
        proof {
            assert(order.skip(t as int)[0] == order[t as int]);
            assert(g.nodes[ni as int] == graph.nodes@[ni as int]@);
            assert(g.packages[pi as int] == graph.packages@[pi as int]@);
        }
        let member = contains_name(&graph.member_ids, pkg.id.as_str());
        let empty_used: Vec<String> = Vec::new();
        let used: &Vec<String> = match find_usage(usages, pkg.id.as_str()) {
            Some(u) => u,
            None => &empty_used,
        };
        proof {
            assert(used.deep_view() =~= usage_names(usv, g.packages[pi as int].id));
        }
        let features = classify_features(pkg, node, member, used);
        let key = make_key(&rep, pkg);
        let entry = ReportEntry { key, features };
        proof {
            assert(entry.deep_view() == entry_for(g, usv, rep.deep_view(), order[t as int]));
        }
        rep = upsert_exec(rep, entry);
        proof {
            assert(order.skip(t as int).skip(1) =~= order.skip(t as int + 1));
        }
        t = t + 1;
    }
    proof {
        assert(order.skip(order.len() as int) =~= Seq::<(usize, usize)>::empty());
    }
    Ok(rep)
}

} // verus!
