//! The properties the classification promises, stated and proved once and
//! for all: the partition of declared names into enabled and unused, the
//! dangling subset, the sortedness of every list, the uniqueness of report
//! keys, and the determinism of the whole run.

use vstd::prelude::*;

verus! {

use crate::classify::build_report;
use crate::classify::classify_node;
use crate::classify::classify_spec;
use crate::classify::dangling_names;
use crate::classify::key_taken;
use crate::classify::unused_names;
use crate::classify::upsert;
use crate::model::FeatureDeclV;
use crate::model::FeatureSetV;
use crate::model::GraphV;
use crate::model::NodeV;
use crate::model::PackageV;
use crate::model::ReportEntryV;
use crate::model::UsageSetV;
use crate::model::declared_contains;
use crate::model::declared_empty_targets;
use crate::classify::all_resolvable;
use crate::classify::entry_for;
use crate::classify::insert_pair;
use crate::classify::resolve_pairs;
use crate::classify::sort_pairs;
use crate::classify::usage_names;
use crate::model::find_package_idx;
use crate::model::lemma_find_package_idx;
use crate::order::insert_name;
use crate::order::lemma_cons_contains;
use crate::order::lemma_insert_name_contains;
use crate::order::lemma_insert_name_sorted;
use crate::order::lemma_sort_names_contains;
use crate::order::lemma_sort_names_sorted;
use crate::order::strictly_sorted;
use crate::render::render_report;

proof fn lemma_declared_unsnoc(fs: Seq<FeatureDeclV>, y: Seq<char>)
    requires
        fs.len() > 0,
    ensures
        declared_contains(fs, y) <==> (declared_contains(fs.drop_last(), y) || fs.last().name
            == y),
{
    if declared_contains(fs.drop_last(), y) {
        let i = choose|i: int| 0 <= i < fs.drop_last().len() && fs.drop_last()[i].name == y;
        assert(fs[i].name == y);
    }
    if fs.last().name == y {
        assert(fs[fs.len() - 1].name == y);
    }
    if declared_contains(fs, y) {
        let i = choose|i: int| 0 <= i < fs.len() && fs[i].name == y;
        if i < fs.len() - 1 {
            assert(fs.drop_last()[i].name == y);
        }
    }
}

proof fn lemma_declared_empty_unsnoc(fs: Seq<FeatureDeclV>, y: Seq<char>)
    requires
        fs.len() > 0,
    ensures
        declared_empty_targets(fs, y) <==> (declared_empty_targets(fs.drop_last(), y) || (
        fs.last().name == y && fs.last().targets.len() == 0)),
{
    if declared_empty_targets(fs.drop_last(), y) {
        let i = choose|i: int|
            0 <= i < fs.drop_last().len() && fs.drop_last()[i].name == y
                && fs.drop_last()[i].targets.len() == 0;
        assert(fs[i].name == y && fs[i].targets.len() == 0);
    }
    if fs.last().name == y && fs.last().targets.len() == 0 {
        assert(fs[fs.len() - 1].name == y && fs[fs.len() - 1].targets.len() == 0);
    }
    if declared_empty_targets(fs, y) {
        let i = choose|i: int| 0 <= i < fs.len() && fs[i].name == y && fs[i].targets.len() == 0;
        if i < fs.len() - 1 {
            assert(fs.drop_last()[i].name == y && fs.drop_last()[i].targets.len() == 0);
        }
    }
}

/// What the unused list holds: exactly the declared names not activated.
pub proof fn lemma_unused_names_contains(fs: Seq<FeatureDeclV>, act: Seq<Seq<char>>, y: Seq<char>)
    ensures
        unused_names(fs, act).contains(y) <==> (declared_contains(fs, y) && !act.contains(y)),
    decreases fs.len(),
{
    if fs.len() == 0 {
        if declared_contains(fs, y) {
            let i = choose|i: int| 0 <= i < fs.len() && fs[i].name == y;
        }
    } else {
        lemma_unused_names_contains(fs.drop_last(), act, y);
        lemma_declared_unsnoc(fs, y);
        if !act.contains(fs.last().name) {
            lemma_insert_name_contains(unused_names(fs.drop_last(), act), fs.last().name, y);
        }
    }
}

/// What the dangling list holds: exactly the names declared with an empty
/// activation-target list, not activated, and not seen in source.
pub proof fn lemma_dangling_names_contains(
    fs: Seq<FeatureDeclV>,
    act: Seq<Seq<char>>,
    used: Seq<Seq<char>>,
    y: Seq<char>,
)
    ensures
        dangling_names(fs, act, used).contains(y) <==> (declared_empty_targets(fs, y)
            && !act.contains(y) && !used.contains(y)),
    decreases fs.len(),
{
    if fs.len() == 0 {
        if declared_empty_targets(fs, y) {
            let i = choose|i: int|
                0 <= i < fs.len() && fs[i].name == y && fs[i].targets.len() == 0;
        }
    } else {
        lemma_dangling_names_contains(fs.drop_last(), act, used, y);
        lemma_declared_empty_unsnoc(fs, y);
        if fs.last().targets.len() == 0 && !act.contains(fs.last().name) && !used.contains(
            fs.last().name,
        ) {
            lemma_insert_name_contains(
                dangling_names(fs.drop_last(), act, used),
                fs.last().name,
                y,
            );
        }
    }
}

proof fn lemma_unused_names_sorted(fs: Seq<FeatureDeclV>, act: Seq<Seq<char>>)
    ensures
        strictly_sorted(unused_names(fs, act)),
    decreases fs.len(),
{
    if fs.len() > 0 {
        lemma_unused_names_sorted(fs.drop_last(), act);
        if !act.contains(fs.last().name) {
            lemma_insert_name_sorted(unused_names(fs.drop_last(), act), fs.last().name);
        }
    }
}

proof fn lemma_dangling_names_sorted(
    fs: Seq<FeatureDeclV>,
    act: Seq<Seq<char>>,
    used: Seq<Seq<char>>,
)
    ensures
        strictly_sorted(dangling_names(fs, act, used)),
    decreases fs.len(),
{
    if fs.len() > 0 {
        lemma_dangling_names_sorted(fs.drop_last(), act, used);
        if fs.last().targets.len() == 0 && !act.contains(fs.last().name) && !used.contains(
            fs.last().name,
        ) {
            lemma_insert_name_sorted(dangling_names(fs.drop_last(), act, used), fs.last().name);
        }
    }
}

/// Partition law: for a package whose activated features are all declared,
/// the enabled and unused lists split the declared names exactly — no name
/// stands in both, and together they hold precisely the declared names.
pub proof fn lemma_enabled_unused_partition(
    p: PackageV,
    n: NodeV,
    member: bool,
    used: Seq<Seq<char>>,
    y: Seq<char>,
)
    requires
        forall|z: Seq<char>| #[trigger] n.activated.contains(z) ==> declared_contains(
            p.features,
            z,
        ),
    ensures
        !(classify_node(p, n, member, used).enabled.contains(y) && classify_node(
            p,
            n,
            member,
            used,
        ).unused.contains(y)),
        (classify_node(p, n, member, used).enabled.contains(y) || classify_node(
            p,
            n,
            member,
            used,
        ).unused.contains(y)) <==> declared_contains(p.features, y),
{
    lemma_sort_names_contains(n.activated, y);
    lemma_unused_names_contains(p.features, n.activated, y);
}

/// Subset law: every dangling name is unused, and a package outside the
/// workspace has no dangling names at all.
pub proof fn lemma_dangling_subset(
    p: PackageV,
    n: NodeV,
    member: bool,
    used: Seq<Seq<char>>,
    y: Seq<char>,
)
    ensures
        classify_node(p, n, member, used).dangling.contains(y) ==> classify_node(
            p,
            n,
            member,
            used,
        ).unused.contains(y),
        !member ==> classify_node(p, n, member, used).dangling.len() == 0,
{
    if member {
        lemma_dangling_names_contains(p.features, n.activated, used, y);
        lemma_unused_names_contains(p.features, n.activated, y);
        if classify_node(p, n, member, used).dangling.contains(y) {
            let i = choose|i: int|
                0 <= i < p.features.len() && p.features[i].name == y && p.features[i].targets.len()
                    == 0;
            assert(declared_contains(p.features, y));
        }
    }
}

/// Sort law: the three lists of every classification are strictly sorted in
/// lexicographic order, so each is free of duplicates.
pub proof fn lemma_classification_sorted(p: PackageV, n: NodeV, member: bool, used: Seq<Seq<char>>)
    ensures
        strictly_sorted(classify_node(p, n, member, used).enabled),
        strictly_sorted(classify_node(p, n, member, used).unused),
        strictly_sorted(classify_node(p, n, member, used).dangling),
{
    lemma_sort_names_sorted(n.activated);
    lemma_unused_names_sorted(p.features, n.activated);
    if member {
        lemma_dangling_names_sorted(p.features, n.activated, used);
    }
}

/// No two report entries share a key.
pub open spec fn keys_unique(rep: Seq<ReportEntryV>) -> bool {
    forall|i: int, j: int| 0 <= i < j < rep.len() ==> rep[i].key != rep[j].key
}

proof fn lemma_key_taken_cons(h: ReportEntryV, t: Seq<ReportEntryV>, k: Seq<char>)
    ensures
        key_taken(seq![h] + t, k) <==> (h.key == k || key_taken(t, k)),
{
    let s = seq![h] + t;
    if key_taken(t, k) {
        let j = choose|j: int| 0 <= j < t.len() && t[j].key == k;
        assert(s[j + 1].key == k);
    }
    if h.key == k {
        assert(s[0].key == k);
    }
    if key_taken(s, k) {
        let j = choose|j: int| 0 <= j < s.len() && s[j].key == k;
        if j > 0 {
            assert(t[j - 1].key == k);
        }
    }
}

proof fn lemma_upsert_key_taken(rep: Seq<ReportEntryV>, e: ReportEntryV, k: Seq<char>)
    ensures
        key_taken(upsert(rep, e), k) <==> (key_taken(rep, k) || e.key == k),
    decreases rep.len(),
{
    if rep.len() == 0 {
        if key_taken(upsert(rep, e), k) {
            let j = choose|j: int| 0 <= j < seq![e].len() && seq![e][j].key == k;
        }
        if e.key == k {
            assert(upsert(rep, e)[0].key == k);
        }
        if key_taken(rep, k) {
            let j = choose|j: int| 0 <= j < rep.len() && rep[j].key == k;
        }
    } else if rep[0].key == e.key {
        lemma_key_taken_cons(e, rep.skip(1), k);
        lemma_key_taken_cons(rep[0], rep.skip(1), k);
        assert(seq![rep[0]] + rep.skip(1) =~= rep);
    } else {
        lemma_upsert_key_taken(rep.skip(1), e, k);
        lemma_key_taken_cons(rep[0], upsert(rep.skip(1), e), k);
        lemma_key_taken_cons(rep[0], rep.skip(1), k);
        assert(seq![rep[0]] + rep.skip(1) =~= rep);
    }
}

proof fn lemma_upsert_keys_unique(rep: Seq<ReportEntryV>, e: ReportEntryV)
    requires
        keys_unique(rep),
    ensures
        keys_unique(upsert(rep, e)),
    decreases rep.len(),
{
    if rep.len() == 0 {
    } else if rep[0].key == e.key {
        let r = seq![e] + rep.skip(1);
        assert forall|i: int, j: int| 0 <= i < j < r.len() implies r[i].key != r[j].key by {
            if i == 0 {
                assert(r[j] == rep.skip(1)[j - 1]);
                assert(rep.skip(1)[j - 1] == rep[j]);
            } else {
                assert(r[i] == rep[i] && r[j] == rep[j]);
            }
        }
    } else {
        assert(keys_unique(rep.skip(1))) by {
            assert forall|i: int, j: int|
                0 <= i < j < rep.skip(1).len() implies rep.skip(1)[i].key != rep.skip(
                1,
            )[j].key by {
                assert(rep.skip(1)[i] == rep[i + 1]);
                assert(rep.skip(1)[j] == rep[j + 1]);
            }
        }
        lemma_upsert_keys_unique(rep.skip(1), e);
        let t = upsert(rep.skip(1), e);
        let r = seq![rep[0]] + t;
        assert forall|i: int, j: int| 0 <= i < j < r.len() implies r[i].key != r[j].key by {
            if i == 0 {
                if r[j].key == rep[0].key {
                    assert(key_taken(t, rep[0].key)) by {
                        assert(t[j - 1].key == rep[0].key);
                    }
                    lemma_upsert_key_taken(rep.skip(1), e, rep[0].key);
                    if key_taken(rep.skip(1), rep[0].key) {
                        let u = choose|u: int|
                            0 <= u < rep.skip(1).len() && rep.skip(1)[u].key == rep[0].key;
                        assert(rep[u + 1].key == rep[0].key);
                    }
                }
            } else {
                assert(r[i] == t[i - 1] && r[j] == t[j - 1]);
            }
        }
    }
}

/// The pair names a node of the graph together with the package position
/// it resolves to.
pub open spec fn resolved_pair(g: GraphV, pr: (usize, usize)) -> bool {
    (pr.0 as int) < g.nodes.len() && find_package_idx(g.packages, g.nodes[pr.0 as int].id)
        == Some(pr.1)
}

/// The classification one of the graph's nodes gives rise to.
pub open spec fn node_entry(g: GraphV, us: Seq<UsageSetV>, ni: int, pi: int) -> FeatureSetV {
    classify_node(
        g.packages[pi],
        g.nodes[ni],
        g.member_ids.contains(g.packages[pi].id),
        usage_names(us, g.packages[pi].id),
    )
}

/// The entry carries the classification of some resolution node of the
/// graph, under that package's bare name or its version-qualified key.
pub open spec fn from_some_node(g: GraphV, us: Seq<UsageSetV>, e: ReportEntryV) -> bool {
    exists|ni: int, pi: int|
        0 <= ni < g.nodes.len() && 0 <= pi < g.packages.len() && e.features == #[trigger]
        node_entry(g, us, ni, pi) && (e.key == g.packages[pi].name || e.key == g.packages[pi].name
            + seq!['@'] + g.packages[pi].version)
}

proof fn lemma_upsert_entries(rep: Seq<ReportEntryV>, e: ReportEntryV)
    ensures
        forall|t: int|
            0 <= t < upsert(rep, e).len() ==> (#[trigger] upsert(rep, e)[t] == e || rep.contains(
                upsert(rep, e)[t],
            )),
    decreases rep.len(),
{
    if rep.len() == 0 {
    } else if rep[0].key == e.key {
        assert forall|t: int|
            0 <= t < upsert(rep, e).len() implies (#[trigger] upsert(rep, e)[t] == e
            || rep.contains(upsert(rep, e)[t])) by {
            if t > 0 {
                assert(upsert(rep, e)[t] == rep.skip(1)[t - 1]);
                assert(rep.skip(1)[t - 1] == rep[t]);
            }
        }
    } else {
        lemma_upsert_entries(rep.skip(1), e);
        assert forall|t: int|
            0 <= t < upsert(rep, e).len() implies (#[trigger] upsert(rep, e)[t] == e
            || rep.contains(upsert(rep, e)[t])) by {
            if t == 0 {
                assert(rep[0] == upsert(rep, e)[0]);
                assert(rep.contains(rep[0]));
            } else {
                let inner = upsert(rep.skip(1), e);
                assert(upsert(rep, e)[t] == inner[t - 1]);
                if inner[t - 1] != e {
                    let u = choose|u: int|
                        0 <= u < rep.skip(1).len() && rep.skip(1)[u] == inner[t - 1];
                    assert(rep[u + 1] == inner[t - 1]);
                }
            }
        }
    }
}

proof fn lemma_build_report_entries(
    g: GraphV,
    us: Seq<UsageSetV>,
    prs: Seq<(usize, usize)>,
    acc: Seq<ReportEntryV>,
)
    requires
        g.packages.len() <= usize::MAX,
        forall|u: int| 0 <= u < prs.len() ==> resolved_pair(g, #[trigger] prs[u]),
        forall|t: int| 0 <= t < acc.len() ==> from_some_node(g, us, #[trigger] acc[t]),
    ensures
        forall|t: int|
            0 <= t < build_report(g, us, prs, acc).len() ==> from_some_node(
                g,
                us,
                #[trigger] build_report(g, us, prs, acc)[t],
            ),
    decreases prs.len(),
{
    if prs.len() > 0 {
        let e = entry_for(g, us, acc, prs[0]);
        assert(resolved_pair(g, prs[0]));
        lemma_find_package_idx(g.packages, g.nodes[prs[0].0 as int].id);
        assert(e.features == node_entry(g, us, prs[0].0 as int, prs[0].1 as int));
        assert(from_some_node(g, us, e));
        lemma_upsert_entries(acc, e);
        let acc2 = upsert(acc, e);
        assert forall|t: int| 0 <= t < acc2.len() implies from_some_node(
            g,
            us,
            #[trigger] acc2[t],
        ) by {
            if acc2[t] != e {
                let u = choose|u: int| 0 <= u < acc.len() && acc[u] == acc2[t];
            }
        }
        assert forall|u: int| 0 <= u < prs.skip(1).len() implies resolved_pair(
            g,
            #[trigger] prs.skip(1)[u],
        ) by {
            assert(prs.skip(1)[u] == prs[u + 1]);
        }
        lemma_build_report_entries(g, us, prs.skip(1), acc2);
        let whole = build_report(g, us, prs, acc);
        let rest = build_report(g, us, prs.skip(1), acc2);
        assert(whole == rest);
        assert forall|t: int| 0 <= t < whole.len() implies from_some_node(
            g,
            us,
            #[trigger] whole[t],
        ) by {
            assert(whole[t] == rest[t]);
        }
    }
}

proof fn lemma_insert_pair_contains(
    g: GraphV,
    s: Seq<(usize, usize)>,
    x: (usize, usize),
    y: (usize, usize),
)
    ensures
        insert_pair(g, s, x).contains(y) <==> (s.contains(y) || y == x),
    decreases s.len(),
{
    if s.len() == 0 {
        if insert_pair(g, s, x).contains(y) {
            let k = choose|k: int| 0 <= k < seq![x].len() && seq![x][k] == y;
        }
        if y == x {
            assert(insert_pair(g, s, x)[0] == y);
        }
    } else if crate::classify::pkg_order_lt(g.packages[x.1 as int], g.packages[s[0].1 as int]) {
        lemma_cons_contains(x, s, y);
    } else {
        lemma_insert_pair_contains(g, s.skip(1), x, y);
        lemma_cons_contains(s[0], insert_pair(g, s.skip(1), x), y);
        lemma_cons_contains(s[0], s.skip(1), y);
        assert(seq![s[0]] + s.skip(1) =~= s);
    }
}

proof fn lemma_sort_pairs_contains(g: GraphV, s: Seq<(usize, usize)>, y: (usize, usize))
    ensures
        sort_pairs(g, s).contains(y) <==> s.contains(y),
    decreases s.len(),
{
    if s.len() > 0 {
        lemma_sort_pairs_contains(g, s.drop_last(), y);
        lemma_insert_pair_contains(g, sort_pairs(g, s.drop_last()), s.last(), y);
        crate::order::lemma_unsnoc_contains(s, y);
    }
}

/// Every entry of the classified report carries the classification of one
/// of the graph's resolution nodes.
pub proof fn lemma_report_entries_from_nodes(g: GraphV, us: Seq<UsageSetV>)
    requires
        all_resolvable(g),
        g.packages.len() <= usize::MAX,
        g.nodes.len() <= usize::MAX,
    ensures
        forall|t: int|
            0 <= t < classify_spec(g, us).len() ==> from_some_node(
                g,
                us,
                #[trigger] classify_spec(g, us)[t],
            ),
{
    let rp = resolve_pairs(g);
    let sorted = sort_pairs(g, rp);
    assert(rp.len() == g.nodes.len());
    assert forall|u: int| 0 <= u < sorted.len() implies resolved_pair(
        g,
        #[trigger] sorted[u],
    ) by {
        assert(sorted.contains(sorted[u]));
        lemma_sort_pairs_contains(g, rp, sorted[u]);
        let v = choose|v: int| 0 <= v < rp.len() && rp[v] == sorted[u];
        assert(0 <= v < g.nodes.len());
        assert(find_package_idx(g.packages, g.nodes[v].id) is Some);
        assert(rp[v] == sorted[u]);
    }
    lemma_build_report_entries(g, us, sorted, Seq::empty());
}

/// The laws above, at the level of the whole report: in every entry of a
/// classified report, no name is both enabled and unused, every dangling
/// name is unused, and all three lists are strictly sorted.
pub proof fn lemma_report_entry_properties(g: GraphV, us: Seq<UsageSetV>, t: int, y: Seq<char>)
    requires
        all_resolvable(g),
        g.packages.len() <= usize::MAX,
        g.nodes.len() <= usize::MAX,
        0 <= t < classify_spec(g, us).len(),
    ensures
        !(classify_spec(g, us)[t].features.enabled.contains(y) && classify_spec(
            g,
            us,
        )[t].features.unused.contains(y)),
        classify_spec(g, us)[t].features.dangling.contains(y) ==> classify_spec(
            g,
            us,
        )[t].features.unused.contains(y),
        strictly_sorted(classify_spec(g, us)[t].features.enabled),
        strictly_sorted(classify_spec(g, us)[t].features.unused),
        strictly_sorted(classify_spec(g, us)[t].features.dangling),
{
    lemma_report_entries_from_nodes(g, us);
    let e = classify_spec(g, us)[t];
    assert(from_some_node(g, us, e));
    let (ni, pi) = choose|ni: int, pi: int|
        0 <= ni < g.nodes.len() && 0 <= pi < g.packages.len() && e.features == #[trigger]
        node_entry(g, us, ni, pi);
    let p = g.packages[pi];
    let n = g.nodes[ni];
    let member = g.member_ids.contains(p.id);
    let used = usage_names(us, p.id);
    lemma_sort_names_contains(n.activated, y);
    lemma_unused_names_contains(p.features, n.activated, y);
    lemma_dangling_subset(p, n, member, used, y);
    lemma_classification_sorted(p, n, member, used);
}

proof fn lemma_build_report_keys_unique(
    g: GraphV,
    us: Seq<UsageSetV>,
    prs: Seq<(usize, usize)>,
    acc: Seq<ReportEntryV>,
)
    requires
        keys_unique(acc),
    ensures
        keys_unique(build_report(g, us, prs, acc)),
    decreases prs.len(),
{
    if prs.len() > 0 {
        let e = crate::classify::entry_for(g, us, acc, prs[0]);
        lemma_upsert_keys_unique(acc, e);
        lemma_build_report_keys_unique(g, us, prs.skip(1), upsert(acc, e));
    }
}

/// Collision law: whatever versions of whatever packages the graph holds,
/// no two entries of the classified report share a key, so one package's
/// classification never silently overwrites another's.
pub proof fn lemma_report_keys_unique(g: GraphV, us: Seq<UsageSetV>)
    ensures
        keys_unique(classify_spec(g, us)),
{
    lemma_build_report_keys_unique(
        g,
        us,
        crate::classify::sort_pairs(g, crate::classify::resolve_pairs(g)),
        Seq::empty(),
    );
}

/// Determinism law: the classified report is a function of the graph and
/// the scan data alone, and the rendered document is a function of the
/// report, so two runs over the same inputs give byte-identical output.
pub proof fn lemma_deterministic(
    g: GraphV,
    us: Seq<UsageSetV>,
    r1: Seq<ReportEntryV>,
    r2: Seq<ReportEntryV>,
)
    requires
        r1 == classify_spec(g, us),
        r2 == classify_spec(g, us),
    ensures
        r1 == r2,
        render_report(r1) == render_report(r2),
{
}

} // verus!
