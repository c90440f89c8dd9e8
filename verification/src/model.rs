//! The data model of one analysis run: resolved packages with their declared
//! feature tables, resolution nodes with their activated feature sets,
//! workspace membership, scanned usage sets, and the classified report.
//!
//! All values are plain, immutable snapshots; each executable type has a
//! ghost view used by the contracts.

use vstd::prelude::*;

verus! {

/// One declared feature: its name and the list of activation targets it
/// turns on (features of the same package or `dep/feature` references).
pub struct FeatureDecl {
    pub name: String,
    pub targets: Vec<String>,
}

pub ghost struct FeatureDeclV {
    pub name: Seq<char>,
    pub targets: Seq<Seq<char>>,
}

impl View for FeatureDecl {
    type V = FeatureDeclV;

    open spec fn view(&self) -> FeatureDeclV {
        FeatureDeclV { name: self.name@, targets: self.targets.deep_view() }
    }
}

impl DeepView for FeatureDecl {
    type V = FeatureDeclV;

    open spec fn deep_view(&self) -> FeatureDeclV {
        self.view()
    }
}

/// One resolved package: identity, declared feature table, and the source
/// root directory, present only for local packages.
pub struct Package {
    pub id: String,
    pub name: String,
    pub version: String,
    pub features: Vec<FeatureDecl>,
    pub source_root: Option<String>,
}

pub ghost struct PackageV {
    pub id: Seq<char>,
    pub name: Seq<char>,
    pub version: Seq<char>,
    pub features: Seq<FeatureDeclV>,
    pub source_root: Option<Seq<char>>,
}

impl View for Package {
    type V = PackageV;

    open spec fn view(&self) -> PackageV {
        PackageV {
            id: self.id@,
            name: self.name@,
            version: self.version@,
            features: self.features.deep_view(),
            source_root: self.source_root.deep_view(),
        }
    }
}

impl DeepView for Package {
    type V = PackageV;

    open spec fn deep_view(&self) -> PackageV {
        self.view()
    }
}

/// One resolution node: a package identity paired with the concrete set of
/// feature names the resolver activated for it in this resolution.
pub struct Node {
    pub id: String,
    pub activated: Vec<String>,
}

pub ghost struct NodeV {
    pub id: Seq<char>,
    pub activated: Seq<Seq<char>>,
}

impl View for Node {
    type V = NodeV;

    open spec fn view(&self) -> NodeV {
        NodeV { id: self.id@, activated: self.activated.deep_view() }
    }
}

impl DeepView for Node {
    type V = NodeV;

    open spec fn deep_view(&self) -> NodeV {
        self.view()
    }
}

/// A resolved dependency graph: packages, resolution nodes, and the ids of
/// the first-party workspace members.
pub struct Graph {
    pub packages: Vec<Package>,
    pub nodes: Vec<Node>,
    pub member_ids: Vec<String>,
}

pub ghost struct GraphV {
    pub packages: Seq<PackageV>,
    pub nodes: Seq<NodeV>,
    pub member_ids: Seq<Seq<char>>,
}

impl View for Graph {
    type V = GraphV;

    open spec fn view(&self) -> GraphV {
        GraphV {
            packages: self.packages.deep_view(),
            nodes: self.nodes.deep_view(),
            member_ids: self.member_ids.deep_view(),
        }
    }
}

/// The feature names textually discovered in one package's source tree; a
/// best-effort hint, never ground truth for activation.
pub struct UsageSet {
    pub package_id: String,
    pub used: Vec<String>,
}

pub ghost struct UsageSetV {
    pub package_id: Seq<char>,
    pub used: Seq<Seq<char>>,
}

impl View for UsageSet {
    type V = UsageSetV;

    open spec fn view(&self) -> UsageSetV {
        UsageSetV { package_id: self.package_id@, used: self.used.deep_view() }
    }
}

impl DeepView for UsageSet {
    type V = UsageSetV;

    open spec fn deep_view(&self) -> UsageSetV {
        self.view()
    }
}

/// The classification of one package's declared features.
pub struct FeatureSet {
    pub enabled: Vec<String>,
    pub unused: Vec<String>,
    pub dangling: Vec<String>,
}

pub ghost struct FeatureSetV {
    pub enabled: Seq<Seq<char>>,
    pub unused: Seq<Seq<char>>,
    pub dangling: Seq<Seq<char>>,
}

impl View for FeatureSet {
    type V = FeatureSetV;

    open spec fn view(&self) -> FeatureSetV {
        FeatureSetV {
            enabled: self.enabled.deep_view(),
            unused: self.unused.deep_view(),
            dangling: self.dangling.deep_view(),
        }
    }
}

impl DeepView for FeatureSet {
    type V = FeatureSetV;

    open spec fn deep_view(&self) -> FeatureSetV {
        self.view()
    }
}

/// One report entry: a collision-safe key and the classification recorded
/// under it.
pub struct ReportEntry {
    pub key: String,
    pub features: FeatureSet,
}

pub ghost struct ReportEntryV {
    pub key: Seq<char>,
    pub features: FeatureSetV,
}

impl View for ReportEntry {
    type V = ReportEntryV;

    open spec fn view(&self) -> ReportEntryV {
        ReportEntryV { key: self.key@, features: self.features@ }
    }
}

impl DeepView for ReportEntry {
    type V = ReportEntryV;

    open spec fn deep_view(&self) -> ReportEntryV {
        self.view()
    }
}

/// The one way classification can fail: a resolution node names a package id
/// that the graph does not hold, which indicates a bug in whatever produced
/// the graph.
#[derive(Debug)]
pub enum ClassifyError {
    InconsistentGraph,
}

/// A feature name `y` stands in the declared table `fs`.
pub open spec fn declared_contains(fs: Seq<FeatureDeclV>, y: Seq<char>) -> bool {
    exists|i: int| 0 <= i < fs.len() && fs[i].name == y
}

/// A feature name `y` stands in `fs` with an empty activation-target list.
pub open spec fn declared_empty_targets(fs: Seq<FeatureDeclV>, y: Seq<char>) -> bool {
    exists|i: int| 0 <= i < fs.len() && fs[i].name == y && fs[i].targets.len() == 0
}

/// Well-formedness of a graph, as the resolver guarantees it: unique package
/// ids, unique node ids, unique feature names within one package's table,
/// and activated features drawn from the declared table.
pub open spec fn wf_graph(g: GraphV) -> bool {
    &&& forall|i: int, j: int|
        0 <= i < j < g.packages.len() ==> g.packages[i].id != g.packages[j].id
    &&& forall|i: int, j: int| 0 <= i < j < g.nodes.len() ==> g.nodes[i].id != g.nodes[j].id
    &&& forall|k: int, i: int, j: int|
        0 <= k < g.packages.len() && 0 <= i < j < g.packages[k].features.len()
            ==> g.packages[k].features[i].name != g.packages[k].features[j].name
    &&& forall|k: int, y: Seq<char>|
        0 <= k < g.nodes.len() && g.nodes[k].activated.contains(y) ==> #[trigger] node_declares(
            g,
            k,
            y,
        )
}

/// The package resolved for node `k` declares feature `y`.
pub open spec fn node_declares(g: GraphV, k: int, y: Seq<char>) -> bool {
    match find_package_idx(g.packages, g.nodes[k].id) {
        Some(p) => declared_contains(g.packages[p as int].features, y),
        None => true,
    }
}

/// The position of the first package of `ps` whose id is `id`.
pub open spec fn find_package_idx(ps: Seq<PackageV>, id: Seq<char>) -> Option<usize>
    decreases ps.len(),
{
    if ps.len() == 0 {
        None
    } else if ps[0].id == id {
        Some(0usize)
    } else {
        match find_package_idx(ps.skip(1), id) {
            Some(k) => Some((k + 1) as usize),
            None => None,
        }
    }
}

/// `find_package_idx` returns a position inside `ps` that holds `id`.
pub proof fn lemma_find_package_idx(ps: Seq<PackageV>, id: Seq<char>)
    requires
        ps.len() <= usize::MAX,
    ensures
        match find_package_idx(ps, id) {
            Some(k) => k < ps.len() && ps[k as int].id == id,
            None => forall|i: int| 0 <= i < ps.len() ==> ps[i].id != id,
        },
    decreases ps.len(),
{
    if ps.len() > 0 && ps[0].id != id {
        lemma_find_package_idx(ps.skip(1), id);
        if find_package_idx(ps.skip(1), id) is None {
            assert forall|i: int| 0 <= i < ps.len() implies ps[i].id != id by {
                if i > 0 {
                    assert(ps.skip(1)[i - 1].id != id);
                }
            }
        }
    }
}

} // verus!
