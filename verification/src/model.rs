//! Cargo-free data model for a single Rust crate.
//!
//! These types deliberately do not reference any cargo types, so that
//! downstream consumers (RPM spec generation, local registry management, etc.)
//! can depend on a stable, immutable view of a crate.
use vstd::prelude::*;

use crate::version::VersionNumbers;
use crate::text::{
    chars_eq, chars_lt, chars_of, lemma_lex_irreflexive, lemma_lex_strict_total_order, lex_lt, sorted_unique,
    strictly_sorted,
};

verus! {

/// `semver::Version`, carried opaquely in the lock-file versions of the load
/// options.
#[verifier::external_type_specification]
#[verifier::external_body]
pub struct ExVersion(semver::Version);

/// Crate-level metadata extracted from `Cargo.toml`.
#[derive(Debug, Clone, Default, PartialEq, Eq)]
pub struct CrateMetadata {
    pub description: Option<String>,
    pub license: Option<String>,
    pub license_file: Option<String>,
    pub readme: Option<String>,
    pub homepage: Option<String>,
    pub repository: Option<String>,
}

/// High-level kind of a build target.
#[derive(Debug, Clone, Copy, PartialEq, Eq)]
pub enum TargetKind {
    Lib,
    Bin,
    Other,
}

/// A single build target (lib / bin / example / ...).
#[derive(Debug, Clone, PartialEq, Eq)]
pub struct TargetModel {
    pub name: String,
    pub kind: TargetKind,
    /// Source path relative to the package root, if the target is a real file.
    pub src_path: Option<String>,
}

/// Dependency kind.
#[derive(Debug, Clone, Copy, PartialEq, Eq)]
pub enum DepKind {
    Normal,
    Build,
    Dev,
}

/// A single dependency as declared in `Cargo.toml`.
#[derive(Debug, Clone, PartialEq, Eq)]
pub struct DepModel {
    /// Name used on the left-hand side of the dependency declaration.
    pub toml_name: String,
    /// Actual package name (after renaming via `package = "..."`).
    pub package_name: String,
    /// Raw version requirement string.
    pub version_req: String,
    pub kind: DepKind,
    pub optional: bool,
    pub default_features: bool,
    pub features: Vec<String>,
    /// Target-specific restriction, if any (e.g. `cfg(unix)`).
    pub platform: Option<String>,
    /// Whether this dependency enters runtime Requires computation.
    pub runtime_candidate: bool,
}

/// One node in the feature graph.
#[derive(Debug, Clone, Default, PartialEq, Eq)]
pub struct FeatureNode {
    /// Other features (of the same crate) this feature activates.
    pub feature_deps: Vec<String>,
    /// External crate dependencies this feature activates.
    pub crate_deps: Vec<String>,
}

/// What a [`FeatureNode`] holds, as character sequences.
pub struct FeatureNodeView {
    pub feature_deps: Seq<Seq<char>>,
    pub crate_deps: Seq<Seq<char>>,
}

impl View for FeatureNode {
    type V = FeatureNodeView;

    open spec fn view(&self) -> FeatureNodeView {
        FeatureNodeView {
            feature_deps: self.feature_deps.deep_view(),
            crate_deps: self.crate_deps.deep_view(),
        }
    }
}

/// A package recorded in a `Cargo.lock`.
#[derive(Debug, Clone, PartialEq, Eq)]
pub struct LockPackage {
    pub name: String,
    pub version: VersionNumbers,
    pub source: Option<String>,
}

/// The entries of a feature graph, keyed by feature name.
pub type GraphEntries = Seq<(Seq<char>, FeatureNodeView)>;

/// Keys in strictly ascending order (so each key occurs once).
pub open spec fn keys_ascending(es: GraphEntries) -> bool {
    forall|i: int, j: int| 0 <= i < j < es.len() ==> lex_lt(#[trigger] es[i].0, #[trigger] es[j].0)
}

/// The map that a list of entries describes.
pub open spec fn entries_map(es: GraphEntries) -> Map<Seq<char>, FeatureNodeView> {
    Map::new(
        |k: Seq<char>| exists|i: int| 0 <= i < es.len() && #[trigger] es[i].0 == k,
        |k: Seq<char>| es[choose|i: int| 0 <= i < es.len() && #[trigger] es[i].0 == k].1,
    )
}

proof fn lemma_entries_map_at(es: GraphEntries, i: int)
    requires
        keys_ascending(es),
        0 <= i < es.len(),
    ensures
        entries_map(es).contains_key(es[i].0),
        entries_map(es)[es[i].0] == es[i].1,
{
    lemma_lex_strict_total_order();
    let k = es[i].0;
    assert(exists|j: int| 0 <= j < es.len() && #[trigger] es[j].0 == k);
    let j = choose|j: int| 0 <= j < es.len() && #[trigger] es[j].0 == k;
    if j < i {
        assert(lex_lt(es[j].0, es[i].0));
    } else if j > i {
        assert(lex_lt(es[i].0, es[j].0));
    }
}

/// Feature graph: feature name -> node, kept in ascending key order.
///
/// It behaves as a `BTreeMap<String, FeatureNode>`: one node per name, names
/// walked in the order `str` compares them (see [`lex_lt`]). It is held as a
/// sorted vector because vstd states `BTreeMap`'s contents only for key types
/// whose `Ord` it knows to be a total order, which `String` is not among.
///
/// The empty string `""` denotes the implicit "base package / no default
/// features" node.
#[derive(Debug)]
pub struct FeatureGraph {
    entries: Vec<(String, FeatureNode)>,
}

impl FeatureGraph {
    /// The entries, keys and nodes taken by their views, in key order.
    pub closed spec fn spec_entries(&self) -> GraphEntries {
        self.entries@.map_values(|e: (String, FeatureNode)| e@)
    }

    #[verifier::type_invariant]
    closed spec fn keys_sorted(&self) -> bool {
        keys_ascending(self.spec_entries())
    }
}

impl Default for FeatureGraph {
    /// An empty graph.
    fn default() -> (g: Self)
        ensures
            g@ == Map::<Seq<char>, FeatureNodeView>::empty(),
    {
        FeatureGraph::new()
    }
}

impl View for FeatureGraph {
    type V = Map<Seq<char>, FeatureNodeView>;

    open spec fn view(&self) -> Map<Seq<char>, FeatureNodeView> {
        entries_map(self.spec_entries())
    }
}

impl FeatureGraph {
    /// An empty graph.
    pub fn new() -> (g: FeatureGraph)
        ensures
            g@ == Map::<Seq<char>, FeatureNodeView>::empty(),
    {
        let g = FeatureGraph { entries: Vec::new() };
        assert(g@ =~= Map::<Seq<char>, FeatureNodeView>::empty());
        g
    }

    /// The number of features in the graph.
    pub fn len(&self) -> (n: usize)
        ensures
            n == self@.len(),
    {
        proof {
            use_type_invariant(self);
            self.lemma_keys_dom();
        }
        self.entries.len()
    }

    /// Whether the graph holds no feature.
    pub fn is_empty(&self) -> (b: bool)
        ensures
            b == (self@.len() == 0),
    {
        self.len() == 0
    }

    /// The domain of the view is exactly the set of stored keys, one per entry.
    proof fn lemma_keys_dom(&self)
        requires
            keys_ascending(self.spec_entries()),
        ensures
            self@.dom() == self.spec_entries().map_values(|e: (Seq<char>, FeatureNodeView)| e.0).to_set(),
            self@.dom().finite(),
            self@.len() == self.spec_entries().len(),
            forall|i: int|
                0 <= i < self.spec_entries().len() ==> #[trigger] self@.contains_key(
                    self.spec_entries()[i].0,
                ) && self@[self.spec_entries()[i].0] == self.spec_entries()[i].1,
    {
        let es = self.spec_entries();
        let ks = es.map_values(|e: (Seq<char>, FeatureNodeView)| e.0);
        assert forall|i: int| 0 <= i < es.len() implies #[trigger] self@.contains_key(es[i].0)
            && self@[es[i].0] == es[i].1 by {
            lemma_entries_map_at(es, i);
        }
        assert(self@.dom() =~= ks.to_set()) by {
            assert forall|k: Seq<char>| self@.dom().contains(k) implies ks.to_set().contains(k) by {
                let i = choose|i: int| 0 <= i < es.len() && #[trigger] es[i].0 == k;
                assert(ks[i] == k);
            }
            assert forall|k: Seq<char>| ks.to_set().contains(k) implies self@.dom().contains(k) by {
                let i = choose|i: int| 0 <= i < ks.len() && ks[i] == k;
                assert(es[i].0 == k);
            }
        }
        lemma_lex_strict_total_order();
        assert(ks.no_duplicates()) by {
            assert forall|i: int, j: int| 0 <= i < ks.len() && 0 <= j < ks.len() && i != j implies ks[i]
                != ks[j] by {
                if i < j {
                    assert(lex_lt(es[i].0, es[j].0));
                } else {
                    assert(lex_lt(es[j].0, es[i].0));
                }
            }
        }
        ks.unique_seq_to_set();
    }

    /// The index of the entry whose key is `name`, if there is one.
    fn find_index(&self, name: &Vec<char>) -> (r: Option<usize>)
        ensures
            match r {
                Some(i) => i < self.spec_entries().len() && self.spec_entries()[i as int].0 == name@,
                None => forall|j: int|
                    0 <= j < self.spec_entries().len() ==> #[trigger] self.spec_entries()[j].0
                        != name@,
            },
    {
        let mut i: usize = 0;
        while i < self.entries.len()
            invariant
                i <= self.entries.len(),
                forall|j: int| 0 <= j < i ==> #[trigger] self.spec_entries()[j].0 != name@,
            decreases self.entries.len() - i,
        {
            let kv = chars_of(self.entries[i].0.as_str());
            if chars_eq(&kv, name) {
                return Some(i);
            }
            i = i + 1;
        }
        None
    }

    /// The node stored under `key`, if any.
    pub fn get(&self, key: &str) -> (r: Option<&FeatureNode>)
        ensures
            match r {
                Some(n) => self@.contains_key(key@) && n@ == self@[key@],
                None => !self@.contains_key(key@),
            },
    {
        proof {
            use_type_invariant(self);
            self.lemma_keys_dom();
        }
        let kv = chars_of(key);
        match self.find_index(&kv) {
            Some(i) => {
                assert(self.spec_entries()[i as int] == self.entries@[i as int]@);
                assert(self@.contains_key(self.spec_entries()[i as int].0));
                Some(&self.entries[i].1)
            },
            None => None,
        }
    }

    /// Whether the graph holds a node under `key`.
    pub fn contains_key(&self, key: &str) -> (b: bool)
        ensures
            b == self@.contains_key(key@),
    {
        self.get(key).is_some()
    }

    /// The entries in ascending key order.
    pub fn entries(&self) -> (r: &Vec<(String, FeatureNode)>)
        ensures
            r@.map_values(|e: (String, FeatureNode)| e@) == self.spec_entries(),
            keys_ascending(self.spec_entries()),
            entries_map(self.spec_entries()) == self@,
    {
        proof {
            use_type_invariant(self);
        }
        &self.entries
    }

    /// Store `node` under `key`, handing back the node it replaces, if any.
    pub fn insert(&mut self, key: String, node: FeatureNode) -> (r: Option<FeatureNode>)
        ensures
            final(self)@ == old(self)@.insert(key@, node@),
            match r {
                Some(prev) => old(self)@.contains_key(key@) && prev@ == old(self)@[key@],
                None => !old(self)@.contains_key(key@),
            },
    {
        proof {
            use_type_invariant(&*self);
            self.lemma_keys_dom();
            lemma_lex_strict_total_order();
        }
        let ghost old_map = self@;
        let mut entries: Vec<(String, FeatureNode)> = Vec::new();
        std::mem::swap(&mut entries, &mut self.entries);
        let ghost es = entries@.map_values(|e: (String, FeatureNode)| e@);
        assert(es == old(self).spec_entries());
        let kv = chars_of(key.as_str());
        let mut p: usize = 0;
        let mut stop = false;
        while p < entries.len() && !stop
            invariant
                kv@ == key@,
                p <= entries.len(),
                es == entries@.map_values(|e: (String, FeatureNode)| e@),
                keys_ascending(es),
                forall|k: int| 0 <= k < p ==> lex_lt(#[trigger] es[k].0, key@),
                stop ==> p < entries.len() && !lex_lt(es[p as int].0, key@),
            decreases entries.len() - p, if stop { 0int } else { 1int },
        {
            let ev = chars_of(entries[p].0.as_str());
            if chars_lt(&ev, &kv) {
                p = p + 1;
            } else {
                stop = true;
            }
        }
        // entries from `p` on have keys at or after `key`
        assert forall|k: int| p <= k < es.len() implies !lex_lt(#[trigger] es[k].0, key@) by {
            if k > p {
                assert(lex_lt(es[p as int].0, es[k].0));
                if lex_lt(es[k].0, key@) {
                    assert(lex_lt(es[p as int].0, key@));
                }
            }
        }
        let mut replace = false;
        if p < entries.len() {
            let ev = chars_of(entries[p].0.as_str());
            replace = chars_eq(&ev, &kv);
        }
        let ghost new_es;
        let r;
        if replace {
            let (_old_key, prev) = entries.remove(p);
            entries.insert(p, (key, node));
            proof {
                new_es = es.update(p as int, (key@, node@));
                assert(entries@.map_values(|e: (String, FeatureNode)| e@) =~= new_es);
                lemma_entries_map_at(es, p as int);
            }
            r = Some(prev);
        } else {
            entries.insert(p, (key, node));
            proof {
                new_es = es.insert(p as int, (key@, node@));
                assert(entries@.map_values(|e: (String, FeatureNode)| e@) =~= new_es);
                assert forall|j: int| 0 <= j < es.len() implies #[trigger] es[j].0 != key@ by {
                    if j >= p {
                        if j == p {
                            assert(es[p as int].0 != key@);
                        } else {
                            assert(lex_lt(es[p as int].0, es[j].0));
                            if es[j].0 == key@ {
                                assert(!lex_lt(es[p as int].0, key@));
                            }
                        }
                    }
                }
            }
            r = None;
        }
        proof {
            assert(keys_ascending(new_es)) by {
                assert forall|i: int, j: int| 0 <= i < j < new_es.len() implies lex_lt(
                    #[trigger] new_es[i].0,
                    #[trigger] new_es[j].0,
                ) by {
                    if replace {
                        if i == p {
                            assert(es[p as int].0 == key@);
                        } else if j == p {
                            assert(es[p as int].0 == key@);
                        }
                    } else {
                        if i < p && j == p {
                        } else if i < p && j > p {
                            assert(lex_lt(es[i].0, key@));
                            assert(new_es[j] == es[j - 1]);
                            assert(!lex_lt(es[j - 1].0, key@));
                            assert(es[j - 1].0 != key@);
                        } else if i == p {
                            assert(new_es[j] == es[j - 1]);
                            assert(!lex_lt(es[j - 1].0, key@));
                            assert(es[j - 1].0 != key@);
                        } else if i > p {
                            assert(new_es[i] == es[i - 1]);
                            assert(new_es[j] == es[j - 1]);
                        }
                    }
                }
            }
            assert forall|i: int| 0 <= i < new_es.len() implies #[trigger] entries_map(
                new_es,
            ).contains_key(new_es[i].0) && entries_map(new_es)[new_es[i].0] == new_es[i].1 by {
                lemma_entries_map_at(new_es, i);
            }
            assert forall|i: int| 0 <= i < es.len() implies #[trigger] entries_map(es).contains_key(
                es[i].0,
            ) && entries_map(es)[es[i].0] == es[i].1 by {
                lemma_entries_map_at(es, i);
            }
            assert(entries_map(new_es) =~= old_map.insert(key@, node@)) by {
                assert forall|k: Seq<char>| #[trigger] entries_map(new_es).contains_key(k) implies old_map.insert(
                    key@,
                    node@,
                ).contains_key(k) by {
                    let i = choose|i: int| 0 <= i < new_es.len() && #[trigger] new_es[i].0 == k;
                    if replace {
                        if i != p {
                            assert(es[i].0 == k);
                        }
                    } else {
                        if i < p {
                            assert(es[i].0 == k);
                        } else if i > p {
                            assert(es[i - 1].0 == k);
                        }
                    }
                }
                assert forall|k: Seq<char>| #[trigger] old_map.insert(key@, node@).contains_key(k) implies entries_map(
                    new_es,
                ).contains_key(k) && entries_map(new_es)[k] == old_map.insert(key@, node@)[k] by {
                    if k == key@ {
                        assert(new_es[p as int].0 == k);
                    } else {
                        let i = choose|i: int| 0 <= i < es.len() && #[trigger] es[i].0 == k;
                        if replace {
                            assert(new_es[i] == es[i]);
                        } else if i < p {
                            assert(new_es[i] == es[i]);
                        } else {
                            assert(new_es[i + 1] == es[i]);
                        }
                    }
                }
            }
        }
        self.entries = entries;
        r
    }
}

/// `names` without those in `drop`, in their order.
pub open spec fn without_names(names: Seq<Seq<char>>, drop: Set<Seq<char>>) -> Seq<Seq<char>>
    decreases names.len(),
{
    if names.len() == 0 {
        Seq::empty()
    } else {
        let r = without_names(names.drop_last(), drop);
        if drop.contains(names.last()) {
            r
        } else {
            r.push(names.last())
        }
    }
}

/// `n` with the crates in `drop` taken out of its crate dependencies.
pub open spec fn node_without(n: FeatureNodeView, drop: Set<Seq<char>>) -> FeatureNodeView {
    FeatureNodeView { feature_deps: n.feature_deps, crate_deps: without_names(n.crate_deps, drop) }
}

/// Whether `s` is one of `items`.
pub fn contains_name(items: &Vec<String>, s: &str) -> (r: bool)
    ensures
        r == items.deep_view().contains(s@),
{
    let sv = chars_of(s);
    let mut i: usize = 0;
    while i < items.len()
        invariant
            i <= items.len(),
            sv@ == s@,
            forall|j: int| 0 <= j < i ==> #[trigger] items.deep_view()[j] != s@,
        decreases items.len() - i,
    {
        let iv = chars_of(items[i].as_str());
        if chars_eq(&iv, &sv) {
            assert(items.deep_view()[i as int] == s@);
            return true;
        }
        i = i + 1;
    }
    false
}

/// `names` without those in `drop`, in their order.
fn names_without(names: &Vec<String>, drop: &Vec<String>) -> (r: Vec<String>)
    ensures
        r.deep_view() == without_names(names.deep_view(), drop.deep_view().to_set()),
{
    let ghost d = drop.deep_view().to_set();
    let mut r: Vec<String> = Vec::new();
    let mut i: usize = 0;
    while i < names.len()
        invariant
            i <= names.len(),
            d == drop.deep_view().to_set(),
            r.deep_view() == without_names(names.deep_view().take(i as int), d),
        decreases names.len() - i,
    {
        let ghost before = names.deep_view().take(i as int);
        let ghost after = names.deep_view().take(i + 1);
        assert(after.drop_last() =~= before);
        assert(after.last() == names[i as int]@);
        if !contains_name(drop, names[i].as_str()) {
            r.push(names[i].clone());
            assert(r.deep_view() =~= without_names(before, d).push(names[i as int]@));
        }
        i = i + 1;
    }
    assert(names.deep_view().take(names.len() as int) =~= names.deep_view());
    r
}

impl FeatureGraph {
    /// The graph with the crates in `drop` taken out of every feature's crate
    /// dependencies; features and their feature dependencies stay.
    pub fn without_crates(self, drop: &Vec<String>) -> (g: FeatureGraph)
        ensures
            g@ == self@.map_values(|n: FeatureNodeView| node_without(n, drop.deep_view().to_set())),
    {
        proof {
            use_type_invariant(&self);
        }
        let ghost d = drop.deep_view().to_set();
        let ghost es = self.spec_entries();
        let ghost old_view = self@;
        let FeatureGraph { entries } = self;
        let mut rest = entries;
        let mut out: Vec<(String, FeatureNode)> = Vec::new();
        let ghost n = es.len();
        while rest.len() > 0
            invariant
                n == es.len(),
                out.len() + rest.len() == n,
                rest@.map_values(|e: (String, FeatureNode)| e@) == es.subrange(out.len() as int, n as int),
                forall|j: int|
                    0 <= j < out.len() ==> (#[trigger] out@[j]@).0 == es[j].0 && out@[j]@.1 == node_without(
                        es[j].1,
                        d,
                    ),
                d == drop.deep_view().to_set(),
            decreases rest.len(),
        {
            let ghost k = out.len() as int;
            let ghost rv = rest@;
            let (key, node) = rest.remove(0);
            assert(es[k] == (key@, node@)) by {
                assert(es.subrange(k, n as int)[0] == es[k]);
                assert(rv.map_values(|e: (String, FeatureNode)| e@)[0] == es.subrange(k, n as int)[0]);
            }
            assert forall|i: int| 0 <= i < rest.len() implies #[trigger] rest@[i]@ == es[k + 1 + i] by {
                assert(rest@[i] == rv[i + 1]);
                assert(rv.map_values(|e: (String, FeatureNode)| e@)[i + 1] == es.subrange(k, n as int)[i + 1]);
            }
            assert(rest@.map_values(|e: (String, FeatureNode)| e@) =~= es.subrange(k + 1, n as int));
            let crate_deps = names_without(&node.crate_deps, drop);
            let FeatureNode { feature_deps, crate_deps: _ } = node;
            out.push((key, FeatureNode { feature_deps, crate_deps }));
        }
        let ghost es2 = out@.map_values(|e: (String, FeatureNode)| e@);
        assert forall|i: int, j: int| 0 <= i < j < es2.len() implies lex_lt(#[trigger] es2[i].0, #[trigger] es2[j].0) by {
            assert(es2[i].0 == es[i].0);
            assert(es2[j].0 == es[j].0);
        }
        let g = FeatureGraph { entries: out };
        assert(g.spec_entries() == es2);
        proof {
            let m2 = entries_map(es2);
            let m1 = old_view.map_values(|n: FeatureNodeView| node_without(n, d));
            assert forall|key: Seq<char>| m2.contains_key(key) <==> m1.contains_key(key) by {
                if m2.contains_key(key) {
                    let i = choose|i: int| 0 <= i < es2.len() && #[trigger] es2[i].0 == key;
                    assert(es[i].0 == key);
                }
                if m1.contains_key(key) {
                    let i = choose|i: int| 0 <= i < es.len() && #[trigger] es[i].0 == key;
                    assert(es2[i].0 == key);
                }
            }
            assert forall|key: Seq<char>| m2.contains_key(key) implies m2[key] == m1[key] by {
                let i = choose|i: int| 0 <= i < es2.len() && #[trigger] es2[i].0 == key;
                lemma_entries_map_at(es2, i);
                lemma_entries_map_at(es, i);
            }
            assert(m2 =~= m1);
        }
        g
    }
}

// ---------------------------------------------------------------------------
// Reachability in the feature graph
// ---------------------------------------------------------------------------

/// `p` is a walk through features of `g`: every step goes from a feature to
/// one of its feature dependencies.
pub open spec fn is_path(g: Map<Seq<char>, FeatureNodeView>, p: Seq<Seq<char>>) -> bool {
    &&& p.len() > 0
    &&& forall|i: int| 0 <= i < p.len() ==> g.contains_key(#[trigger] p[i])
    &&& forall|j: int| 1 <= j < p.len() ==> g[p[j - 1]].feature_deps.contains(#[trigger] p[j])
}

/// `to` is reached from `from` by following feature dependencies through
/// features present in `g` (every feature of `g` reaches itself).
pub open spec fn reachable(g: Map<Seq<char>, FeatureNodeView>, from: Seq<char>, to: Seq<char>) -> bool {
    exists|p: Seq<Seq<char>>| #[trigger] is_path(g, p) && p[0] == from && p.last() == to
}

/// Every external crate dependency activated, directly or through feature
/// dependencies, by `feature`.
pub open spec fn transitive_deps_of(
    g: Map<Seq<char>, FeatureNodeView>,
    feature: Seq<char>,
) -> Set<Seq<char>> {
    Set::new(
        |d: Seq<char>|
            exists|f: Seq<char>| #[trigger] reachable(g, feature, f) && g[f].crate_deps.contains(d),
    )
}

proof fn lemma_reachable_self(g: Map<Seq<char>, FeatureNodeView>, a: Seq<char>)
    requires
        g.contains_key(a),
    ensures
        reachable(g, a, a),
{
    let p = seq![a];
    assert(is_path(g, p));
}

proof fn lemma_reachable_extend(
    g: Map<Seq<char>, FeatureNodeView>,
    a: Seq<char>,
    b: Seq<char>,
    c: Seq<char>,
)
    requires
        reachable(g, a, b),
        g.contains_key(b),
        g[b].feature_deps.contains(c),
        g.contains_key(c),
    ensures
        reachable(g, a, c),
{
    let p = choose|p: Seq<Seq<char>>| #[trigger] is_path(g, p) && p[0] == a && p.last() == b;
    let q = p.push(c);
    assert forall|i: int| 0 <= i < q.len() implies g.contains_key(#[trigger] q[i]) by {
        if i < p.len() {
            assert(q[i] == p[i]);
        }
    }
    assert forall|j: int| 1 <= j < q.len() implies g[q[j - 1]].feature_deps.contains(#[trigger] q[j]) by {
        if j < p.len() {
            assert(q[j] == p[j]);
            assert(q[j - 1] == p[j - 1]);
        }
    }
    assert(is_path(g, q));
}

/// Reachability is transitive.
pub proof fn lemma_reachable_transitive(
    g: Map<Seq<char>, FeatureNodeView>,
    a: Seq<char>,
    b: Seq<char>,
    c: Seq<char>,
)
    requires
        reachable(g, a, b),
        reachable(g, b, c),
    ensures
        reachable(g, a, c),
{
    let p = choose|p: Seq<Seq<char>>| #[trigger] is_path(g, p) && p[0] == a && p.last() == b;
    let q = choose|q: Seq<Seq<char>>| #[trigger] is_path(g, q) && q[0] == b && q.last() == c;
    let r = p + q.drop_first();
    assert forall|i: int| 0 <= i < r.len() implies g.contains_key(#[trigger] r[i]) by {
        if i < p.len() {
            assert(r[i] == p[i]);
        } else {
            assert(r[i] == q[i - p.len() + 1]);
        }
    }
    assert forall|j: int| 1 <= j < r.len() implies g[r[j - 1]].feature_deps.contains(#[trigger] r[j]) by {
        if j < p.len() {
            assert(r[j] == p[j]);
            assert(r[j - 1] == p[j - 1]);
        } else if j == p.len() {
            assert(r[j] == q[1]);
            assert(r[j - 1] == p.last());
            assert(q[0] == b);
        } else {
            assert(r[j] == q[j - p.len() + 1]);
            assert(r[j - 1] == q[j - p.len()]);
        }
    }
    assert(is_path(g, r));
    if q.len() == 1 {
        assert(r.last() == p.last());
    } else {
        assert(r.last() == q.last());
    }
}

/// Facts about the visited nodes that the traversal keeps.
spec fn closed_under_edges(es: GraphEntries, visited: Seq<bool>, pending: Seq<usize>, skip: int, upto: int) -> bool {
    forall|j: int, k: int, m: int|
        0 <= j < es.len() && visited[j] && !pending.contains(j as usize) && 0 <= k
            < es[j].1.feature_deps.len() && (j != skip || k < upto) && 0 <= m < es.len()
            && #[trigger] es[m].0 == #[trigger] es[j].1.feature_deps[k] ==> visited[m]
}

spec fn deps_of_visited(es: GraphEntries, visited: Seq<bool>, d: Seq<char>) -> bool {
    exists|j: int| 0 <= j < es.len() && visited[j] && #[trigger] es[j].1.crate_deps.contains(d)
}

proof fn lemma_closed_reaches(
    es: GraphEntries,
    visited: Seq<bool>,
    from: int,
    p: Seq<Seq<char>>,
)
    requires
        keys_ascending(es),
        visited.len() == es.len(),
        0 <= from < es.len(),
        visited[from],
        closed_under_edges(es, visited, Seq::empty(), -1, 0),
        is_path(entries_map(es), p),
        p[0] == es[from].0,
    ensures
        forall|t: int|
            0 <= t < p.len() ==> exists|j: int|
                0 <= j < es.len() && visited[j] && #[trigger] es[j].0 == #[trigger] p[t],
{
    let g = entries_map(es);
    assert forall|t: int| 0 <= t < p.len() implies exists|j: int|
        0 <= j < es.len() && visited[j] && #[trigger] es[j].0 == #[trigger] p[t] by {
        lemma_closed_prefix(es, visited, from, p, t);
    }
}

proof fn lemma_closed_prefix(
    es: GraphEntries,
    visited: Seq<bool>,
    from: int,
    p: Seq<Seq<char>>,
    t: int,
)
    requires
        keys_ascending(es),
        visited.len() == es.len(),
        0 <= from < es.len(),
        visited[from],
        closed_under_edges(es, visited, Seq::empty(), -1, 0),
        is_path(entries_map(es), p),
        p[0] == es[from].0,
        0 <= t < p.len(),
    ensures
        exists|j: int| 0 <= j < es.len() && visited[j] && #[trigger] es[j].0 == p[t],
    decreases t,
{
    let g = entries_map(es);
    if t == 0 {
        assert(es[from].0 == p[0]);
    } else {
        lemma_closed_prefix(es, visited, from, p, t - 1);
        let j = choose|j: int| 0 <= j < es.len() && visited[j] && #[trigger] es[j].0 == p[t - 1];
        lemma_entries_map_at(es, j);
        assert(g[p[t - 1]].feature_deps.contains(p[t]));
        let k = choose|k: int| 0 <= k < es[j].1.feature_deps.len() && es[j].1.feature_deps[k] == p[t];
        assert(g.contains_key(p[t]));
        let m = choose|m: int| 0 <= m < es.len() && #[trigger] es[m].0 == p[t];
        assert(!Seq::<usize>::empty().contains(j as usize));
        assert(es[m].0 == es[j].1.feature_deps[k]);
        assert(visited[m]);
    }
}

proof fn lemma_contains_concat(a: Seq<Seq<char>>, b: Seq<Seq<char>>, d: Seq<char>)
    ensures
        (a + b).contains(d) <==> (a.contains(d) || b.contains(d)),
{
    if (a + b).contains(d) {
        let q = choose|q: int| 0 <= q < (a + b).len() && (a + b)[q] == d;
        if q < a.len() {
            assert(a[q] == d);
        } else {
            assert(b[q - a.len()] == d);
        }
    }
    if a.contains(d) {
        let q = choose|q: int| 0 <= q < a.len() && a[q] == d;
        assert((a + b)[q] == d);
    }
    if b.contains(d) {
        let q = choose|q: int| 0 <= q < b.len() && b[q] == d;
        assert((a + b)[a.len() + q] == d);
    }
}

/// The crate dependencies of the features `ks` of `g`, one feature after
/// the other.
pub open spec fn deps_in_order(g: Map<Seq<char>, FeatureNodeView>, ks: Seq<Seq<char>>) -> Seq<
    Seq<char>,
>
    decreases ks.len(),
{
    if ks.len() == 0 {
        Seq::empty()
    } else {
        deps_in_order(g, ks.drop_last()) + g[ks.last()].crate_deps
    }
}

/// `ks` lists every feature of `g` reachable from `feature`, each once.
pub open spec fn lists_reachable(
    g: Map<Seq<char>, FeatureNodeView>,
    feature: Seq<char>,
    ks: Seq<Seq<char>>,
) -> bool {
    &&& ks.no_duplicates()
    &&& forall|k: Seq<char>| ks.contains(k) <==> (g.contains_key(k) && reachable(g, feature, k))
}

spec fn key_visited(es: GraphEntries, visited: Seq<bool>, k: Seq<char>) -> bool {
    exists|j: int| 0 <= j < es.len() && visited[j] && #[trigger] es[j].0 == k
}

proof fn lemma_keys_unique(es: GraphEntries, a: int, b: int)
    requires
        keys_ascending(es),
        0 <= a < es.len(),
        0 <= b < es.len(),
        a != b,
    ensures
        es[a].0 != es[b].0,
{
    lemma_lex_irreflexive(es[a].0);
    if a < b {
        assert(lex_lt(es[a].0, es[b].0));
    } else {
        assert(lex_lt(es[b].0, es[a].0));
    }
}

proof fn lemma_visit_keys(
    es: GraphEntries,
    before: Seq<bool>,
    after: Seq<bool>,
    ks: Seq<Seq<char>>,
    m: int,
)
    requires
        keys_ascending(es),
        before.len() == es.len(),
        0 <= m < es.len(),
        !before[m],
        after == before.update(m, true),
        ks.no_duplicates(),
        forall|k: Seq<char>| #[trigger] ks.contains(k) <==> key_visited(es, before, k),
    ensures
        ks.push(es[m].0).no_duplicates(),
        forall|k: Seq<char>| #[trigger] ks.push(es[m].0).contains(k) <==> key_visited(es, after, k),
{
    let nk = ks.push(es[m].0);
    assert(!ks.contains(es[m].0)) by {
        if ks.contains(es[m].0) {
            let j = choose|j: int| 0 <= j < es.len() && before[j] && #[trigger] es[j].0 == es[m].0;
            if j != m {
                lemma_keys_unique(es, j, m);
            }
        }
    }
    assert forall|a: int, b: int| 0 <= a < nk.len() && 0 <= b < nk.len() && a != b implies nk[a] != nk[b] by {
        if a < ks.len() && b < ks.len() {
            assert(nk[a] == ks[a]);
            assert(nk[b] == ks[b]);
        } else if a < ks.len() {
            assert(nk[a] == ks[a]);
            assert(ks.contains(ks[a]));
        } else if b < ks.len() {
            assert(nk[b] == ks[b]);
            assert(ks.contains(ks[b]));
        }
    }
    assert forall|k: Seq<char>| #[trigger] nk.contains(k) <==> key_visited(es, after, k) by {
        if nk.contains(k) {
            let q = choose|q: int| 0 <= q < nk.len() && nk[q] == k;
            if q < ks.len() {
                assert(ks[q] == k);
                assert(ks.contains(k));
                let j = choose|j: int| 0 <= j < es.len() && before[j] && #[trigger] es[j].0 == k;
                assert(after[j]);
            } else {
                assert(after[m]);
            }
        }
        if key_visited(es, after, k) {
            let j = choose|j: int| 0 <= j < es.len() && after[j] && #[trigger] es[j].0 == k;
            if j == m {
                assert(nk[nk.len() - 1] == k);
            } else {
                assert(before[j]);
                assert(key_visited(es, before, k));
                assert(ks.contains(k));
                let q = choose|q: int| 0 <= q < ks.len() && ks[q] == k;
                assert(nk[q] == k);
            }
        }
    }
}

proof fn lemma_deps_in_order_push(
    g: Map<Seq<char>, FeatureNodeView>,
    ks: Seq<Seq<char>>,
    k: Seq<char>,
)
    ensures
        deps_in_order(g, ks.push(k)) == deps_in_order(g, ks) + g[k].crate_deps,
{
    assert(ks.push(k).drop_last() =~= ks);
}

/// Append the crate dependencies of `node` to `out`.
fn push_crate_deps(out: &mut Vec<String>, node: &FeatureNode)
    ensures
        final(out).deep_view() == old(out).deep_view() + node@.crate_deps,
{
    let mut i: usize = 0;
    while i < node.crate_deps.len()
        invariant
            i <= node.crate_deps.len(),
            out.deep_view() == old(out).deep_view() + node@.crate_deps.subrange(0, i as int),
        decreases node.crate_deps.len() - i,
    {
        let ghost before = out.deep_view();
        out.push(node.crate_deps[i].clone());
        assert(out.deep_view() =~= before.push(node@.crate_deps[i as int]));
        assert(node@.crate_deps.subrange(0, i + 1) =~= node@.crate_deps.subrange(0, i as int).push(
            node@.crate_deps[i as int],
        ));
        i = i + 1;
        assert(out.deep_view() =~= old(out).deep_view() + node@.crate_deps.subrange(0, i as int));
    }
    assert(node@.crate_deps.subrange(0, i as int) =~= node@.crate_deps);
}

/// Append to `out` the crate dependencies of every feature reachable from
/// `feature` (with repetitions). Each feature is visited once, so cycles in
/// the graph end the walk.
fn walk(graph: &FeatureGraph, feature: &str, out: &mut Vec<String>)
    ensures
        exists|ks: Seq<Seq<char>>|
            lists_reachable(graph@, feature@, ks) && #[trigger] deps_in_order(graph@, ks)
                == final(out).deep_view().subrange(
                old(out).deep_view().len() as int,
                final(out).deep_view().len() as int,
            ),
        final(out).deep_view().subrange(0, old(out).deep_view().len() as int) == old(
            out,
        ).deep_view(),
        forall|d: Seq<char>|
            #[trigger] final(out).deep_view().contains(d) <==> (old(out).deep_view().contains(d)
                || transitive_deps_of(graph@, feature@).contains(d)),
{
    proof {
        use_type_invariant(graph);
    }
    let ghost es = graph.spec_entries();
    let ghost g = graph@;
    let ghost base = old(out).deep_view();
    assert(keys_ascending(es));
    let n = graph.entries.len();
    let fv = chars_of(feature);
    let start = match graph.find_index(&fv) {
        Some(i) => i,
        None => {
            proof {
                assert(!g.contains_key(feature@)) by {
                    if g.contains_key(feature@) {
                        let i = choose|i: int| 0 <= i < es.len() && #[trigger] es[i].0 == feature@;
                        assert(es[i].0 != fv@);
                    }
                }
                lemma_unknown_feature_has_no_deps(g, feature@);
                let ks = Seq::<Seq<char>>::empty();
                assert forall|k: Seq<char>| ks.contains(k) <==> (g.contains_key(k) && reachable(g, feature@, k)) by {
                    if reachable(g, feature@, k) {
                        let pth = choose|pth: Seq<Seq<char>>| #[trigger] is_path(g, pth) && pth[0] == feature@ && pth.last() == k;
                        assert(g.contains_key(pth[0]));
                    }
                }
                assert(lists_reachable(g, feature@, ks));
                assert(deps_in_order(g, ks) =~= out.deep_view().subrange(base.len() as int, out.deep_view().len() as int));
                assert(out.deep_view().subrange(0, base.len() as int) =~= base);
            }
            return;
        },
    };
    let mut visited: Vec<bool> = Vec::new();
    while visited.len() < n
        invariant
            visited.len() <= n,
            forall|j: int| 0 <= j < visited.len() ==> !visited@[j],
        decreases n - visited.len(),
    {
        visited.push(false);
    }
    visited.set(start, true);
    push_crate_deps(out, &graph.entries[start].1);
    let mut stack: Vec<usize> = Vec::new();
    stack.push(start);
    let ghost mut seen: Set<int> = set![start as int];
    let ghost mut ks: Seq<Seq<char>> = seq![fv@];
    proof {
        lemma_entries_map_at(es, start as int);
        assert(es[start as int].1 == graph.entries@[start as int].1@);
        assert(ks =~= Seq::<Seq<char>>::empty().push(fv@));
        lemma_deps_in_order_push(g, Seq::empty(), fv@);
        assert(deps_in_order(g, Seq::empty()) =~= Seq::<Seq<char>>::empty());
        assert(out.deep_view() =~= base + deps_in_order(g, ks));
        assert(ks.no_duplicates());
        assert forall|k: Seq<char>| ks.contains(k) <==> key_visited(es, visited@, k) by {
            if ks.contains(k) {
                assert(ks[0] == k);
                assert(es[start as int].0 == k);
            }
            if key_visited(es, visited@, k) {
                let j = choose|j: int| 0 <= j < es.len() && visited@[j] && #[trigger] es[j].0 == k;
                assert(j == start);
                assert(ks[0] == k);
            }
        }
        lemma_entries_map_at(es, start as int);
        lemma_reachable_self(g, feature@);
        assert(es[start as int].1 == graph.entries@[start as int].1@);
        assert forall|d: Seq<char>| #[trigger] out.deep_view().contains(d) <==> (base.contains(d)
            || deps_of_visited(es, visited@, d)) by {
            let dd = es[start as int].1.crate_deps;
            lemma_contains_concat(base, dd, d);
            if deps_of_visited(es, visited@, d) {
                let j = choose|j: int| 0 <= j < es.len() && visited@[j] && #[trigger] es[j].1.crate_deps.contains(d);
                assert(j == start);
            }
            if dd.contains(d) {
                assert(visited@[start as int]);
                assert(es[start as int].1.crate_deps.contains(d));
            }
        }
        assert(stack@[0] == start);
        assert(stack@.contains(start));
    }
    while stack.len() > 0
        invariant
            n == es.len(),
            es == graph.spec_entries(),
            g == graph@,
            g == entries_map(es),
            keys_ascending(es),
            visited.len() == n,
            start < n,
            visited@[start as int],
            forall|q: int| 0 <= q < stack.len() ==> #[trigger] stack@[q] < n && visited@[stack@[q] as int],
            stack@.no_duplicates(),
            forall|j: int| 0 <= j < n && visited@[j] ==> reachable(g, feature@, #[trigger] es[j].0),
            closed_under_edges(es, visited@, stack@, -1, 0),
            forall|d: Seq<char>| #[trigger] out.deep_view().contains(d) <==> (base.contains(d)
                || deps_of_visited(es, visited@, d)),
            seen.finite(),
            forall|j: int| #[trigger] seen.contains(j) <==> (0 <= j < n && visited@[j]),
            out.deep_view() == base + deps_in_order(g, ks),
            ks.no_duplicates(),
            forall|k: Seq<char>| #[trigger] ks.contains(k) <==> key_visited(es, visited@, k),
        decreases 2 * (n - seen.len()) + stack.len(),
    {
        proof {
            vstd::set_lib::lemma_int_range(0, n as int);
            vstd::set_lib::lemma_len_subset(seen, vstd::set_lib::set_int_range(0, n as int));
        }
        let ghost measure = 2 * (n - seen.len()) + stack.len();
        let ghost stack_before = stack@;
        let i = stack.pop().unwrap();
        proof {
            assert(stack_before == stack@.push(i));
            assert(!stack@.contains(i)) by {
                if stack@.contains(i) {
                    let q = choose|q: int| 0 <= q < stack@.len() && stack@[q] == i;
                    assert(stack_before[q] == stack_before[stack_before.len() - 1]);
                }
            }
            assert forall|q: int| 0 <= q < stack.len() implies #[trigger] stack@[q] < n && visited@[stack@[q] as int] by {
                assert(stack@[q] == stack_before[q]);
            }
            assert(stack@.no_duplicates()) by {
                assert forall|a: int, b: int| 0 <= a < stack@.len() && 0 <= b < stack@.len() && a != b implies stack@[a] != stack@[b] by {
                    assert(stack@[a] == stack_before[a]);
                    assert(stack@[b] == stack_before[b]);
                }
            }
            assert(closed_under_edges(es, visited@, stack@, i as int, 0)) by {
                assert forall|j: int, k: int, m: int|
                    0 <= j < es.len() && visited@[j] && !stack@.contains(j as usize) && 0 <= k
                        < es[j].1.feature_deps.len() && (j != i || k < 0) && 0 <= m < es.len()
                        && #[trigger] es[m].0 == #[trigger] es[j].1.feature_deps[k] implies visited@[m] by {
                    if stack_before.contains(j as usize) {
                        let q = choose|q: int| 0 <= q < stack_before.len() && stack_before[q] == j as usize;
                        if q < stack@.len() {
                            assert(stack@[q] == j as usize);
                        }
                    }
                }
            }
            lemma_entries_map_at(es, i as int);
        }
        let node = &graph.entries[i].1;
        assert(node@ == es[i as int].1);
        let mut k: usize = 0;
        while k < node.feature_deps.len()
            invariant
                n == es.len(),
                es == graph.spec_entries(),
                g == graph@,
                g == entries_map(es),
                keys_ascending(es),
                i < n,
                node@ == es[i as int].1,
                visited.len() == n,
                start < n,
                visited@[start as int],
                visited@[i as int],
                !stack@.contains(i),
                k <= node.feature_deps.len(),
                forall|q: int| 0 <= q < stack.len() ==> #[trigger] stack@[q] < n && visited@[stack@[q] as int],
                stack@.no_duplicates(),
                forall|j: int| 0 <= j < n && visited@[j] ==> reachable(g, feature@, #[trigger] es[j].0),
                closed_under_edges(es, visited@, stack@, i as int, k as int),
                forall|d: Seq<char>| #[trigger] out.deep_view().contains(d) <==> (base.contains(d)
                    || deps_of_visited(es, visited@, d)),
                seen.finite(),
                forall|j: int| #[trigger] seen.contains(j) <==> (0 <= j < n && visited@[j]),
                2 * (n - seen.len()) + stack.len() < measure,
                seen.len() <= n,
                out.deep_view() == base + deps_in_order(g, ks),
                ks.no_duplicates(),
                forall|k: Seq<char>| #[trigger] ks.contains(k) <==> key_visited(es, visited@, k),

            decreases node.feature_deps.len() - k,
        {
            let cv = chars_of(node.feature_deps[k].as_str());
            assert(cv@ == es[i as int].1.feature_deps[k as int]);
            match graph.find_index(&cv) {
                Some(m) => {
                    if !visited[m] {
                        let ghost vis_before = visited@;
                        let ghost out_before = out.deep_view();
                        let ghost stack_prev = stack@;
                        let ghost ks_prev = ks;
                        proof {
                            lemma_entries_map_at(es, m as int);
                            lemma_entries_map_at(es, i as int);
                            assert(g[es[i as int].0].feature_deps[k as int] == es[m as int].0);
                            assert(g[es[i as int].0].feature_deps.contains(es[m as int].0));
                            lemma_reachable_extend(g, feature@, es[i as int].0, es[m as int].0);
                            assert(!seen.contains(m as int));
                            vstd::set_lib::lemma_int_range(0, n as int);
                            vstd::set_lib::lemma_len_subset(seen.insert(m as int), vstd::set_lib::set_int_range(0, n as int));
                        }
                        visited.set(m, true);
                        push_crate_deps(out, &graph.entries[m].1);
                        stack.push(m);
                        proof {
                            seen = seen.insert(m as int);
                            ks = ks.push(es[m as int].0);
                            lemma_deps_in_order_push(g, ks_prev, es[m as int].0);
                            assert(out.deep_view() =~= base + deps_in_order(g, ks));
                            lemma_visit_keys(es, vis_before, visited@, ks_prev, m as int);
                            assert(es[m as int].1 == graph.entries@[m as int].1@);
                            assert forall|q: int| 0 <= q < stack.len() implies #[trigger] stack@[q] < n && visited@[stack@[q] as int] by {
                                if q < stack_prev.len() {
                                    assert(stack@[q] == stack_prev[q]);
                                }
                            }
                            assert(stack@.no_duplicates()) by {
                                assert forall|a: int, b: int| 0 <= a < stack@.len() && 0 <= b < stack@.len() && a != b implies stack@[a] != stack@[b] by {
                                    if a < stack_prev.len() && b < stack_prev.len() {
                                        assert(stack@[a] == stack_prev[a]);
                                        assert(stack@[b] == stack_prev[b]);
                                    } else if a < stack_prev.len() {
                                        assert(stack@[a] == stack_prev[a]);
                                        assert(vis_before[stack_prev[a] as int]);
                                    } else if b < stack_prev.len() {
                                        assert(stack@[b] == stack_prev[b]);
                                        assert(vis_before[stack_prev[b] as int]);
                                    }
                                }
                            }
                            assert(!stack@.contains(i)) by {
                                if stack@.contains(i) {
                                    let q = choose|q: int| 0 <= q < stack@.len() && stack@[q] == i;
                                    if q < stack_prev.len() {
                                        assert(stack_prev[q] == i);
                                    }
                                }
                            }
                            assert(closed_under_edges(es, visited@, stack@, i as int, k + 1)) by {
                                assert forall|j: int, kk: int, mm: int|
                                    0 <= j < es.len() && visited@[j] && !stack@.contains(j as usize) && 0 <= kk
                                        < es[j].1.feature_deps.len() && (j != i || kk < k + 1) && 0 <= mm < es.len()
                                        && #[trigger] es[mm].0 == #[trigger] es[j].1.feature_deps[kk] implies visited@[mm] by {
                                    if j != m as int {
                                        if stack_prev.contains(j as usize) {
                                            let q = choose|q: int| 0 <= q < stack_prev.len() && stack_prev[q] == j as usize;
                                            assert(stack@[q] == j as usize);
                                        }
                                        if j == i && kk == k {
                                            // keys are unique, so `mm` is the node just visited
                                            if mm != m {
                                                lemma_lex_irreflexive(es[mm].0);
                                                if mm < m {
                                                    assert(lex_lt(es[mm].0, es[m as int].0));
                                                } else {
                                                    assert(lex_lt(es[m as int].0, es[mm].0));
                                                }
                                            }
                                        } else {
                                            assert(vis_before[j]);
                                        }
                                    } else {
                                        assert(stack@[stack_prev.len() as int] == m);
                                    }
                                }
                            }
                            assert forall|d: Seq<char>| #[trigger] out.deep_view().contains(d) <==> (base.contains(d)
                                || deps_of_visited(es, visited@, d)) by {
                                let dd = es[m as int].1.crate_deps;
                                if out.deep_view().contains(d) {
                                    let q = choose|q: int| 0 <= q < out.deep_view().len() && out.deep_view()[q] == d;
                                    if q >= out_before.len() {
                                        assert(dd[q - out_before.len()] == d);
                                        assert(dd.contains(d));
                                    } else {
                                        assert(out_before[q] == d);
                                        assert(out_before.contains(d));
                                        if deps_of_visited(es, vis_before, d) {
                                            let j = choose|j: int| 0 <= j < es.len() && vis_before[j] && #[trigger] es[j].1.crate_deps.contains(d);
                                            assert(visited@[j]);
                                        }
                                    }
                                }
                                if base.contains(d) {
                                    assert(out_before.contains(d));
                                    let q = choose|q: int| 0 <= q < out_before.len() && out_before[q] == d;
                                    assert(out.deep_view()[q] == d);
                                }
                                if deps_of_visited(es, visited@, d) {
                                    let j = choose|j: int| 0 <= j < es.len() && visited@[j] && #[trigger] es[j].1.crate_deps.contains(d);
                                    if j == m {
                                        let q = choose|q: int| 0 <= q < dd.len() && dd[q] == d;
                                        assert(out.deep_view()[out_before.len() + q] == d);
                                    } else {
                                        assert(vis_before[j]);
                                        assert(deps_of_visited(es, vis_before, d));
                                        assert(out_before.contains(d));
                                        let q = choose|q: int| 0 <= q < out_before.len() && out_before[q] == d;
                                        assert(out.deep_view()[q] == d);
                                    }
                                }
                            }
                            assert forall|j: int| 0 <= j < n && visited@[j] implies reachable(g, feature@, #[trigger] es[j].0) by {
                                if j != m {
                                    assert(vis_before[j]);
                                }
                            }
                        }
                    } else {
                        proof {
                            lemma_lex_strict_total_order();
                        }
                    }
                },
                None => {},
            }
            k = k + 1;
        }
    }
    proof {
        assert(closed_under_edges(es, visited@, Seq::empty(), -1, 0)) by {
            assert(stack@ =~= Seq::<usize>::empty());
        }
        assert forall|k: Seq<char>| ks.contains(k) <==> (g.contains_key(k) && reachable(g, feature@, k)) by {
            if ks.contains(k) {
                let j = choose|j: int| 0 <= j < es.len() && visited@[j] && #[trigger] es[j].0 == k;
                lemma_entries_map_at(es, j);
                assert(reachable(g, feature@, es[j].0));
            }
            if reachable(g, feature@, k) {
                let pth = choose|pth: Seq<Seq<char>>| #[trigger] is_path(g, pth) && pth[0] == feature@ && pth.last() == k;
                lemma_entries_map_at(es, start as int);
                lemma_closed_reaches(es, visited@, start as int, pth);
                assert(pth[pth.len() - 1] == k);
                let j = choose|j: int| 0 <= j < es.len() && visited@[j] && #[trigger] es[j].0 == k;
                assert(key_visited(es, visited@, k));
            }
        }
        assert(lists_reachable(g, feature@, ks));
        assert(deps_in_order(g, ks) =~= out.deep_view().subrange(base.len() as int, out.deep_view().len() as int));
        assert(out.deep_view().subrange(0, base.len() as int) =~= base);
        assert forall|d: Seq<char>| transitive_deps_of(g, feature@).contains(d) <==> deps_of_visited(es, visited@, d) by {
            if transitive_deps_of(g, feature@).contains(d) {
                let f = choose|f: Seq<char>| #[trigger] reachable(g, feature@, f) && g[f].crate_deps.contains(d);
                let pth = choose|pth: Seq<Seq<char>>| #[trigger] is_path(g, pth) && pth[0] == feature@ && pth.last() == f;
                lemma_entries_map_at(es, start as int);
                lemma_closed_reaches(es, visited@, start as int, pth);
                assert(pth[pth.len() - 1] == f);
                let j = choose|j: int| 0 <= j < es.len() && visited@[j] && #[trigger] es[j].0 == f;
                lemma_entries_map_at(es, j);
            }
            if deps_of_visited(es, visited@, d) {
                let j = choose|j: int| 0 <= j < es.len() && visited@[j] && #[trigger] es[j].1.crate_deps.contains(d);
                lemma_entries_map_at(es, j);
                assert(reachable(g, feature@, es[j].0));
            }
        }
    }
}

/// A feature that the graph does not hold activates no crate dependency.
pub proof fn lemma_unknown_feature_has_no_deps(g: Map<Seq<char>, FeatureNodeView>, feature: Seq<char>)
    requires
        !g.contains_key(feature),
    ensures
        transitive_deps_of(g, feature) == Set::<Seq<char>>::empty(),
{
    assert forall|d: Seq<char>| !transitive_deps_of(g, feature).contains(d) by {
        if transitive_deps_of(g, feature).contains(d) {
            let f = choose|f: Seq<char>| #[trigger] reachable(g, feature, f) && g[f].crate_deps.contains(d);
            let p = choose|p: Seq<Seq<char>>| #[trigger] is_path(g, p) && p[0] == feature && p.last() == f;
            assert(g.contains_key(p[0]));
        }
    }
    assert(transitive_deps_of(g, feature) =~= Set::<Seq<char>>::empty());
}

/// A feature activates its own crate dependencies.
pub proof fn lemma_direct_deps_included(
    g: Map<Seq<char>, FeatureNodeView>,
    feature: Seq<char>,
    d: Seq<char>,
)
    requires
        g.contains_key(feature),
        g[feature].crate_deps.contains(d),
    ensures
        transitive_deps_of(g, feature).contains(d),
{
    lemma_reachable_self(g, feature);
}

/// A feature activates everything that each of its feature dependencies
/// activates.
pub proof fn lemma_deps_include_child_deps(
    g: Map<Seq<char>, FeatureNodeView>,
    feature: Seq<char>,
    child: Seq<char>,
)
    requires
        g.contains_key(feature),
        g[feature].feature_deps.contains(child),
    ensures
        transitive_deps_of(g, child).subset_of(transitive_deps_of(g, feature)),
{
    if !g.contains_key(child) {
        lemma_unknown_feature_has_no_deps(g, child);
    } else {
        lemma_reachable_self(g, feature);
        lemma_reachable_extend(g, feature, feature, child);
        assert forall|d: Seq<char>| transitive_deps_of(g, child).contains(d) implies transitive_deps_of(
            g,
            feature,
        ).contains(d) by {
            let f = choose|f: Seq<char>| #[trigger] reachable(g, child, f) && g[f].crate_deps.contains(d);
            lemma_reachable_transitive(g, feature, child, f);
        }
    }
}

/// What a feature activates through its feature dependencies: everything
/// that some child in `feature_deps` activates.
pub open spec fn child_deps(g: Map<Seq<char>, FeatureNodeView>, feature: Seq<char>) -> Set<Seq<char>> {
    Set::new(
        |d: Seq<char>|
            exists|c: Seq<char>|
                g[feature].feature_deps.contains(c) && #[trigger] transitive_deps_of(g, c).contains(d),
    )
}

/// The crate dependencies that a feature of the graph activates are exactly
/// its own crate dependencies together with those that its feature
/// dependencies activate (cycles included).
pub proof fn lemma_deps_unfold(g: Map<Seq<char>, FeatureNodeView>, feature: Seq<char>)
    requires
        g.contains_key(feature),
    ensures
        transitive_deps_of(g, feature) == g[feature].crate_deps.to_set().union(child_deps(g, feature)),
{
    let own = g[feature].crate_deps.to_set();
    let rhs = own.union(child_deps(g, feature));
    assert forall|d: Seq<char>| transitive_deps_of(g, feature).contains(d) implies rhs.contains(d) by {
        let f = choose|f: Seq<char>| #[trigger] reachable(g, feature, f) && g[f].crate_deps.contains(d);
        let p = choose|p: Seq<Seq<char>>| #[trigger] is_path(g, p) && p[0] == feature && p.last() == f;
        if p.len() == 1 {
            assert(own.contains(d));
        } else {
            let c = p[1];
            assert(g[p[0]].feature_deps.contains(p[1]));
            let q = p.subrange(1, p.len() as int);
            assert forall|i: int| 0 <= i < q.len() implies g.contains_key(#[trigger] q[i]) by {
                assert(q[i] == p[i + 1]);
            }
            assert forall|j: int| 1 <= j < q.len() implies g[q[j - 1]].feature_deps.contains(#[trigger] q[j]) by {
                assert(q[j] == p[j + 1]);
                assert(q[j - 1] == p[j]);
            }
            assert(is_path(g, q));
            assert(q[0] == c && q.last() == f);
            assert(reachable(g, c, f));
            assert(transitive_deps_of(g, c).contains(d));
            assert(child_deps(g, feature).contains(d));
        }
    }
    assert forall|d: Seq<char>| rhs.contains(d) implies transitive_deps_of(g, feature).contains(d) by {
        if own.contains(d) {
            lemma_direct_deps_included(g, feature, d);
        } else {
            let c = choose|c: Seq<char>|
                g[feature].feature_deps.contains(c) && #[trigger] transitive_deps_of(g, c).contains(d);
            lemma_deps_include_child_deps(g, feature, c);
        }
    }
    assert(transitive_deps_of(g, feature) =~= rhs);
}

/// Collect every external crate dependency reachable from `feature`
/// (transitively through feature dependencies), deduplicated and sorted.
///
/// A feature that the graph does not hold reaches nothing.
pub fn transitive_crate_deps(graph: &FeatureGraph, feature: &str) -> (r: Vec<String>)
    ensures
        strictly_sorted(r.deep_view()),
        r.deep_view().to_set() == transitive_deps_of(graph@, feature@),
{
    let mut out: Vec<String> = Vec::new();
    assert(out.deep_view() =~= Seq::<Seq<char>>::empty());
    walk(graph, feature, &mut out);
    let r = sorted_unique(&out);
    assert(r.deep_view().to_set() =~= transitive_deps_of(graph@, feature@)) by {
        assert forall|d: Seq<char>| r.deep_view().to_set().contains(d) <==> transitive_deps_of(graph@, feature@).contains(d) by {
            assert(!Seq::<Seq<char>>::empty().contains(d));
        }
    }
    r
}

} // verus!
