//! The path resolver: walks paths through the hierarchy and remembers where
//! they led.

use vstd::prelude::*;
use crate::hierarchy::{renamed, Hierarchy, Link, ObjectId, Resolution};
use crate::path::TargetPath;

verus! {

/// One remembered walk.
struct CacheEntry {
    root: ObjectId,
    path: TargetPath,
    /// The objects on the way, from the root to the object reached.
    chain: Vec<ObjectId>,
    /// Whether some name on the way matched several children.
    chose: bool,
}

/// A remembered walk as contracts see it: from `root` along `path` through
/// the objects of `chain`, which starts at the root and ends at the object
/// reached; `chose` tells whether some name on the way matched several
/// children.
pub struct EntryView {
    pub root: ObjectId,
    pub path: Seq<Seq<char>>,
    pub chain: Seq<ObjectId>,
    pub chose: bool,
}

impl View for CacheEntry {
    type V = EntryView;

    closed spec fn view(&self) -> EntryView {
        EntryView { root: self.root, path: self.path@, chain: self.chain@, chose: self.chose }
    }
}

/// Resolves paths against the object hierarchy and caches the walks that
/// reached an object.
///
/// The resolver keeps its own record of the hierarchy. Whoever owns the
/// objects reports every change to it with `add_child`, `remove_child`,
/// `rename_child` or `replace`; the resolver then forgets the walks that the
/// change may have turned, so that the cache is at all times true of the
/// hierarchy.
pub struct PathResolver {
    hierarchy: Hierarchy,
    entries: Vec<CacheEntry>,
}

impl CacheEntry {
    /// Where the walk led.
    fn resolution(&self) -> (r: Resolution)
        requires
            self@.chain.len() >= 1,
        ensures
            r == self@.resolution(),
    {
        let reached: ObjectId = self.chain[self.chain.len() - 1];
        if self.chose {
            Resolution::Ambiguous(reached)
        } else {
            Resolution::Found(reached)
        }
    }

    /// Whether the walk looked among the children of `parent`.
    fn consults(&self, parent: ObjectId) -> (looked: bool)
        ensures
            looked == self@.consults(parent),
    {
        let steps: usize = self.path.len();
        let mut k: usize = 0;
        while k < steps && k < self.chain.len()
            invariant
                steps == self@.path.len(),
                k <= steps,
                forall|j: int| 0 <= j < k && j < self@.chain.len() ==> #[trigger] self@.chain[j] != parent,
            decreases steps - k,
        {
            if self.chain[k] == parent {
                return true;
            }
            k += 1;
        }
        false
    }
}

/// The entries as contracts see them.
spec fn views(entries: Seq<CacheEntry>) -> Seq<EntryView> {
    entries.map_values(|e: CacheEntry| e@)
}

impl View for PathResolver {
    type V = Seq<EntryView>;

    closed spec fn view(&self) -> Seq<EntryView> {
        views(self.entries@)
    }
}

impl EntryView {
    /// The entry records the walk as `hierarchy` has it.
    pub open spec fn holds_in(self, hierarchy: &Hierarchy) -> bool {
        &&& self.chain.len() == self.path.len() + 1
        &&& self.chain[0] == self.root
        &&& forall|k: int|
            0 <= k < self.path.len() ==> hierarchy.child_named(#[trigger] self.chain[k], self.path[k])
                == Some(self.chain[k + 1])
        &&& self.chose == self.chose_from(hierarchy, 0)
    }

    /// Some name from the `k`-th on matched several children.
    pub open spec fn chose_from(self, hierarchy: &Hierarchy, k: int) -> bool {
        exists|j: int|
            k <= j < self.path.len() && hierarchy.several_named(#[trigger] self.chain[j], self.path[j])
    }

    /// Where the recorded walk led.
    pub open spec fn resolution(self) -> Resolution {
        if self.chose {
            Resolution::Ambiguous(self.chain.last())
        } else {
            Resolution::Found(self.chain.last())
        }
    }

    /// The walk looked among the children of `parent`.
    pub open spec fn consults(self, parent: ObjectId) -> bool {
        exists|k: int|
            0 <= k < self.path.len() && k < self.chain.len() && #[trigger] self.chain[k] == parent
    }
}

/// Some entry is for the walk from `root` along `path`.
pub open spec fn caches(entries: Seq<EntryView>, root: ObjectId, path: Seq<Seq<char>>) -> bool {
    exists|i: int| 0 <= i < entries.len() && (#[trigger] entries[i]).root == root && entries[i].path == path
}

/// The objects that the walk from `from` along `path` visits, as far as it
/// gets: `from` first, then the child taken at each name.
pub open spec fn walk_chain(hierarchy: &Hierarchy, from: ObjectId, path: Seq<Seq<char>>) -> Seq<ObjectId>
    decreases path.len(),
{
    if path.len() == 0 {
        seq![from]
    } else {
        match hierarchy.child_named(from, path[0]) {
            None => seq![from],
            Some(child) => seq![from] + walk_chain(hierarchy, child, path.drop_first()),
        }
    }
}

/// The cache after the walk from `root` along `path` was asked for: as
/// before where the walk was cached or leads nowhere, and with the walk as
/// its new last entry otherwise.
pub open spec fn remembered(
    entries: Seq<EntryView>,
    hierarchy: &Hierarchy,
    root: ObjectId,
    path: Seq<Seq<char>>,
) -> Seq<EntryView> {
    let led = hierarchy.locate_spec(root, path);
    if caches(entries, root, path) || led is Missing {
        entries
    } else {
        entries.push(
            EntryView {
                root: root,
                path: path,
                chain: walk_chain(hierarchy, root, path),
                chose: led is Ambiguous,
            },
        )
    }
}

/// The cache after the walks from `root` along each of `paths` were asked
/// for, in order.
pub open spec fn remembered_all(
    entries: Seq<EntryView>,
    hierarchy: &Hierarchy,
    root: ObjectId,
    paths: Seq<Seq<Seq<char>>>,
) -> Seq<EntryView>
    decreases paths.len(),
{
    if paths.len() == 0 {
        entries
    } else {
        remembered(remembered_all(entries, hierarchy, root, paths.drop_last()), hierarchy, root, paths.last())
    }
}

/// Every entry records its walk as `hierarchy` has it.
pub open spec fn all_hold(entries: Seq<EntryView>, hierarchy: &Hierarchy) -> bool {
    forall|i: int| 0 <= i < entries.len() ==> (#[trigger] entries[i]).holds_in(hierarchy)
}

/// A recorded walk leads where a fresh walk through the same hierarchy leads.
pub proof fn lemma_entry_resolves(entry: EntryView, hierarchy: &Hierarchy)
    requires
        entry.holds_in(hierarchy),
    ensures
        hierarchy.locate_spec(entry.root, entry.path) == entry.resolution(),
{
    lemma_walk_from(entry, hierarchy, 0);
    assert(entry.path.skip(0) =~= entry.path);
}

proof fn lemma_walk_from(entry: EntryView, hierarchy: &Hierarchy, k: int)
    requires
        entry.holds_in(hierarchy),
        0 <= k <= entry.path.len(),
    ensures
        hierarchy.locate_spec(entry.chain[k], entry.path.skip(k)) == if entry.chose_from(hierarchy, k) {
            Resolution::Ambiguous(entry.chain.last())
        } else {
            Resolution::Found(entry.chain.last())
        },
    decreases entry.path.len() - k,
{
    let rest = entry.path.skip(k);
    if k < entry.path.len() {
        lemma_walk_from(entry, hierarchy, k + 1);
        assert(rest[0] == entry.path[k]);
        assert(rest.drop_first() =~= entry.path.skip(k + 1));
        assert(hierarchy.child_named(entry.chain[k], entry.path[k]) == Some(entry.chain[k + 1]));
        if hierarchy.several_named(entry.chain[k], entry.path[k]) {
            assert(entry.chose_from(hierarchy, k));
        } else if entry.chose_from(hierarchy, k + 1) {
            let j = choose|j: int|
                k + 1 <= j < entry.path.len() && hierarchy.several_named(
                    #[trigger] entry.chain[j],
                    entry.path[j],
                );
            assert(hierarchy.several_named(entry.chain[j], entry.path[j]));
            assert(entry.chose_from(hierarchy, k));
        } else if entry.chose_from(hierarchy, k) {
            let j = choose|j: int|
                k <= j < entry.path.len() && hierarchy.several_named(
                    #[trigger] entry.chain[j],
                    entry.path[j],
                );
            assert(j != k);
            assert(hierarchy.several_named(entry.chain[j], entry.path[j]));
            assert(entry.chose_from(hierarchy, k + 1));
        }
    } else {
        assert(rest.len() == 0);
    }
}

/// A recorded walk went through the objects that a fresh walk goes through.
pub proof fn lemma_entry_chain(entry: EntryView, hierarchy: &Hierarchy)
    requires
        entry.holds_in(hierarchy),
    ensures
        entry.chain == walk_chain(hierarchy, entry.root, entry.path),
{
    lemma_chain_from(entry, hierarchy, 0);
    assert(entry.path.skip(0) =~= entry.path);
}

proof fn lemma_chain_from(entry: EntryView, hierarchy: &Hierarchy, k: int)
    requires
        entry.holds_in(hierarchy),
        0 <= k <= entry.path.len(),
    ensures
        entry.chain.skip(k) == walk_chain(hierarchy, entry.chain[k], entry.path.skip(k)),
    decreases entry.path.len() - k,
{
    let rest = entry.path.skip(k);
    if k < entry.path.len() {
        lemma_chain_from(entry, hierarchy, k + 1);
        assert(rest.drop_first() =~= entry.path.skip(k + 1));
    }
}

/// Asking for a walk keeps what was cached and keeps the cache true.
pub proof fn lemma_remembered(
    entries: Seq<EntryView>,
    hierarchy: &Hierarchy,
    root: ObjectId,
    path: Seq<Seq<char>>,
)
    ensures
        entries.is_prefix_of(remembered(entries, hierarchy, root, path)),
        !(hierarchy.locate_spec(root, path) is Missing) ==> caches(
            remembered(entries, hierarchy, root, path),
            root,
            path,
        ),
{
    let after = remembered(entries, hierarchy, root, path);
    if after.len() > entries.len() {
        assert(after[entries.len() as int].root == root);
    }
}

/// Asking for several walks keeps what was cached.
pub proof fn lemma_remembered_all(
    entries: Seq<EntryView>,
    hierarchy: &Hierarchy,
    root: ObjectId,
    paths: Seq<Seq<Seq<char>>>,
)
    ensures
        entries.is_prefix_of(remembered_all(entries, hierarchy, root, paths)),
    decreases paths.len(),
{
    if paths.len() > 0 {
        lemma_remembered_all(entries, hierarchy, root, paths.drop_last());
        lemma_remembered(
            remembered_all(entries, hierarchy, root, paths.drop_last()),
            hierarchy,
            root,
            paths.last(),
        );
    }
}

/// The invalidation contract: after the children of `parent` have changed,
/// the entries whose walks did not look among them are as true as before.
pub proof fn lemma_invalidate_restores(
    entries: Seq<EntryView>,
    before: &Hierarchy,
    after: &Hierarchy,
    parent: ObjectId,
)
    requires
        all_hold(entries, before),
        before.same_but_under(after, parent),
    ensures
        all_hold(entries.filter(|e: EntryView| !e.consults(parent)), after),
{
    let kept = entries.filter(|e: EntryView| !e.consults(parent));
    assert forall|i: int| 0 <= i < kept.len() implies (#[trigger] kept[i]).holds_in(after) by {
        let e = kept[i];
        entries.lemma_filter_contains_rev(|e: EntryView| !e.consults(parent), e);
        if e.chose_from(before, 0) {
            let j = choose|j: int|
                0 <= j < e.path.len() && before.several_named(#[trigger] e.chain[j], e.path[j]);
            assert(before.several_named(e.chain[j], e.path[j]) == after.several_named(
                e.chain[j],
                e.path[j],
            ));
        }
        if e.chose_from(after, 0) {
            let j = choose|j: int|
                0 <= j < e.path.len() && after.several_named(#[trigger] e.chain[j], e.path[j]);
            assert(before.several_named(e.chain[j], e.path[j]) == after.several_named(
                e.chain[j],
                e.path[j],
            ));
        }
    }
}

/// The index of the entry for the walk from `root` along `path`, if there
/// is one.
fn find_entry(entries: &Vec<CacheEntry>, root: ObjectId, path: &TargetPath) -> (found: Option<usize>)
    ensures
        found matches Some(i) ==> i < entries@.len() && entries@[i as int]@.root == root
            && entries@[i as int]@.path == path@,
        found is None ==> !caches(views(entries@), root, path@),
{
    let n: usize = entries.len();
    let mut i: usize = 0;
    while i < n
        invariant
            n == entries@.len(),
            i <= n,
            forall|j: int|
                0 <= j < i ==> !((#[trigger] views(entries@)[j]).root == root && views(entries@)[j].path
                    == path@),
        decreases n - i,
    {
        if entries[i].root == root && entries[i].path.same_as(path) {
            return Some(i);
        }
        i += 1;
    }
    None
}

/// Walks from `root` along `path` and records the walk, unless some name on
/// the way matches no child.
fn walk(hierarchy: &Hierarchy, root: ObjectId, path: &TargetPath) -> (walked: Option<CacheEntry>)
    ensures
        walked matches Some(entry) ==> entry@.root == root && entry@.path == path@ && entry@.holds_in(
            hierarchy,
        ),
        walked is None <==> hierarchy.locate_spec(root, path@) is Missing,
{
    let steps: usize = path.parts.len();
    let mut chain: Vec<ObjectId> = Vec::new();
    chain.push(root);
    let mut current: ObjectId = root;
    let mut chose: bool = false;
    let mut k: usize = 0;
    assert(path@.skip(0) =~= path@);
    while k < steps
        invariant
            steps == path.parts@.len(),
            k <= steps,
            chain@.len() == k + 1,
            chain@[0] == root,
            chain@[k as int] == current,
            forall|j: int|
                0 <= j < k ==> hierarchy.child_named(#[trigger] chain@[j], path@[j]) == Some(chain@[j + 1]),
            chose == exists|j: int| 0 <= j < k && hierarchy.several_named(#[trigger] chain@[j], path@[j]),
            hierarchy.locate_spec(root, path@) == if chose {
                hierarchy.locate_spec(current, path@.skip(k as int)).marked()
            } else {
                hierarchy.locate_spec(current, path@.skip(k as int))
            },
        decreases steps - k,
    {
        proof {
            let rest = path@.skip(k as int);
            assert(rest.drop_first() =~= path@.skip(k + 1));
        }
        let ghost walked = chain@;
        match hierarchy.find_child(current, &path.parts[k]) {
            None => {
                return None;
            },
            Some((child, several)) => {
                chain.push(child);
                proof {
                    if chose || several {
                        if chose {
                            let j = choose|j: int|
                                0 <= j < k && hierarchy.several_named(#[trigger] walked[j], path@[j]);
                            assert(hierarchy.several_named(chain@[j], path@[j]));
                        } else {
                            assert(hierarchy.several_named(chain@[k as int], path@[k as int]));
                        }
                    }
                }
                current = child;
                chose = chose || several;
            },
        }
        k += 1;
    }
    let ghost walked = chain@;
    let entry = CacheEntry { root, path: path.duplicate(), chain, chose };
    proof {
        if chose {
            let j = choose|j: int| 0 <= j < k && hierarchy.several_named(#[trigger] walked[j], path@[j]);
            assert(hierarchy.several_named(entry@.chain[j], entry@.path[j]));
        }
        if entry@.chose_from(hierarchy, 0) {
            let j = choose|j: int|
                0 <= j < entry@.path.len() && hierarchy.several_named(
                    #[trigger] entry@.chain[j],
                    entry@.path[j],
                );
            assert(hierarchy.several_named(walked[j], path@[j]));
        }
    }
    Some(entry)
}

/// Drops the entries whose walks looked among the children of `parent` and
/// keeps the others in their order.
fn drop_consulting(entries: &mut Vec<CacheEntry>, parent: ObjectId)
    ensures
        views(final(entries)@) == views(old(entries)@).filter(|e: EntryView| !e.consults(parent)),
{
    let ghost before = views(entries@);
    let ghost keep = |e: EntryView| !e.consults(parent);
    let ghost mut done: int = 0;
    let mut i: usize = 0;
    while i < entries.len()
        invariant
            i <= entries@.len(),
            0 <= done <= before.len(),
            keep == |e: EntryView| !e.consults(parent),
            views(entries@).take(i as int) == before.take(done).filter(keep),
            views(entries@).skip(i as int) == before.skip(done),
        decreases entries@.len() - i,
    {
        proof {
            reveal(Seq::filter);
            assert(before.skip(done).len() == before.len() - done);
            assert(before[done] == before.skip(done)[0]);
            assert(before.take(done + 1).drop_last() =~= before.take(done));
        }
        if entries[i].consults(parent) {
            entries.remove(i);
            proof {
                assert(before.skip(done).drop_first() =~= before.skip(done + 1));
                done = done + 1;
            }
        } else {
            proof {
                assert(before.skip(done).drop_first() =~= before.skip(done + 1));
                done = done + 1;
            }
            i += 1;
        }
    }
    proof {
        assert(before.take(done) =~= before);
    }
}

impl PathResolver {
    /// The hierarchy as the resolver has it.
    pub closed spec fn spec_hierarchy(&self) -> Hierarchy {
        self.hierarchy
    }

    /// The cache is true of the hierarchy.
    #[verifier::type_invariant]
    pub open spec fn coherent(&self) -> bool {
        all_hold(self@, &self.spec_hierarchy())
    }

    /// A resolver for `hierarchy` that remembers nothing yet.
    pub fn new(hierarchy: Hierarchy) -> (resolver: PathResolver)
        ensures
            resolver.spec_hierarchy() == hierarchy,
            resolver@ == Seq::<EntryView>::empty(),
    {
        let resolver = PathResolver { hierarchy, entries: Vec::new() };
        resolver
    }

    /// The hierarchy as the resolver has it.
    pub fn hierarchy(&self) -> (hierarchy: &Hierarchy)
        ensures
            *hierarchy == self.spec_hierarchy(),
    {
        &self.hierarchy
    }

    /// The number of walks remembered.
    pub fn len(&self) -> (n: usize)
        ensures
            n == self@.len(),
    {
        self.entries.len()
    }

    /// Where `path` leads from `root`.
    ///
    /// A walk that is remembered is answered from the cache. Any other is
    /// made through the hierarchy and, unless it ends as missing, remembered.
    pub fn locate(&mut self, root: ObjectId, path: &TargetPath) -> (r: Resolution)
        ensures
            r == old(self).spec_hierarchy().locate_spec(root, path@),
            final(self)@ == remembered(old(self)@, &old(self).spec_hierarchy(), root, path@),
            final(self).spec_hierarchy() == old(self).spec_hierarchy(),
    {
        proof {
            use_type_invariant(&*self);
        }
        if let Some(i) = find_entry(&self.entries, root, path) {
            let entry: &CacheEntry = &self.entries[i];
            proof {
                assert(self@[i as int] == entry@);
                lemma_entry_resolves(entry@, &self.hierarchy);
            }
            return entry.resolution();
        }
        match walk(&self.hierarchy, root, path) {
            None => Resolution::Missing,
            Some(entry) => {
                proof {
                    lemma_entry_chain(entry@, &self.hierarchy);
                    lemma_entry_resolves(entry@, &self.hierarchy);
                }
                let r: Resolution = entry.resolution();
                let ghost before = self@;
                let mut taken = PathResolver::new(Hierarchy::new());
                std::mem::swap(self, &mut taken);
                let PathResolver { hierarchy: hierarchy, entries: mut entries } = taken;
                entries.push(entry);
                proof {
                    assert(views(entries@) =~= before.push(entry@));
                }
                *self = PathResolver { hierarchy, entries };
                r
            },
        }
    }

    /// The object that `path` leads to from `root`, or none where some name
    /// on the way matches no child. Where a name matches several children
    /// the first listed is taken; `locate` tells when that happened.
    pub fn resolve(&mut self, root: ObjectId, path: &TargetPath) -> (o: Option<ObjectId>)
        ensures
            o == old(self).spec_hierarchy().locate_spec(root, path@).spec_object(),
            final(self)@ == remembered(old(self)@, &old(self).spec_hierarchy(), root, path@),
            final(self).spec_hierarchy() == old(self).spec_hierarchy(),
    {
        self.locate(root, path).object()
    }

    /// Reports that `child` has become a child of `parent` under `name`,
    /// listed after the children that `parent` had. The walks that looked
    /// among the children of `parent` are forgotten.
    pub fn add_child(&mut self, parent: ObjectId, name: String, child: ObjectId)
        ensures
            final(self).spec_hierarchy().links@ == old(self).spec_hierarchy().links@.push(
                Link { parent, name, child },
            ),
            final(self)@ == old(self)@.filter(|e: EntryView| !e.consults(parent)),
    {
        proof {
            use_type_invariant(&*self);
        }
        let ghost cached = self@;
        let mut taken = PathResolver::new(Hierarchy::new());
        std::mem::swap(self, &mut taken);
        let PathResolver { hierarchy: mut hierarchy, entries: mut entries } = taken;
        let ghost before = hierarchy;
        hierarchy.add_child(parent, name, child);
        drop_consulting(&mut entries, parent);
        proof {
            lemma_invalidate_restores(cached, &before, &hierarchy, parent);
        }
        *self = PathResolver { hierarchy, entries };
    }

    /// Reports that `child` is no longer a child of `parent`, under whatever
    /// names it was listed there. The walks that looked among the children
    /// of `parent` are forgotten.
    pub fn remove_child(&mut self, parent: ObjectId, child: ObjectId)
        ensures
            final(self).spec_hierarchy().links@ == old(self).spec_hierarchy().links@.filter(
                |link: Link| !(link.parent == parent && link.child == child),
            ),
            final(self)@ == old(self)@.filter(|e: EntryView| !e.consults(parent)),
    {
        proof {
            use_type_invariant(&*self);
        }
        let ghost cached = self@;
        let mut taken = PathResolver::new(Hierarchy::new());
        std::mem::swap(self, &mut taken);
        let PathResolver { hierarchy: mut hierarchy, entries: mut entries } = taken;
        let ghost before = hierarchy;
        hierarchy.remove_child(parent, child);
        drop_consulting(&mut entries, parent);
        proof {
            lemma_invalidate_restores(cached, &before, &hierarchy, parent);
        }
        *self = PathResolver { hierarchy, entries };
    }

    /// Reports that `child` goes by `name` among the children of `parent`
    /// from now on, in the place it had. The walks that looked among the
    /// children of `parent` are forgotten.
    pub fn rename_child(&mut self, parent: ObjectId, child: ObjectId, name: &String)
        ensures
            renamed(old(self).spec_hierarchy().links@, final(self).spec_hierarchy().links@, parent, child, name@),
            final(self)@ == old(self)@.filter(|e: EntryView| !e.consults(parent)),
    {
        proof {
            use_type_invariant(&*self);
        }
        let ghost cached = self@;
        let mut taken = PathResolver::new(Hierarchy::new());
        std::mem::swap(self, &mut taken);
        let PathResolver { hierarchy: mut hierarchy, entries: mut entries } = taken;
        let ghost before = hierarchy;
        hierarchy.rename_child(parent, child, name);
        drop_consulting(&mut entries, parent);
        proof {
            lemma_invalidate_restores(cached, &before, &hierarchy, parent);
        }
        *self = PathResolver { hierarchy, entries };
    }

    /// Takes `hierarchy` for the state of the objects and forgets every
    /// walk.
    pub fn replace(&mut self, hierarchy: Hierarchy)
        ensures
            final(self).spec_hierarchy() == hierarchy,
            final(self)@ == Seq::<EntryView>::empty(),
    {
        *self = PathResolver::new(hierarchy);
    }

    /// Forgets every walk that looked among the children of `parent`, and
    /// keeps the others in their order.
    pub fn invalidate(&mut self, parent: ObjectId)
        ensures
            final(self)@ == old(self)@.filter(|e: EntryView| !e.consults(parent)),
            final(self).spec_hierarchy() == old(self).spec_hierarchy(),
    {
        proof {
            use_type_invariant(&*self);
        }
        let ghost cached = self@;
        let mut taken = PathResolver::new(Hierarchy::new());
        std::mem::swap(self, &mut taken);
        let PathResolver { hierarchy: hierarchy, entries: mut entries } = taken;
        drop_consulting(&mut entries, parent);
        proof {
            lemma_invalidate_restores(cached, &hierarchy, &hierarchy, parent);
        }
        *self = PathResolver { hierarchy, entries };
    }

    /// Forgets every walk.
    pub fn clear(&mut self)
        ensures
            final(self)@ == Seq::<EntryView>::empty(),
            final(self).spec_hierarchy() == old(self).spec_hierarchy(),
    {
        let mut taken = PathResolver::new(Hierarchy::new());
        std::mem::swap(self, &mut taken);
        let PathResolver { hierarchy: hierarchy, entries: _ } = taken;
        *self = PathResolver::new(hierarchy);
    }
}

impl Default for PathResolver {
    /// A resolver for a hierarchy without edges.
    fn default() -> (resolver: PathResolver)
        ensures
            resolver.spec_hierarchy().links@ == Seq::<Link>::empty(),
            resolver@ == Seq::<EntryView>::empty(),
    {
        PathResolver::new(Hierarchy::new())
    }
}

} // verus!
