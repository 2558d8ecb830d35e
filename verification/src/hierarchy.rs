//! A snapshot of the object hierarchy, and the walk that follows a path
//! through it.

use vstd::prelude::*;
use crate::path::TargetPath;

verus! {

/// The identity of an object in the hierarchy.
#[derive(Clone, Copy, Debug, PartialEq, Eq, Hash, Structural)]
pub struct ObjectId(pub u64);

/// One parent-child edge: `child` is a child of `parent` and goes by `name`
/// among its siblings.
#[derive(Clone, Debug, PartialEq, Eq)]
pub struct Link {
    pub parent: ObjectId,
    pub name: String,
    pub child: ObjectId,
}

/// The hierarchy as the list of its edges. The children of an object are the
/// edges that name it as parent, in the order in which they are listed.
#[derive(Clone, Debug, PartialEq, Eq)]
pub struct Hierarchy {
    pub links: Vec<Link>,
}

/// Where a path leads.
#[derive(Clone, Copy, Debug, PartialEq, Eq, Structural)]
pub enum Resolution {
    /// Every name on the way matched exactly one child.
    Found(ObjectId),
    /// Some name on the way matched several children and the first listed
    /// was taken. The hierarchy is wrongly authored; callers should warn and
    /// not count on which child is taken.
    Ambiguous(ObjectId),
    /// Some name on the way matched no child.
    Missing,
}

impl Resolution {
    /// The object reached, if any.
    pub open spec fn spec_object(self) -> Option<ObjectId> {
        match self {
            Resolution::Found(o) => Some(o),
            Resolution::Ambiguous(o) => Some(o),
            Resolution::Missing => None,
        }
    }

    /// The same outcome after a choice among several children on the way.
    pub open spec fn marked(self) -> Resolution {
        match self {
            Resolution::Found(o) => Resolution::Ambiguous(o),
            other => other,
        }
    }

    /// The object reached, if any.
    pub fn object(&self) -> (o: Option<ObjectId>)
        ensures
            o == self.spec_object(),
    {
        match self {
            Resolution::Found(o) => Some(*o),
            Resolution::Ambiguous(o) => Some(*o),
            Resolution::Missing => None,
        }
    }
}

/// The two links are the same edge under the same name.
pub open spec fn same_link(a: Link, b: Link) -> bool {
    a.parent == b.parent && a.name@ == b.name@ && a.child == b.child
}

/// `after` lists what `before` lists, but with every link from `parent` to
/// `child` under `name`.
pub open spec fn renamed(
    before: Seq<Link>,
    after: Seq<Link>,
    parent: ObjectId,
    child: ObjectId,
    name: Seq<char>,
) -> bool {
    &&& after.len() == before.len()
    &&& forall|i: int|
        0 <= i < before.len() ==> if before[i].parent == parent && before[i].child == child {
            (#[trigger] after[i]).parent == parent && after[i].child == child && after[i].name@ == name
        } else {
            after[i] == before[i]
        }
}

impl Hierarchy {
    /// Edge `i` leads from `parent` to a child called `name`.
    pub open spec fn is_link(&self, i: int, parent: ObjectId, name: Seq<char>) -> bool {
        &&& 0 <= i < self.links@.len()
        &&& self.links@[i].parent == parent
        &&& self.links@[i].name@ == name
    }

    /// Edge `i` is the first listed from `parent` to a child called `name`.
    pub open spec fn is_first_link(&self, i: int, parent: ObjectId, name: Seq<char>) -> bool {
        &&& self.is_link(i, parent, name)
        &&& forall|j: int| 0 <= j < i ==> !self.is_link(j, parent, name)
    }

    /// The first listed child of `parent` that is called `name`.
    pub open spec fn child_named(&self, parent: ObjectId, name: Seq<char>) -> Option<ObjectId> {
        if exists|i: int| self.is_first_link(i, parent, name) {
            Some(self.links@[choose|i: int| self.is_first_link(i, parent, name)].child)
        } else {
            None
        }
    }

    /// More than one child of `parent` is called `name`.
    pub open spec fn several_named(&self, parent: ObjectId, name: Seq<char>) -> bool {
        exists|i: int, j: int| i != j && self.is_link(i, parent, name) && self.is_link(j, parent, name)
    }

    /// The two hierarchies give every object but `parent` the same children,
    /// as far as a walk can tell.
    pub open spec fn same_but_under(&self, other: &Hierarchy, parent: ObjectId) -> bool {
        &&& forall|o: ObjectId, name: Seq<char>|
            o != parent ==> #[trigger] self.child_named(o, name) == other.child_named(o, name)
        &&& forall|o: ObjectId, name: Seq<char>|
            o != parent ==> #[trigger] self.several_named(o, name) == other.several_named(o, name)
    }

    /// Where `path` leads from `from`: at each name the walk steps to the
    /// first listed child of that name, and stops as missing where there is
    /// none.
    pub open spec fn locate_spec(&self, from: ObjectId, path: Seq<Seq<char>>) -> Resolution
        decreases path.len(),
    {
        if path.len() == 0 {
            Resolution::Found(from)
        } else {
            match self.child_named(from, path[0]) {
                None => Resolution::Missing,
                Some(child) => {
                    let rest = self.locate_spec(child, path.drop_first());
                    if self.several_named(from, path[0]) {
                        rest.marked()
                    } else {
                        rest
                    }
                },
            }
        }
    }

    /// The first listed child of `parent` called `name`, and whether another
    /// child of `parent` goes by the same name.
    pub fn find_child(&self, parent: ObjectId, name: &String) -> (found: Option<(ObjectId, bool)>)
        ensures
            found matches Some((child, several)) ==> self.child_named(parent, name@) == Some(child)
                && several == self.several_named(parent, name@),
            found is None ==> self.child_named(parent, name@) is None,
    {
        let n: usize = self.links.len();
        let mut first: Option<ObjectId> = None;
        let mut several: bool = false;
        let ghost mut at: int = 0;
        let mut i: usize = 0;
        while i < n
            invariant
                n == self.links@.len(),
                i <= n,
                first is None ==> !several && forall|j: int| 0 <= j < i ==> !self.is_link(j, parent, name@),
                first matches Some(child) ==> self.is_first_link(at, parent, name@) && at < i && child
                    == self.links@[at].child,
                several ==> self.several_named(parent, name@),
                !several ==> forall|j: int| 0 <= j < i && j != at ==> !self.is_link(j, parent, name@),
            decreases n - i,
        {
            let link: &Link = &self.links[i];
            if link.parent == parent && link.name == *name {
                match first {
                    None => {
                        first = Some(link.child);
                        proof {
                            at = i as int;
                        }
                    },
                    Some(_) => {
                        several = true;
                        assert(self.is_link(at, parent, name@) && self.is_link(i as int, parent, name@));
                    },
                }
            }
            i += 1;
        }
        match first {
            None => None,
            Some(child) => {
                proof {
                    if self.several_named(parent, name@) {
                        let (a, b) = choose|a: int, b: int|
                            a != b && self.is_link(a, parent, name@) && self.is_link(b, parent, name@);
                        assert(a != at || b != at);
                    }
                }
                Some((child, several))
            },
        }
    }

    /// There is only one first link, so `child_named` is the child it leads to.
    pub proof fn lemma_first_link_unique(&self, i: int, parent: ObjectId, name: Seq<char>)
        requires
            self.is_first_link(i, parent, name),
        ensures
            self.child_named(parent, name) == Some(self.links@[i].child),
    {
        let j = choose|j: int| self.is_first_link(j, parent, name);
        assert(i == j);
    }

    /// A hierarchy without edges.
    pub fn new() -> (hierarchy: Hierarchy)
        ensures
            hierarchy.links@ == Seq::<Link>::empty(),
    {
        Hierarchy { links: Vec::new() }
    }

    /// Makes `child` a child of `parent` under `name`, listed after the
    /// children that `parent` has. No other object's children change.
    pub fn add_child(&mut self, parent: ObjectId, name: String, child: ObjectId)
        ensures
            final(self).links@ == old(self).links@.push(Link { parent, name, child }),
            old(self).same_but_under(final(self), parent),
    {
        let ghost before = *self;
        self.links.push(Link { parent, name, child });
        proof {
            let same = |i: int| i;
            assert forall|k: int| 0 <= k < self.links@.len() && (#[trigger] self.links@[k]).parent != parent implies exists|
                i: int,
            |
                0 <= i < before.links@.len() && before.links@[i].parent != parent && #[trigger] same(i) == k by {
                assert(same(k) == k);
            }
            lemma_same_links(&before, self, parent, same);
        }
    }

    /// Takes `child` away from the children of `parent`, under whatever
    /// names it was listed there. No other object's children change.
    pub fn remove_child(&mut self, parent: ObjectId, child: ObjectId)
        ensures
            final(self).links@ == old(self).links@.filter(
                |link: Link| !(link.parent == parent && link.child == child),
            ),
            old(self).same_but_under(final(self), parent),
    {
        let ghost before = *self;
        let ghost keep = |link: Link| !(link.parent == parent && link.child == child);
        let ghost mut done: int = 0;
        let mut i: usize = 0;
        while i < self.links.len()
            invariant
                i <= self.links@.len(),
                0 <= done <= before.links@.len(),
                keep == |link: Link| !(link.parent == parent && link.child == child),
                self.links@.take(i as int) == before.links@.take(done).filter(keep),
                self.links@.skip(i as int) == before.links@.skip(done),
                before.same_but_under(self, parent),
            decreases self.links@.len() - i,
        {
            let ghost now = *self;
            proof {
                reveal(Seq::filter);
                assert(before.links@.skip(done).len() == before.links@.len() - done);
                assert(before.links@[done] == before.links@.skip(done)[0]);
                assert(before.links@.take(done + 1).drop_last() =~= before.links@.take(done));
            }
            if self.links[i].parent == parent && self.links[i].child == child {
                self.links.remove(i);
                proof {
                    assert(before.links@.skip(done).drop_first() =~= before.links@.skip(done + 1));
                    done = done + 1;
                    let at = i as int;
                    let shifted = |j: int|
                        if j < at {
                            j
                        } else {
                            j - 1
                        };
                    assert forall|k: int|
                        0 <= k < self.links@.len() && (#[trigger] self.links@[k]).parent != parent implies exists|
                        j: int,
                    |
                        0 <= j < now.links@.len() && now.links@[j].parent != parent && #[trigger] shifted(j)
                            == k by {
                        if k < at {
                            assert(shifted(k) == k);
                        } else {
                            assert(shifted(k + 1) == k);
                        }
                    }
                    lemma_same_links(&now, self, parent, shifted);
                }
            } else {
                proof {
                    assert(before.links@.skip(done).drop_first() =~= before.links@.skip(done + 1));
                    done = done + 1;
                }
                i += 1;
            }
        }
        proof {
            assert(before.links@.take(done) =~= before.links@);
        }
    }

    /// Lists `child` among the children of `parent` under `name` from now
    /// on, in the place it had. No other object's children change.
    pub fn rename_child(&mut self, parent: ObjectId, child: ObjectId, name: &String)
        ensures
            renamed(old(self).links@, final(self).links@, parent, child, name@),
            old(self).same_but_under(final(self), parent),
    {
        let ghost before = *self;
        let n: usize = self.links.len();
        let mut i: usize = 0;
        while i < n
            invariant
                n == self.links@.len(),
                n == before.links@.len(),
                i <= n,
                forall|j: int|
                    0 <= j < i ==> if before.links@[j].parent == parent && before.links@[j].child == child {
                        same_link(#[trigger] self.links@[j], Link { parent, name: *name, child })
                    } else {
                        self.links@[j] == before.links@[j]
                    },
                forall|j: int| i <= j < n ==> #[trigger] self.links@[j] == before.links@[j],
            decreases n - i,
        {
            if self.links[i].parent == parent && self.links[i].child == child {
                self.links.set(i, Link { parent, name: name.clone(), child });
            }
            i += 1;
        }
        proof {
            let same = |i: int| i;
            assert forall|k: int| 0 <= k < self.links@.len() && (#[trigger] self.links@[k]).parent != parent implies exists|
                j: int,
            |
                0 <= j < before.links@.len() && before.links@[j].parent != parent && #[trigger] same(j) == k by {
                assert(same(k) == k);
            }
            lemma_same_links(&before, self, parent, same);
        }
    }

    /// Follows `path` from `root` by walking the hierarchy.
    pub fn locate(&self, root: ObjectId, path: &TargetPath) -> (r: Resolution)
        ensures
            r == self.locate_spec(root, path@),
    {
        let n: usize = path.parts.len();
        let mut current: ObjectId = root;
        let mut chose: bool = false;
        let mut k: usize = 0;
        assert(path@.skip(0) =~= path@);
        while k < n
            invariant
                n == path.parts@.len(),
                k <= n,
                self.locate_spec(root, path@) == if chose {
                    self.locate_spec(current, path@.skip(k as int)).marked()
                } else {
                    self.locate_spec(current, path@.skip(k as int))
                },
            decreases n - k,
        {
            proof {
                let rest = path@.skip(k as int);
                assert(rest.drop_first() =~= path@.skip(k + 1));
            }
            match self.find_child(current, &path.parts[k]) {
                None => {
                    return Resolution::Missing;
                },
                Some((child, several)) => {
                    current = child;
                    chose = chose || several;
                },
            }
            k += 1;
        }
        if chose {
            Resolution::Ambiguous(current)
        } else {
            Resolution::Found(current)
        }
    }
}

/// Where some link leads from `parent` to a child called `name`, one of
/// them is the first.
pub proof fn lemma_least_link(hierarchy: &Hierarchy, i: int, parent: ObjectId, name: Seq<char>)
    requires
        hierarchy.is_link(i, parent, name),
    ensures
        exists|j: int| hierarchy.is_first_link(j, parent, name),
    decreases i,
{
    if exists|j: int| 0 <= j < i && hierarchy.is_link(j, parent, name) {
        let j = choose|j: int| 0 <= j < i && hierarchy.is_link(j, parent, name);
        lemma_least_link(hierarchy, j, parent, name);
    } else {
        assert(hierarchy.is_first_link(i, parent, name));
    }
}

/// Two hierarchies whose links from every object but `parent` are the same
/// and stand in the same order give those objects the same children. The
/// map `place` takes the index of such a link in `a` to its index in `b`.
pub proof fn lemma_same_links(a: &Hierarchy, b: &Hierarchy, parent: ObjectId, place: spec_fn(int) -> int)
    requires
        forall|i: int|
            0 <= i < a.links@.len() && (#[trigger] a.links@[i]).parent != parent ==> 0 <= place(i)
                < b.links@.len() && same_link(a.links@[i], b.links@[place(i)]),
        forall|i: int, j: int|
            0 <= i < j < a.links@.len() && (#[trigger] a.links@[i]).parent != parent && (
            #[trigger] a.links@[j]).parent != parent ==> place(i) < place(j),
        forall|k: int|
            0 <= k < b.links@.len() && (#[trigger] b.links@[k]).parent != parent ==> exists|i: int|
                0 <= i < a.links@.len() && a.links@[i].parent != parent && #[trigger] place(i) == k,
    ensures
        a.same_but_under(b, parent),
{
    assert forall|o: ObjectId, name: Seq<char>| o != parent implies #[trigger] a.child_named(o, name)
        == b.child_named(o, name) by {
        if exists|i: int| a.is_first_link(i, o, name) {
            let i = choose|i: int| a.is_first_link(i, o, name);
            let k = place(i);
            assert forall|l: int| 0 <= l < k implies !b.is_link(l, o, name) by {
                if b.is_link(l, o, name) {
                    let j = choose|j: int|
                        0 <= j < a.links@.len() && a.links@[j].parent != parent && #[trigger] place(j) == l;
                    assert(a.is_link(j, o, name));
                }
            }
            b.lemma_first_link_unique(k, o, name);
        } else {
            if exists|k: int| b.is_first_link(k, o, name) {
                let k = choose|k: int| b.is_first_link(k, o, name);
                let j = choose|j: int|
                    0 <= j < a.links@.len() && a.links@[j].parent != parent && #[trigger] place(j) == k;
                lemma_least_link(a, j, o, name);
            }
        }
    }
    assert forall|o: ObjectId, name: Seq<char>| o != parent implies #[trigger] a.several_named(o, name)
        == b.several_named(o, name) by {
        if a.several_named(o, name) {
            let (i, j) = choose|i: int, j: int| i != j && a.is_link(i, o, name) && a.is_link(j, o, name);
            assert(b.is_link(place(i), o, name) && b.is_link(place(j), o, name));
        }
        if b.several_named(o, name) {
            let (k, l) = choose|k: int, l: int| k != l && b.is_link(k, o, name) && b.is_link(l, o, name);
            let i = choose|i: int|
                0 <= i < a.links@.len() && a.links@[i].parent != parent && #[trigger] place(i) == k;
            let j = choose|j: int|
                0 <= j < a.links@.len() && a.links@[j].parent != parent && #[trigger] place(j) == l;
            assert(i != j && a.is_link(i, o, name) && a.is_link(j, o, name));
        }
    }
}

} // verus!
