use vstd::prelude::*;

use crate::node::{Node, TagStatus};

verus! {

/// The identifiers held by a sequence of nodes.
pub open spec fn ids_of(v: Seq<Node>) -> Set<Seq<char>> {
    Set::new(|id: Seq<char>| exists|i: int| 0 <= i < v.len() && v[i]@ == id)
}

/// No identifier occurs twice in the sequence.
pub open spec fn distinct_ids(v: Seq<Node>) -> bool {
    forall|i: int, j: int| 0 <= i < v.len() && 0 <= j < v.len() && i != j ==> v[i]@ != v[j]@
}

/// The abstract membership state: two disjoint sets of identifiers and the
/// shown/hidden flag of the tagged group.
pub struct StateView {
    pub tagged: Set<Seq<char>>,
    pub untagged: Set<Seq<char>>,
    pub tag_shown: bool,
}

impl StateView {
    /// No identifier is both tagged and untagged.
    pub open spec fn disjoint(self) -> bool {
        self.tagged.disjoint(self.untagged)
    }

    /// The identifier is in one of the two sets.
    pub open spec fn tracks(self, id: Seq<char>) -> bool {
        self.tagged.contains(id) || self.untagged.contains(id)
    }
}

/// The position of `id` in `v`, if it is there.
fn find(v: &Vec<Node>, id: &Node) -> (r: Option<usize>)
    ensures
        match r {
            Some(i) => i < v@.len() && v@[i as int]@ == id@,
            None => !ids_of(v@).contains(id@),
        },
{
    let mut i: usize = 0;
    while i < v.len()
        invariant
            i <= v@.len(),
            forall|k: int| 0 <= k < i ==> v@[k]@ != id@,
        decreases v@.len() - i,
    {
        if v[i].same_as(id) {
            return Some(i);
        }
        i = i + 1;
    }
    None
}

/// Takes `id` out of `v`, if it is there.
fn remove_id(v: &mut Vec<Node>, id: &Node)
    requires
        distinct_ids(old(v)@),
    ensures
        distinct_ids(final(v)@),
        ids_of(final(v)@) == ids_of(old(v)@).remove(id@),
{
    match find(v, id) {
        Some(i) => {
            let ghost before = v@;
            v.remove(i);
            assert(ids_of(v@) =~= ids_of(before).remove(id@)) by {
                assert forall|x: Seq<char>| ids_of(before).remove(id@).contains(x) implies ids_of(
                    v@,
                ).contains(x) by {
                    let k = choose|k: int| 0 <= k < before.len() && before[k]@ == x;
                    if k < i {
                        assert(v@[k]@ == x);
                    } else {
                        assert(k != i);
                        assert(v@[k - 1]@ == x);
                    }
                }
                assert forall|x: Seq<char>| ids_of(v@).contains(x) implies ids_of(
                    before,
                ).remove(id@).contains(x) by {
                    let k = choose|k: int| 0 <= k < v@.len() && v@[k]@ == x;
                    if k < i {
                        assert(before[k]@ == x);
                    } else {
                        assert(before[k + 1]@ == x);
                    }
                }
            }
        },
        None => {
            assert(ids_of(v@) =~= ids_of(v@).remove(id@));
        },
    }
}

/// Puts `id` into `v`, unless it is there already.
fn insert_id(v: &mut Vec<Node>, id: Node)
    requires
        distinct_ids(old(v)@),
    ensures
        distinct_ids(final(v)@),
        ids_of(final(v)@) == ids_of(old(v)@).insert(id@),
{
    match find(v, &id) {
        Some(i) => {
            assert(ids_of(v@) =~= ids_of(v@).insert(id@));
        },
        None => {
            let ghost before = v@;
            v.push(id);
            assert(ids_of(v@) =~= ids_of(before).insert(v@.last()@)) by {
                assert forall|x: Seq<char>| ids_of(before).contains(x) implies ids_of(
                    v@,
                ).contains(x) by {
                    let k = choose|k: int| 0 <= k < before.len() && before[k]@ == x;
                    assert(v@[k]@ == x);
                }
                assert(v@[before.len() as int]@ == v@.last()@);
            }
        },
    }
}

/// Two sequences with the same identifiers position by position hold the same
/// set of identifiers, and one is free of repeats when the other is.
proof fn lemma_copy_same_ids(v: Seq<Node>, w: Seq<Node>)
    requires
        v.len() == w.len(),
        forall|i: int| 0 <= i < v.len() ==> w[i]@ == v[i]@,
    ensures
        ids_of(w) == ids_of(v),
        distinct_ids(v) ==> distinct_ids(w),
{
    assert forall|x: Seq<char>| ids_of(w).contains(x) implies ids_of(v).contains(x) by {
        let k = choose|k: int| 0 <= k < w.len() && w[k]@ == x;
        assert(v[k]@ == x);
    }
    assert forall|x: Seq<char>| ids_of(v).contains(x) implies ids_of(w).contains(x) by {
        let k = choose|k: int| 0 <= k < v.len() && v[k]@ == x;
        assert(w[k]@ == x);
    }
    assert(ids_of(w) =~= ids_of(v));
}

/// Copies of the nodes of `v`, in the same order.
fn copy_all(v: &Vec<Node>) -> (r: Vec<Node>)
    ensures
        r@.len() == v@.len(),
        forall|i: int| 0 <= i < v@.len() ==> r@[i]@ == v@[i]@,
{
    let mut r: Vec<Node> = Vec::new();
    let mut i: usize = 0;
    while i < v.len()
        invariant
            i <= v@.len(),
            r@.len() == i,
            forall|k: int| 0 <= k < i ==> r@[k]@ == v@[k]@,
        decreases v@.len() - i,
    {
        r.push(v[i].duplicate());
        i = i + 1;
    }
    r
}

/// Membership of windows in the tagged and untagged sets, and whether the
/// tagged group is currently shown.
#[derive(Debug)]
pub struct State {
    tagged_nodes: Vec<Node>,
    untagged_nodes: Vec<Node>,
    tag_shown: bool,
}

impl View for State {
    type V = StateView;

    closed spec fn view(&self) -> StateView {
        StateView {
            tagged: ids_of(self.tagged_nodes@),
            untagged: ids_of(self.untagged_nodes@),
            tag_shown: self.tag_shown,
        }
    }
}

impl State {
    /// Each list holds an identifier at most once, and no identifier is in both.
    #[verifier::type_invariant]
    spec fn well_formed(&self) -> bool {
        &&& distinct_ids(self.tagged_nodes@)
        &&& distinct_ids(self.untagged_nodes@)
        &&& ids_of(self.tagged_nodes@).disjoint(ids_of(self.untagged_nodes@))
    }

    /// An empty state with the tagged group shown.
    pub fn new() -> (r: Self)
        ensures
            r@.tagged == Set::<Seq<char>>::empty(),
            r@.untagged == Set::<Seq<char>>::empty(),
            r@.tag_shown,
            r@.disjoint(),
    {
        let r = Self { tagged_nodes: Vec::new(), untagged_nodes: Vec::new(), tag_shown: true };
        assert(ids_of(r.tagged_nodes@) =~= Set::<Seq<char>>::empty());
        assert(ids_of(r.untagged_nodes@) =~= Set::<Seq<char>>::empty());
        r
    }
    /// Records a new window as untagged; a window already tracked keeps its set.
    pub fn add_node(&mut self, node: Node)
        ensures
            final(self)@.tagged == old(self)@.tagged,
            final(self)@.untagged == (if old(self)@.tagged.contains(node@) {
                old(self)@.untagged
            } else {
                old(self)@.untagged.insert(node@)
            }),
            final(self)@.tag_shown == old(self)@.tag_shown,
            final(self)@.disjoint(),
    {
        proof {
            use_type_invariant(&*self);
        }
        if find(&self.tagged_nodes, &node).is_none() {
            let mut untagged: Vec<Node> = Vec::new();
            std::mem::swap(&mut untagged, &mut self.untagged_nodes);
            insert_id(&mut untagged, node);
            std::mem::swap(&mut untagged, &mut self.untagged_nodes);
        }
        proof {
            use_type_invariant(&*self);
        }
    }

    /// Forgets a window: it leaves both sets.
    pub fn remove_node(&mut self, node: &Node)
        ensures
            final(self)@.tagged == old(self)@.tagged.remove(node@),
            final(self)@.untagged == old(self)@.untagged.remove(node@),
            final(self)@.tag_shown == old(self)@.tag_shown,
            final(self)@.disjoint(),
    {
        proof {
            use_type_invariant(&*self);
        }
        let mut tagged: Vec<Node> = Vec::new();
        let mut untagged: Vec<Node> = Vec::new();
        std::mem::swap(&mut tagged, &mut self.tagged_nodes);
        std::mem::swap(&mut untagged, &mut self.untagged_nodes);
        remove_id(&mut tagged, node);
        remove_id(&mut untagged, node);
        std::mem::swap(&mut tagged, &mut self.tagged_nodes);
        std::mem::swap(&mut untagged, &mut self.untagged_nodes);
        proof {
            use_type_invariant(&*self);
        }
    }

    /// Moves a window between the sets: a tagged one becomes untagged, any
    /// other one (untagged or not tracked at all) becomes tagged.
    pub fn toggle_tag(&mut self, node: Node) -> (r: TagStatus)
        ensures
            old(self)@.tagged.contains(node@) ==> {
                &&& r == TagStatus::Untagged
                &&& final(self)@.tagged == old(self)@.tagged.remove(node@)
                &&& final(self)@.untagged == old(self)@.untagged.insert(node@)
            },
            !old(self)@.tagged.contains(node@) ==> {
                &&& r == TagStatus::Tagged
                &&& final(self)@.tagged == old(self)@.tagged.insert(node@)
                &&& final(self)@.untagged == old(self)@.untagged.remove(node@)
            },
            final(self)@.tag_shown == old(self)@.tag_shown,
            final(self)@.disjoint(),
    {
        proof {
            use_type_invariant(&*self);
        }
        let mut tagged: Vec<Node> = Vec::new();
        let mut untagged: Vec<Node> = Vec::new();
        std::mem::swap(&mut tagged, &mut self.tagged_nodes);
        std::mem::swap(&mut untagged, &mut self.untagged_nodes);
        let r = if find(&tagged, &node).is_some() {
            remove_id(&mut tagged, &node);
            insert_id(&mut untagged, node);
            TagStatus::Untagged
        } else {
            remove_id(&mut untagged, &node);
            insert_id(&mut tagged, node);
            TagStatus::Tagged
        };
        std::mem::swap(&mut tagged, &mut self.tagged_nodes);
        std::mem::swap(&mut untagged, &mut self.untagged_nodes);
        proof {
            use_type_invariant(&*self);
        }
        r
    }

    /// Whether the tagged group is currently shown.
    pub fn is_tag_shown(&self) -> (r: bool)
        ensures
            r == self@.tag_shown,
    {
        self.tag_shown
    }

    /// Flips the shown/hidden flag of the tagged group and returns every
    /// tagged window once, in no particular order.
    pub fn toggle_tag_visibility(&mut self) -> (r: Vec<Node>)
        ensures
            final(self)@.tag_shown == !old(self)@.tag_shown,
            final(self)@.tagged == old(self)@.tagged,
            final(self)@.untagged == old(self)@.untagged,
            ids_of(r@) == old(self)@.tagged,
            distinct_ids(r@),
            final(self)@.disjoint(),
    {
        proof {
            use_type_invariant(&*self);
        }
        self.tag_shown = !self.tag_shown;
        let r = copy_all(&self.tagged_nodes);
        proof {
            lemma_copy_same_ids(self.tagged_nodes@, r@);
        }
        r
    }
    /// The set a window is in, or `None` where it is not tracked.
    pub fn tag_status(&self, node: &Node) -> (r: Option<TagStatus>)
        ensures
            r == (if self@.tagged.contains(node@) {
                Some(TagStatus::Tagged)
            } else if self@.untagged.contains(node@) {
                Some(TagStatus::Untagged)
            } else {
                None
            }),
    {
        if find(&self.tagged_nodes, node).is_some() {
            Some(TagStatus::Tagged)
        } else if find(&self.untagged_nodes, node).is_some() {
            Some(TagStatus::Untagged)
        } else {
            None
        }
    }

    /// Every tagged window once, in no particular order.
    pub fn tagged_nodes(&self) -> (r: Vec<Node>)
        ensures
            ids_of(r@) == self@.tagged,
            distinct_ids(r@),
    {
        proof {
            use_type_invariant(self);
        }
        let r = copy_all(&self.tagged_nodes);
        proof {
            lemma_copy_same_ids(self.tagged_nodes@, r@);
        }
        r
    }

    /// Every untagged window once, in no particular order.
    pub fn untagged_nodes(&self) -> (r: Vec<Node>)
        ensures
            ids_of(r@) == self@.untagged,
            distinct_ids(r@),
    {
        proof {
            use_type_invariant(self);
        }
        let r = copy_all(&self.untagged_nodes);
        proof {
            lemma_copy_same_ids(self.untagged_nodes@, r@);
        }
        r
    }
}

} // verus!
