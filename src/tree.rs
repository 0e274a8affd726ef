//! The path index: a tree with one node for each segment prefix of the
//! repository names inserted into it.
use vstd::prelude::*;

use crate::order::{lemma_lex_total, lex_lt, sort_ascending, str_eq, strictly_sorted, views};
use crate::path::{is_prefix, prefixes, segments, split_segments};
use vstd::seq_lib::to_multiset_contains;

verus! {

/// One node of the index; its children are keyed by segment name.
pub struct Node {
    pub children: Vec<(String, Node)>,
}

/// The whole index; its root stands for the empty path.
pub struct Tree {
    pub node: Box<Node>,
}

/// A non-empty prefix of `q` starts with `q`'s first segment and goes on
/// with a prefix of the rest.
pub proof fn lemma_is_prefix_step(p: Seq<Seq<char>>, q: Seq<Seq<char>>)
    requires
        p.len() > 0,
    ensures
        is_prefix(p, q) <==> (q.len() > 0 && p[0] == q[0] && is_prefix(
            p.drop_first(),
            q.drop_first(),
        )),
{
    if is_prefix(p, q) {
        assert(q.take(p.len() as int)[0] == q[0]);
        assert(q.drop_first().take(p.len() - 1) =~= p.drop_first());
    }
    if q.len() > 0 && p[0] == q[0] && is_prefix(p.drop_first(), q.drop_first()) {
        assert forall|k: int| 0 <= k < p.len() implies #[trigger] q.take(p.len() as int)[k] == p[k] by {
            if k > 0 {
                assert(q.drop_first().take(p.len() - 1)[k - 1] == p.drop_first()[k - 1]);
            }
        }
        assert(q.take(p.len() as int) =~= p);
    }
}

impl Node {
    /// The names of the children, in storage order.
    pub open spec fn names(self) -> Seq<Seq<char>> {
        self.children@.map_values(|c: (String, Node)| c.0@)
    }

    /// Child names are unique at this node and at every node below it.
    pub open spec fn wf(self) -> bool
        decreases self,
    {
        &&& self.names().no_duplicates()
        &&& forall|i: int|
            0 <= i < self.children@.len() ==> (#[trigger] self.children@[i]).1.wf()
    }

    /// The position of the child named `name`.
    pub open spec fn child_index(self, name: Seq<char>) -> int {
        choose|i: int| 0 <= i < self.children@.len() && self.children@[i].0@ == name
    }

    /// The child named `name`, when there is one.
    pub open spec fn child(self, name: Seq<char>) -> Node {
        self.children@[self.child_index(name)].1
    }

    /// The node reached by walking `path` down from this node.
    pub open spec fn reach(self, path: Seq<Seq<char>>) -> Option<Node>
        decreases path.len(),
    {
        if path.len() == 0 {
            Some(self)
        } else if self.names().contains(path[0]) {
            self.child(path[0]).reach(path.drop_first())
        } else {
            None
        }
    }

    /// With unique names, the child named `name` is the one at `i`.
    pub proof fn lemma_child_index(self, i: int, name: Seq<char>)
        requires
            self.names().no_duplicates(),
            0 <= i < self.children@.len(),
            self.children@[i].0@ == name,
        ensures
            self.child_index(name) == i,
            self.names().contains(name),
            self.child(name) == self.children@[i].1,
    {
        assert(self.names()[i] == name);
        let k = self.child_index(name);
        assert(self.names()[k] == name);
    }

    /// An empty node.
    pub fn new() -> (r: Node)
        ensures
            r.children@.len() == 0,
            r.wf(),
    {
        Node { children: Vec::new() }
    }

    /// Puts an empty node under `name`, in place of the child of that name if
    /// there is one.
    pub fn insert(&mut self, name: &str)
        requires
            old(self).wf(),
        ensures
            final(self).wf(),
            final(self).names().contains(name@),
            final(self).child(name@).children@.len() == 0,
            forall|h: Seq<char>|
                h != name@ ==> (#[trigger] final(self).names().contains(h) == old(
                    self,
                ).names().contains(h)),
            forall|h: Seq<char>|
                h != name@ && old(self).names().contains(h) ==> #[trigger] final(self).child(h)
                    == old(self).child(h),
    {
        let ghost before = *self;
        let fresh = Node::new();
        match self.find_child(name) {
            Some(j) => {
                self.children.set(j, (String::from_str(name), fresh));
                proof {
                    assert(self.names() =~= before.names());
                    self.lemma_child_index(j as int, name@);
                    assert forall|h: Seq<char>|
                        h != name@ && before.names().contains(h) implies #[trigger] self.child(h)
                        == before.child(h) by {
                        let k = before.child_index(h);
                        before.lemma_child_index(k, h);
                        self.lemma_child_index(k, h);
                    }
                }
            },
            None => {
                self.children.push((String::from_str(name), fresh));
                proof {
                    assert(self.names() =~= before.names().push(name@));
                    let n = self.children@.len() - 1;
                    assert forall|a: int, b: int|
                        0 <= a < b < self.names().len() implies self.names()[a]
                        != self.names()[b] by {
                        if b == n {
                            assert(before.names()[a] == self.names()[a]);
                        }
                    }
                    self.lemma_child_index(n, name@);
                    assert forall|h: Seq<char>|
                        h != name@ && before.names().contains(h) implies #[trigger] self.child(h)
                        == before.child(h) by {
                        let k = before.child_index(h);
                        before.lemma_child_index(k, h);
                        self.lemma_child_index(k, h);
                    }
                    assert forall|h: Seq<char>| h != name@ implies (
                    #[trigger] self.names().contains(h) == before.names().contains(h)) by {
                        if self.names().contains(h) {
                            let k = choose|k: int| 0 <= k < self.names().len() && self.names()[k] == h;
                            assert(before.names()[k] == h);
                        }
                        if before.names().contains(h) {
                            let k = choose|k: int| 0 <= k < before.names().len() && before.names()[k] == h;
                            assert(self.names()[k] == h);
                        }
                    }
                }
            },
        }
    }

    /// Adds the path `segs[from..]` below this node, creating the nodes
    /// that are missing.
    fn add_segments(&mut self, segs: &Vec<String>, from: usize)
        requires
            old(self).wf(),
            from <= segs@.len(),
        ensures
            final(self).wf(),
            forall|p: Seq<Seq<char>>|
                (#[trigger] final(self).reach(p)) is Some <==> (old(self).reach(p) is Some
                    || is_prefix(p, views(segs@).skip(from as int))),
        decreases segs@.len() - from,
    {
        let ghost start = *self;
        let ghost rest_segs = views(segs@).skip(from as int);
        if from == segs.len() {
            proof {
                assert forall|p: Seq<Seq<char>>|
                    is_prefix(p, rest_segs) implies #[trigger] start.reach(p) is Some by {
                    assert(p.len() == 0);
                }
            }
            return;
        }
        let name = segs[from].as_str();
        let j = match self.find_child(name) {
            Some(j) => j,
            None => {
                self.insert(name);
                self.find_child(name).unwrap()
            },
        };
        let ghost mid = *self;
        proof {
            mid.lemma_child_index(j as int, name@);
        }
        let (key, mut child) = self.children.remove(j);
        let ghost child0 = child;
        assert(child0 == mid.child(name@));
        child.add_segments(segs, from + 1);
        self.children.insert(j, (key, child));
        proof {
            let fin = *self;
            assert(fin.children@ =~= mid.children@.update(j as int, (key, child)));
            assert(fin.names() =~= mid.names());
            fin.lemma_child_index(j as int, name@);
            assert(rest_segs[0] == name@);
            assert(rest_segs.drop_first() =~= views(segs@).skip(from + 1));
            assert forall|p: Seq<Seq<char>>|
                (#[trigger] fin.reach(p)) is Some <==> (start.reach(p) is Some || is_prefix(
                    p,
                    rest_segs,
                )) by {
                if p.len() > 0 {
                    let h = p[0];
                    lemma_is_prefix_step(p, rest_segs);
                    if h != name@ {
                        assert(!is_prefix(p, rest_segs));
                        assert(fin.names().contains(h) == start.names().contains(h));
                        if mid.names().contains(h) {
                            let k = mid.child_index(h);
                            mid.lemma_child_index(k, h);
                            fin.lemma_child_index(k, h);
                            assert(fin.child(h) == start.child(h));
                        }
                        assert(fin.reach(p) == start.reach(p));
                    } else {
                        let r = p.drop_first();
                        assert(fin.reach(p) == child.reach(r));
                        assert(is_prefix(p, rest_segs) == is_prefix(r, views(segs@).skip(from + 1)));
                        if !start.names().contains(name@) {
                            if r.len() > 0 {
                                assert(!mid.child(name@).names().contains(r[0]));
                            }
                            assert(start.reach(p) is None);
                            assert(child0.reach(r) is Some <==> r.len() == 0);
                            if r.len() == 0 {
                                assert(views(segs@).skip(from + 1).take(0) =~= r);
                            }
                        } else {
                            assert(mid == start);
                            assert(start.reach(p) == child0.reach(r));
                        }
                    }
                }
            }
        }
    }

    /// The names of the children, in ascending order.
    pub fn sorted_childrens(&self) -> (r: Vec<String>)
        requires
            self.wf(),
        ensures
            strictly_sorted(views(r@)),
            views(r@).no_duplicates(),
            views(r@).to_set() == self.names().to_set(),
    {
        let mut dirs: Vec<String> = Vec::new();
        let mut i: usize = 0;
        while i < self.children.len()
            invariant
                i <= self.children@.len(),
                views(dirs@) == self.names().take(i as int),
            decreases self.children@.len() - i,
        {
            let ghost before = dirs@;
            dirs.push(self.children[i].0.clone());
            assert(views(dirs@) =~= views(before).push(self.children@[i as int].0@));
            assert(self.names().take(i + 1) =~= self.names().take(i as int).push(self.names()[i as int]));
            i = i + 1;
        }
        assert(self.names().take(i as int) =~= self.names());
        let ghost names = views(dirs@);
        let r = sort_ascending(dirs);
        proof {
            let s = views(r@);
            names.lemma_multiset_has_no_duplicates();
            s.lemma_multiset_has_no_duplicates_conv();
            assert forall|a: int, b: int| 0 <= a < b < s.len() implies lex_lt(
                #[trigger] s[a],
                #[trigger] s[b],
            ) by {
                lemma_lex_total(s[a], s[b]);
            }
            assert forall|x: Seq<char>| s.contains(x) <==> names.contains(x) by {
                to_multiset_contains(s, x);
                to_multiset_contains(names, x);
            }
            assert(s.to_set() =~= names.to_set());
        }
        r
    }

    /// The position of the child named `name`.
    fn find_child(&self, name: &str) -> (r: Option<usize>)
        ensures
            r matches Some(j) ==> j < self.children@.len() && self.children@[j as int].0@ == name@,
            r is None ==> !self.names().contains(name@),
    {
        let mut j: usize = 0;
        while j < self.children.len()
            invariant
                j <= self.children@.len(),
                forall|k: int| 0 <= k < j ==> self.children@[k].0@ != name@,
            decreases self.children@.len() - j,
        {
            if str_eq(self.children[j].0.as_str(), name) {
                return Some(j);
            }
            j = j + 1;
        }
        proof {
            if self.names().contains(name@) {
                let k = choose|k: int| 0 <= k < self.names().len() && self.names()[k] == name@;
                assert(self.children@[k].0@ == name@);
            }
        }
        None
    }
}

/// Walking one more segment goes to the child of that name, if any.
pub proof fn lemma_reach_push(n: Node, p: Seq<Seq<char>>, s: Seq<char>)
    ensures
        n.reach(p.push(s)) == (match n.reach(p) {
            Some(m) => if m.names().contains(s) {
                Some(m.child(s))
            } else {
                None
            },
            None => None,
        }),
    decreases p.len(),
{
    let q = p.push(s);
    if p.len() == 0 {
        assert(q.drop_first() =~= Seq::<Seq<char>>::empty());
        assert(q[0] == s);
        if n.names().contains(s) {
            assert(n.child(s).reach(q.drop_first()) == Some(n.child(s)));
        }
    } else {
        assert(q.drop_first() =~= p.drop_first().push(s));
        assert(q[0] == p[0]);
        if n.names().contains(p[0]) {
            lemma_reach_push(n.child(p[0]), p.drop_first(), s);
        }
    }
}

/// A prefix of a reachable path is reachable.
pub proof fn lemma_reach_prefix(n: Node, p: Seq<Seq<char>>, q: Seq<Seq<char>>)
    requires
        is_prefix(p, q),
        n.reach(q) is Some,
    ensures
        n.reach(p) is Some,
    decreases p.len(),
{
    if p.len() > 0 {
        lemma_is_prefix_step(p, q);
        lemma_reach_prefix(n.child(q[0]), p.drop_first(), q.drop_first());
    }
}

/// Every node below a well-formed node is well-formed.
pub proof fn lemma_reach_wf(n: Node, p: Seq<Seq<char>>)
    requires
        n.wf(),
        n.reach(p) is Some,
    ensures
        n.reach(p).unwrap().wf(),
    decreases p.len(),
{
    if p.len() > 0 {
        let k = n.child_index(p[0]);
        n.lemma_child_index(k, p[0]);
        lemma_reach_wf(n.child(p[0]), p.drop_first());
    }
}

/// The paths that an index built from `names` holds: the root, and every
/// leading part of the segments of each name.
pub open spec fn indexed_paths(names: Seq<Seq<char>>) -> Set<Seq<Seq<char>>> {
    Set::new(
        |p: Seq<Seq<char>>|
            p.len() == 0 || exists|i: int|
                0 <= i < names.len() && #[trigger] is_prefix(p, segments(names[i])),
    )
}

/// Adding one more name adds the leading parts of its segments.
pub proof fn lemma_indexed_paths_push(names: Seq<Seq<char>>, n: Seq<char>)
    ensures
        indexed_paths(names.push(n)) == indexed_paths(names).union(prefixes(segments(n))),
{
    let all = names.push(n);
    assert forall|p: Seq<Seq<char>>|
        indexed_paths(all).contains(p) <==> indexed_paths(names).union(prefixes(segments(n))).contains(p) by {
        if p.len() > 0 {
            if exists|i: int| 0 <= i < all.len() && #[trigger] is_prefix(p, segments(all[i])) {
                let i = choose|i: int| 0 <= i < all.len() && #[trigger] is_prefix(p, segments(all[i]));
                if i < names.len() {
                    assert(all[i] == names[i]);
                }
            }
            if exists|i: int| 0 <= i < names.len() && #[trigger] is_prefix(p, segments(names[i])) {
                let i = choose|i: int| 0 <= i < names.len() && #[trigger] is_prefix(p, segments(names[i]));
                assert(all[i] == names[i]);
            }
            if is_prefix(p, segments(n)) {
                assert(all[names.len() as int] == n);
            }
        }
    }
    assert(indexed_paths(all) =~= indexed_paths(names).union(prefixes(segments(n))));
}

/// Every non-empty leading part of the segments of each name put into the
/// index is a path of it, and is found by a lookup.
pub proof fn lemma_inserted_prefix_reachable(names: Seq<Seq<char>>, i: int, k: int)
    requires
        0 <= i < names.len(),
        0 < k <= segments(names[i]).len(),
    ensures
        indexed_paths(names).contains(segments(names[i]).take(k)),
{
    assert(is_prefix(segments(names[i]).take(k), segments(names[i])));
}

/// A path with segments that is a leading part of no name put into the index
/// is not a path of it, and a lookup of it finds nothing.
pub proof fn lemma_unrelated_path_absent(names: Seq<Seq<char>>, q: Seq<char>)
    requires
        segments(q).len() > 0,
        forall|i: int| 0 <= i < names.len() ==> !is_prefix(segments(q), #[trigger] segments(names[i])),
    ensures
        !indexed_paths(names).contains(segments(q)),
{
}

impl View for Tree {
    type V = Set<Seq<Seq<char>>>;

    /// The segment paths that lead to a node, the empty one included.
    open spec fn view(&self) -> Set<Seq<Seq<char>>> {
        Set::new(|p: Seq<Seq<char>>| self.node.reach(p) is Some)
    }
}

impl Default for Tree {
    /// An index with the root alone.
    fn default() -> (r: Tree)
        ensures
            r.wf(),
            r@ == set![Seq::<Seq<char>>::empty()],
    {
        Tree::new()
    }
}

impl Tree {
    /// Names are unique among the children of every node.
    pub open spec fn wf(&self) -> bool {
        self.node.wf()
    }

    /// The names under the node at `p`.
    pub open spec fn children_at(&self, p: Seq<Seq<char>>) -> Set<Seq<char>> {
        Set::new(|s: Seq<char>| self@.contains(p.push(s)))
    }

    /// An index with the root alone.
    pub fn new() -> (r: Tree)
        ensures
            r.wf(),
            r@ == set![Seq::<Seq<char>>::empty()],
    {
        let r = Tree { node: Box::new(Node::new()) };
        proof {
            assert forall|p: Seq<Seq<char>>| r@.contains(p) <==> p == Seq::<Seq<char>>::empty() by {
                if p.len() == 0 {
                    assert(p =~= Seq::<Seq<char>>::empty());
                }
            }
            assert(r@ =~= set![Seq::<Seq<char>>::empty()]);
        }
        r
    }

    /// The node at `path`, walked segment by segment.
    pub fn get_path(&self, path: &str) -> (r: Option<&Node>)
        requires
            self.wf(),
        ensures
            r is Some <==> self@.contains(segments(path@)),
            r matches Some(n) ==> {
                &&& self.node.reach(segments(path@)) == Some(*n)
                &&& n.wf()
                &&& n.names().to_set() == self.children_at(segments(path@))
            },
    {
        let segs = split_segments(path);
        let ghost all = views(segs@);
        let mut node: &Node = &self.node;
        let mut i: usize = 0;
        assert(all.take(0) =~= Seq::<Seq<char>>::empty());
        while i < segs.len()
            invariant
                i <= segs@.len(),
                all == views(segs@),
                all == segments(path@),
                self.node.reach(all.take(i as int)) == Some(*node),
                self.wf(),
            decreases segs@.len() - i,
        {
            proof {
                lemma_reach_push(*self.node, all.take(i as int), all[i as int]);
                assert(all.take(i + 1) =~= all.take(i as int).push(all[i as int]));
            }
            match node.find_child(segs[i].as_str()) {
                None => {
                    proof {
                        if self.node.reach(all) is Some {
                            lemma_reach_prefix(*self.node, all.take(i + 1), all);
                        }
                    }
                    return None;
                },
                Some(j) => {
                    proof {
                        lemma_reach_wf(*self.node, all.take(i as int));
                        node.lemma_child_index(j as int, all[i as int]);
                    }
                    node = &node.children[j].1;
                },
            }
            i = i + 1;
        }
        proof {
            assert(all.take(i as int) =~= all);
            lemma_reach_wf(*self.node, all);
            assert forall|s: Seq<char>| node.names().contains(s) <==> self.children_at(all).contains(s) by {
                lemma_reach_push(*self.node, all, s);
            }
            assert(node.names().to_set() =~= self.children_at(all));
        }
        Some(node)
    }

    /// Adds `path` and every leading part of it.
    pub fn add_path(&mut self, path: &str)
        requires
            old(self).wf(),
        ensures
            final(self).wf(),
            final(self)@ == old(self)@.union(prefixes(segments(path@))),
    {
        let segs = split_segments(path);
        let ghost before = *self;
        self.node.add_segments(&segs, 0);
        proof {
            assert(views(segs@).skip(0) =~= views(segs@));
            assert(self@ =~= before@.union(prefixes(segments(path@))));
        }
    }
}

} // verus!
