//! The directory tree of a volume, built from MFT records as they are read.
use std::collections::HashMap;
use vstd::prelude::*;

verus! {

broadcast use vstd::std_specs::hash::group_hash_axioms;

/// A file or directory of the tree.
#[derive(Debug)]
pub struct NtfsNode {
    pub name: String,
    pub parent: Option<usize>,
    pub children: Vec<usize>,
    pub mft_record: usize,
}

/// The nodes of a tree, each named by its index.
#[derive(Debug)]
pub struct Arena {
    pub nodes: Vec<NtfsNode>,
}

/// Whether parent and child links agree: each link names a node, a node is among the children
/// of its parent, each child of a node has that node as parent, and no node is a child twice.
pub open spec fn consistent(nodes: Seq<NtfsNode>) -> bool {
    &&& forall|i: int|
        #![trigger nodes[i].parent]
        0 <= i < nodes.len() ==> match nodes[i].parent {
            Some(p) => p < nodes.len() && nodes[p as int].children@.contains(i as usize),
            None => true,
        }
    &&& forall|i: int, j: int|
        #![trigger nodes[i].children@[j]]
        0 <= i < nodes.len() && 0 <= j < nodes[i].children@.len() ==> {
            &&& nodes[i].children@[j] < nodes.len()
            &&& nodes[nodes[i].children@[j] as int].parent == Some(i as usize)
        }
    &&& forall|i: int| #![trigger nodes[i].children] 0 <= i < nodes.len() ==> nodes[i].children@.no_duplicates()
}

/// Whether `r` ranks the nodes below `b`, each above its parent.
pub open spec fn ranked(nodes: Seq<NtfsNode>, r: Seq<nat>, b: nat) -> bool {
    &&& r.len() == nodes.len()
    &&& forall|i: int| #![trigger r[i]] 0 <= i < nodes.len() ==> r[i] < b
    &&& forall|i: int|
        #![trigger nodes[i].parent]
        0 <= i < nodes.len() ==> match nodes[i].parent {
            Some(p) => r[p as int] < r[i],
            None => true,
        }
}

/// Whether the nodes form a forest: consistent links, and no node its own ancestor.
pub open spec fn is_forest(nodes: Seq<NtfsNode>) -> bool {
    &&& consistent(nodes)
    &&& exists|r: Seq<nat>, b: nat| ranked(nodes, r, b)
}

/// The node `k` steps up the parent links from `x`, if the chain is that long.
pub open spec fn ancestor(nodes: Seq<NtfsNode>, x: int, k: nat) -> Option<int>
    decreases k,
{
    if k == 0 {
        Some(x)
    } else {
        match nodes[x].parent {
            Some(p) => ancestor(nodes, p as int, (k - 1) as nat),
            None => None,
        }
    }
}

/// Whether `x` is `a` or lies below it.
pub open spec fn descends(nodes: Seq<NtfsNode>, a: int, x: int) -> bool {
    exists|k: nat| #[trigger] ancestor(nodes, x, k) == Some(a)
}

/// A node below `a` ranks no lower than `a`.
proof fn lemma_descends_rank(nodes: Seq<NtfsNode>, r: Seq<nat>, b: nat, a: int, x: int, k: nat)
    requires
        consistent(nodes),
        ranked(nodes, r, b),
        0 <= x < nodes.len(),
        ancestor(nodes, x, k) == Some(a),
    ensures
        0 <= a < nodes.len(),
        r[a] <= r[x],
        k > 0 ==> r[a] < r[x],
    decreases k,
{
    if k > 0 {
        let p = nodes[x].parent->0;
        assert(nodes[x].parent is Some);
        lemma_descends_rank(nodes, r, b, a, p as int, (k - 1) as nat);
    }
}

/// Once the search has taken every node it popped apart, every node below `a` has been popped.
proof fn lemma_closed_contains(
    nodes: Seq<NtfsNode>,
    popped: Set<int>,
    a: int,
    x: int,
    k: nat,
)
    requires
        consistent(nodes),
        nodes.len() <= usize::MAX,
        0 <= x < nodes.len(),
        popped.contains(a),
        forall|p: int, j: int|
            #![trigger popped.contains(p), nodes[p].children@[j]]
            popped.contains(p) && 0 <= j < nodes[p].children@.len() ==> popped.contains(
                nodes[p].children@[j] as int,
            ),
        ancestor(nodes, x, k) == Some(a),
    ensures
        popped.contains(x),
    decreases k,
{
    if k > 0 {
        let p = nodes[x].parent->0;
        assert(nodes[x].parent is Some);
        lemma_closed_contains(nodes, popped, a, p as int, (k - 1) as nat);
        assert(nodes[p as int].children@.contains(x as usize));
        let j = choose|j: int|
            0 <= j < nodes[p as int].children@.len() && nodes[p as int].children@[j] == x as usize;
        assert(popped.contains(nodes[p as int].children@[j] as int));
    }
}

/// Whether `after` is `before` with `c` made a child of `p` when `link`, and unchanged
/// otherwise: names and records stay, `c` takes `p` as parent and goes to the end of the
/// children of `p`.
pub open spec fn linked(before: Seq<NtfsNode>, after: Seq<NtfsNode>, p: int, c: int, link: bool) -> bool {
    &&& after.len() == before.len()
    &&& forall|i: int|
        #![trigger after[i]]
        0 <= i < after.len() ==> {
            &&& after[i].name == before[i].name
            &&& after[i].mft_record == before[i].mft_record
            &&& after[i].parent == if link && i == c {
                Some(p as usize)
            } else {
                before[i].parent
            }
            &&& after[i].children@ == if link && i == p {
                before[i].children@.push(c as usize)
            } else {
                before[i].children@
            }
        }
}

/// Linking a parent-less `c` under `p`, when `p` is not `c` nor below it, keeps a forest.
proof fn lemma_link_keeps_forest(before: Seq<NtfsNode>, after: Seq<NtfsNode>, p: int, c: int)
    requires
        is_forest(before),
        before.len() <= usize::MAX,
        0 <= p < before.len(),
        0 <= c < before.len(),
        before[c].parent is None,
        !descends(before, c, p),
        linked(before, after, p, c, true),
    ensures
        is_forest(after),
{
    let (r, b) = choose|r: Seq<nat>, b: nat| ranked(before, r, b);
    let shift = r[p] + 1;
    let r2 = Seq::new(
        before.len(),
        |i: int|
            if descends(before, c, i) {
                (r[i] + shift) as nat
            } else {
                r[i]
            },
    );
    assert(ancestor(before, c, 0) == Some(c));
    assert forall|i: int, j: int| 0 <= i < before.len() && 0 <= j < before[i].children@.len()
        implies before[i].children@[j] != c as usize by {
        assert(before[before[i].children@[j] as int].parent == Some(i as usize));
    }
    assert forall|i: int|
        #![trigger after[i].parent]
        0 <= i < after.len() implies match after[i].parent {
            Some(q) => q < after.len() && after[q as int].children@.contains(i as usize),
            None => true,
        } by {
        assert(after[i] == after[i]);
        if i == c {
            assert(after[p].children@ == before[p].children@.push(c as usize));
            assert(after[p].children@[before[p].children@.len() as int] == c as usize);
        } else if let Some(q) = after[i].parent {
            assert(before[i].parent == Some(q));
            assert(before[q as int].children@.contains(i as usize));
            let j = choose|j: int|
                0 <= j < before[q as int].children@.len() && before[q as int].children@[j]
                    == i as usize;
            assert(after[q as int] == after[q as int]);
            assert(after[q as int].children@[j] == i as usize);
        }
    }
    assert forall|i: int, j: int|
        #![trigger after[i].children@[j]]
        0 <= i < after.len() && 0 <= j < after[i].children@.len() implies {
        &&& after[i].children@[j] < after.len()
        &&& after[after[i].children@[j] as int].parent == Some(i as usize)
    } by {
        assert(after[i] == after[i]);
        if i == p && j == before[i].children@.len() {
            assert(after[i].children@[j] == c as usize);
            assert(after[c] == after[c]);
        } else {
            assert(after[i].children@[j] == before[i].children@[j]);
            let ch = before[i].children@[j] as int;
            assert(before[ch].parent == Some(i as usize));
            assert(ch != c);
            assert(after[ch] == after[ch]);
        }
    }
    assert forall|i: int| #![trigger after[i].children] 0 <= i < after.len() implies after[i].children@.no_duplicates() by {
        assert(after[i] == after[i]);
        assert(before[i].children@.no_duplicates());
    }
    assert forall|i: int| #![trigger r2[i]] 0 <= i < after.len() implies r2[i] < 2 * b + 1 by {
        assert(r[i] < b);
        assert(r[p] < b);
    }
    assert forall|i: int|
        #![trigger after[i].parent]
        0 <= i < after.len() implies match after[i].parent {
            Some(q) => r2[q as int] < r2[i],
            None => true,
        } by {
        assert(after[i] == after[i]);
        if i == c {
            assert(!descends(before, c, p));
        } else if let Some(q) = after[i].parent {
            assert(before[i].parent == Some(q));
            assert(r[q as int] < r[i]);
            if descends(before, c, i) {
                let k = choose|k: nat| ancestor(before, i, k) == Some(c);
                assert(k > 0);
                assert(ancestor(before, q as int, (k - 1) as nat) == Some(c));
            } else if descends(before, c, q as int) {
                let k = choose|k: nat| ancestor(before, q as int, k) == Some(c);
                assert(ancestor(before, i, k + 1) == Some(c));
            }
        }
    }
    assert(ranked(after, r2, 2 * b + 1));
}

impl Arena {
    /// An arena with no nodes.
    pub fn new() -> (arena: Self)
        ensures
            arena.nodes@ == Seq::<NtfsNode>::empty(),
    {
        Arena { nodes: Vec::new() }
    }

    /// Adds a node with no parent and no children, and gives its index.
    fn add_node(&mut self, name: &str, mft_record: usize) -> (node_id: usize)
        requires
            is_forest(old(self).nodes@),
        ensures
            node_id == old(self).nodes@.len(),
            is_forest(final(self).nodes@),
            final(self).nodes@.len() == old(self).nodes@.len() + 1,
            final(self).nodes@.take(node_id as int) == old(self).nodes@,
            final(self).nodes@[node_id as int].name@ == name@,
            final(self).nodes@[node_id as int].mft_record == mft_record,
            final(self).nodes@[node_id as int].parent is None,
            final(self).nodes@[node_id as int].children@ == Seq::<usize>::empty(),
    {
        let ghost old_nodes = self.nodes@;
        let node_id = self.nodes.len();
        self.nodes.push(
            NtfsNode {
                name: String::from_str(name),
                parent: None,
                children: Vec::new(),
                mft_record,
            },
        );
        proof {
            let nodes = self.nodes@;
            assert(nodes.take(node_id as int) =~= old_nodes);
            let (r, b) = choose|r: Seq<nat>, b: nat| ranked(old_nodes, r, b);
            let r2 = r.push(0);
            assert forall|i: int| #![trigger nodes[i].parent] 0 <= i < nodes.len() implies match nodes[i].parent {
                Some(p) => p < nodes.len() && nodes[p as int].children@.contains(i as usize),
                None => true,
            } by {
                if i < node_id {
                    assert(nodes[i] == old_nodes[i]);
                    if let Some(p) = nodes[i].parent {
                        assert(old_nodes[i].parent == Some(p));
                    }
                }
            }
            assert forall|i: int, j: int|
                #![trigger nodes[i].children@[j]]
                0 <= i < nodes.len() && 0 <= j < nodes[i].children@.len() implies {
                &&& nodes[i].children@[j] < nodes.len()
                &&& nodes[nodes[i].children@[j] as int].parent == Some(i as usize)
            } by {
                assert(nodes[i] == old_nodes[i]);
                assert(old_nodes[i].children@[j] < old_nodes.len());
            }
            assert forall|i: int| #![trigger nodes[i].children] 0 <= i < nodes.len() implies nodes[i].children@.no_duplicates() by {
                if i < node_id {
                    assert(nodes[i] == old_nodes[i]);
                }
            }
            assert(ranked(nodes, r2, b + 1));
        }
        node_id
    }

    /// Whether `node_id` is `potential_ancestor` or lies below it, by a depth-first walk down
    /// the children.
    #[verifier::spinoff_prover]
    #[verifier::rlimit(60)]
    fn is_descendant(&self, potential_ancestor: usize, node_id: usize) -> (res: bool)
        requires
            is_forest(self.nodes@),
            potential_ancestor < self.nodes@.len(),
            node_id < self.nodes@.len(),
        ensures
            res == descends(self.nodes@, potential_ancestor as int, node_id as int),
    {
        let ghost nodes = self.nodes@;
        let ghost a = potential_ancestor as int;
        let ghost (r, b) = choose|r: Seq<nat>, b: nat| ranked(nodes, r, b);
        let ghost mut popped: Set<int> = Set::empty();
        let ghost mut old_popped: Set<int> = Set::empty();
        let mut stack: Vec<usize> = vec![potential_ancestor];
        proof {
            assert(nodes.len() == self.nodes.len());
            assert(ancestor(nodes, a, 0) == Some(a));
            assert(stack@[0] == potential_ancestor);
            vstd::set_lib::lemma_int_range(0, nodes.len() as int);
        }
        loop
            invariant
                nodes == self.nodes@,
                is_forest(nodes),
                ranked(nodes, r, b),
                nodes.len() <= usize::MAX,
                0 <= a < nodes.len(),
                a == potential_ancestor,
                node_id < nodes.len(),
                popped.subset_of(vstd::set_lib::set_int_range(0, nodes.len() as int)),
                vstd::set_lib::set_int_range(0, nodes.len() as int).finite(),
                vstd::set_lib::set_int_range(0, nodes.len() as int).len() == nodes.len(),
                popped.finite(),
                stack@.no_duplicates(),
                forall|i: int| #![trigger stack@[i]] 0 <= i < stack@.len() ==> {
                    &&& stack@[i] < nodes.len()
                    &&& !popped.contains(stack@[i] as int)
                    &&& descends(nodes, a, stack@[i] as int)
                    &&& stack@[i] as int != a ==> popped.contains(
                        nodes[stack@[i] as int].parent->0 as int,
                    ) && nodes[stack@[i] as int].parent is Some
                },
                forall|x: int| #![trigger popped.contains(x)] popped.contains(x) ==> {
                    &&& descends(nodes, a, x)
                    &&& x != a ==> nodes[x].parent is Some && popped.contains(
                        nodes[x].parent->0 as int,
                    )
                },
                popped.contains(a) || stack@.contains(a as usize),
                !popped.contains(node_id as int),
                forall|p: int, j: int|
                    #![trigger popped.contains(p), nodes[p].children@[j]]
                    popped.contains(p) && 0 <= j < nodes[p].children@.len() ==> popped.contains(
                        nodes[p].children@[j] as int,
                    ) || stack@.contains(nodes[p].children@[j]),
            decreases nodes.len() - popped.len(),
        {
            let ghost s0 = stack@;
            let top = stack.pop();
            match top {
                None => {
                    proof {
                        assert forall|p: int, j: int|
                            #![trigger popped.contains(p), nodes[p].children@[j]]
                            popped.contains(p) && 0 <= j < nodes[p].children@.len()
                                implies popped.contains(nodes[p].children@[j] as int) by {
                            assert(!stack@.contains(nodes[p].children@[j]));
                        }
                        assert(!stack@.contains(a as usize));
                        assert forall|k: nat| ancestor(nodes, node_id as int, k) != Some(a) by {
                            if ancestor(nodes, node_id as int, k) == Some(a) {
                                lemma_closed_contains(nodes, popped, a, node_id as int, k);
                            }
                        }
                    }
                    return false;
                },
                Some(current) => {
                    proof {
                        assert(s0[s0.len() - 1] == current);
                        assert(descends(nodes, a, current as int));
                    }
                    if current == node_id {
                        return true;
                    }
                    let ghost c = current as int;
                    let ghost old_stack = stack@;
                    proof {
                        let k = choose|k: nat| ancestor(nodes, c, k) == Some(a);
                        lemma_descends_rank(nodes, r, b, a, c, k);
                        assert forall|j: int| #![trigger nodes[c].children@[j]]
                            0 <= j < nodes[c].children@.len() implies {
                            let ch = nodes[c].children@[j] as int;
                            &&& !popped.contains(ch)
                            &&& !old_stack.contains(ch as usize)
                            &&& ch != c
                            &&& ancestor(nodes, ch, k + 1) == Some(a)
                        } by {
                            let ch = nodes[c].children@[j] as int;
                            assert(nodes[ch].parent == Some(current));
                            assert(r[c] < r[ch]);
                            if ch == a {
                                assert(false);
                            }
                            if old_stack.contains(ch as usize) {
                                let i = choose|i: int| 0 <= i < old_stack.len() && old_stack[i] == ch as usize;
                                assert(old_stack[i] == stack@[i]);
                            }
                        }
                        assert(old_stack =~= s0.drop_last());
                        old_popped = popped;
                        popped = popped.insert(c);
                        vstd::set_lib::lemma_len_subset(
                            popped,
                            vstd::set_lib::set_int_range(0, nodes.len() as int),
                        );
                    }
                    let n = self.nodes[current].children.len();
                    for i in 0..n
                        invariant
                            nodes == self.nodes@,
                            0 <= c < nodes.len(),
                            c == current,
                            n == nodes[c].children@.len(),
                            stack@.len() == old_stack.len() + i,
                            stack@.take(old_stack.len() as int) == old_stack,
                            forall|j: int|
                                #![trigger stack@[j]]
                                old_stack.len() <= j < stack@.len() ==> stack@[j]
                                    == nodes[c].children@[j - old_stack.len()],
                    {
                        let child = self.nodes[current].children[i];
                        stack.push(child);
                        proof {
                            assert(stack@.take(old_stack.len() as int) =~= old_stack);
                        }
                    }
                    proof {
                        let kids = nodes[c].children@;
                        let k = choose|k: nat| ancestor(nodes, c, k) == Some(a);
                        assert(stack@ =~= old_stack + kids);
                        assert forall|i: int, j: int|
                            0 <= i < j < stack@.len() implies stack@[i] != stack@[j] by {
                            if j < old_stack.len() {
                                assert(s0[i] != s0[j]);
                            } else if i >= old_stack.len() {
                                assert(kids[i - old_stack.len()] != kids[j - old_stack.len()]);
                            } else {
                                assert(kids[j - old_stack.len()] == stack@[j]);
                                assert(old_stack[i] == stack@[i]);
                                assert(!old_stack.contains(kids[j - old_stack.len()]));
                            }
                        }
                        assert forall|i: int| #![trigger stack@[i]] 0 <= i < stack@.len() implies {
                            &&& stack@[i] < nodes.len()
                            &&& !popped.contains(stack@[i] as int)
                            &&& descends(nodes, a, stack@[i] as int)
                            &&& stack@[i] as int != a ==> popped.contains(
                                nodes[stack@[i] as int].parent->0 as int,
                            ) && nodes[stack@[i] as int].parent is Some
                        } by {
                            if i < old_stack.len() {
                                assert(stack@[i] == s0[i]);
                                assert(s0[i] != s0[s0.len() - 1]);
                            } else {
                                let j = i - old_stack.len();
                                assert(stack@[i] == kids[j]);
                                assert(ancestor(nodes, kids[j] as int, k + 1) == Some(a));
                                assert(nodes[kids[j] as int].parent == Some(current));
                            }
                        }
                        assert forall|x: int| #![trigger popped.contains(x)] popped.contains(x) implies {
                            &&& descends(nodes, a, x)
                            &&& x != a ==> nodes[x].parent is Some && popped.contains(
                                nodes[x].parent->0 as int,
                            )
                        } by {
                            if x != c {
                                assert(old_popped.contains(x));
                            }
                        }
                        if !popped.contains(a) {
                            assert(s0.contains(a as usize));
                            let i = choose|i: int| 0 <= i < s0.len() && s0[i] == a as usize;
                            assert(i != s0.len() - 1);
                            assert(stack@[i] == s0[i]);
                        }
                        assert forall|p: int, j: int|
                            #![trigger popped.contains(p), nodes[p].children@[j]]
                            popped.contains(p) && 0 <= j < nodes[p].children@.len()
                                implies popped.contains(nodes[p].children@[j] as int)
                                || stack@.contains(nodes[p].children@[j]) by {
                            let ch = nodes[p].children@[j];
                            if p == c {
                                assert(stack@[old_stack.len() + j] == ch);
                            } else {
                                assert(old_popped.contains(p));
                                if !old_popped.contains(ch as int) && ch as int != c {
                                    assert(s0.contains(ch));
                                    let i = choose|i: int| 0 <= i < s0.len() && s0[i] == ch;
                                    assert(i != s0.len() - 1);
                                    assert(stack@[i] == s0[i]);
                                }
                            }
                        }
                    }
                },
            }
        }
    }

    /// Makes `child_id` a child of `parent_id`, unless that would close a cycle: when
    /// `parent_id` is `child_id` or lies below it, nothing changes.
    fn link_parent_child(&mut self, parent_id: usize, child_id: usize)
        requires
            is_forest(old(self).nodes@),
            parent_id < old(self).nodes@.len(),
            child_id < old(self).nodes@.len(),
            old(self).nodes@[child_id as int].parent is None,
        ensures
            is_forest(final(self).nodes@),
            linked(
                old(self).nodes@,
                final(self).nodes@,
                parent_id as int,
                child_id as int,
                !descends(old(self).nodes@, child_id as int, parent_id as int),
            ),
    {
        if self.is_descendant(child_id, parent_id) {
            return ;
        }
        let ghost nodes = self.nodes@;
        assert(nodes.len() == self.nodes.len());
        self.nodes[child_id].parent = Some(parent_id);
        self.nodes[parent_id].children.push(child_id);
        proof {
            lemma_link_keeps_forest(nodes, self.nodes@, parent_id as int, child_id as int);
        }
    }

}


/// Linking a parent-less node keeps every node below every other one it was below.
proof fn lemma_link_keeps_descends(
    before: Seq<NtfsNode>,
    after: Seq<NtfsNode>,
    p: int,
    c: int,
    link: bool,
    a: int,
    x: int,
    k: nat,
)
    requires
        consistent(before),
        0 <= c < before.len(),
        before[c].parent is None,
        0 <= x < before.len(),
        linked(before, after, p, c, link),
        ancestor(before, x, k) == Some(a),
    ensures
        ancestor(after, x, k) == Some(a),
    decreases k,
{
    if k > 0 {
        assert(after[x] == after[x]);
        let q = before[x].parent->0;
        assert(x != c);
        assert(after[x].parent == before[x].parent);
        lemma_link_keeps_descends(before, after, p, c, link, a, q as int, (k - 1) as nat);
    }
}

/// Nothing but itself lies below a node without children.
proof fn lemma_leaf_descends(nodes: Seq<NtfsNode>, c: int, x: int, k: nat)
    requires
        consistent(nodes),
        0 <= c < nodes.len(),
        nodes[c].children@.len() == 0,
        0 <= x < nodes.len(),
        ancestor(nodes, x, k) == Some(c),
    ensures
        k == 0,
    decreases k,
{
    if k > 0 {
        let q = nodes[x].parent->0;
        assert(nodes[x].parent is Some);
        assert(nodes[q as int].children@.contains(x as usize));
        lemma_leaf_descends(nodes, c, q as int, (k - 1) as nat);
        assert(q == c);
    }
}

/// The ancestors of `x` stay as they were when the only nodes that change their parent are
/// nodes that `x` does not lie below.
proof fn lemma_ancestor_frame(before: Seq<NtfsNode>, after: Seq<NtfsNode>, x: int, k: nat)
    requires
        consistent(before),
        after.len() == before.len(),
        0 <= x < before.len(),
        forall|i: int|
            #![trigger after[i].parent]
            0 <= i < before.len() && after[i].parent != before[i].parent ==> !descends(
                before,
                i,
                x,
            ),
    ensures
        ancestor(after, x, k) == ancestor(before, x, k),
    decreases k,
{
    if k > 0 {
        assert(ancestor(before, x, 0) == Some(x));
        assert(after[x].parent == before[x].parent);
        if let Some(p) = before[x].parent {
            assert forall|i: int|
                #![trigger after[i].parent]
                0 <= i < before.len() && after[i].parent != before[i].parent implies !descends(
                    before,
                    i,
                    p as int,
                ) by {
                if descends(before, i, p as int) {
                    let j = choose|j: nat| ancestor(before, p as int, j) == Some(i);
                    assert(ancestor(before, x, j + 1) == Some(i));
                }
            }
            lemma_ancestor_frame(before, after, p as int, (k - 1) as nat);
        }
    }
}

/// The ancestors of `x` in `b` are those in `a` when `b` keeps the parents of the nodes of `a`.
proof fn lemma_ancestor_same_parents(a: Seq<NtfsNode>, b: Seq<NtfsNode>, x: int, k: nat)
    requires
        consistent(a),
        a.len() <= b.len(),
        forall|i: int| #![trigger b[i].parent] 0 <= i < a.len() ==> b[i].parent == a[i].parent,
        0 <= x < a.len(),
    ensures
        ancestor(b, x, k) == ancestor(a, x, k),
    decreases k,
{
    if k > 0 {
        assert(b[x].parent == a[x].parent);
        if let Some(p) = a[x].parent {
            lemma_ancestor_same_parents(a, b, p as int, (k - 1) as nat);
        }
    }
}

/// A node `n` added after the nodes of `a`, with parent `np`: the nodes above it are `np` and
/// the nodes above `np`.
proof fn lemma_new_node_above(a: Seq<NtfsNode>, b: Seq<NtfsNode>, n: int, np: Option<usize>)
    requires
        consistent(a),
        a.len() < usize::MAX,
        n == a.len(),
        b.len() == a.len() + 1,
        forall|i: int| #![trigger b[i].parent] 0 <= i < a.len() ==> b[i].parent == a[i].parent,
        b[n].parent == np,
        np matches Some(p) ==> p < a.len(),
    ensures
        forall|x: int, k: nat|
            0 <= x < a.len() ==> #[trigger] ancestor(b, x, k) == ancestor(a, x, k),
        forall|c: int|
            0 <= c < a.len() ==> #[trigger] descends(b, c, n) == closes_cycle(a, np, c as usize),
{
    assert forall|x: int, k: nat| 0 <= x < a.len() implies #[trigger] ancestor(b, x, k)
        == ancestor(a, x, k) by {
        lemma_ancestor_same_parents(a, b, x, k);
    }
    assert forall|c: int| 0 <= c < a.len() implies #[trigger] descends(b, c, n) == closes_cycle(
        a,
        np,
        c as usize,
    ) by {
        if descends(b, c, n) {
            let k = choose|k: nat| ancestor(b, n, k) == Some(c);
            assert(k > 0);
            let p = b[n].parent->0;
            assert(b[n].parent is Some);
            assert(ancestor(b, p as int, (k - 1) as nat) == Some(c));
            assert(ancestor(a, p as int, (k - 1) as nat) == Some(c));
        }
        if closes_cycle(a, np, c as usize) {
            let p = np->0;
            let k = choose|k: nat| ancestor(a, p as int, k) == Some(c);
            assert(ancestor(b, p as int, k) == Some(c));
            assert(ancestor(b, n, k + 1) == Some(c));
        }
    }
}

/// Whether making the waiting node `c` a child of a new node whose parent is `parent` would
/// close a cycle: the new node would lie below `c`.
pub open spec fn closes_cycle(nodes: Seq<NtfsNode>, parent: Option<usize>, c: usize) -> bool {
    match parent {
        Some(p) => descends(nodes, c as int, p as int),
        None => false,
    }
}

/// The nodes of `waiting` that a new node whose parent is `parent` takes as children, in the
/// order they waited.
pub open spec fn adopted(nodes: Seq<NtfsNode>, parent: Option<usize>, waiting: Seq<usize>) -> Seq<
    usize,
> {
    waiting.filter(|c: usize| !closes_cycle(nodes, parent, c))
}

/// Adopting one more waiting node appends it, unless it would close a cycle.
proof fn lemma_adopted_push(nodes: Seq<NtfsNode>, np: Option<usize>, s: Seq<usize>, c: usize)
    ensures
        adopted(nodes, np, s.push(c)) == if !closes_cycle(nodes, np, c) {
            adopted(nodes, np, s).push(c)
        } else {
            adopted(nodes, np, s)
        },
{
    reveal(Seq::filter);
    assert(s.push(c).drop_last() =~= s);
}

/// Adopting from no waiting nodes adopts none.
proof fn lemma_adopted_empty(nodes: Seq<NtfsNode>, np: Option<usize>)
    ensures
        adopted(nodes, np, Seq::<usize>::empty()) == Seq::<usize>::empty(),
{
    reveal(Seq::filter);
}

/// `x` and the nodes below it, each followed by the nodes below it, children in order, down
/// to `fuel` levels.
pub open spec fn preorder(nodes: Seq<NtfsNode>, x: int, fuel: nat) -> Seq<usize>
    decreases fuel, 0nat,
{
    if fuel == 0 {
        Seq::empty()
    } else {
        seq![x as usize] + preorder_list(nodes, nodes[x].children@, (fuel - 1) as nat)
    }
}

/// The nodes of `preorder` for each of `cs` in turn.
pub open spec fn preorder_list(nodes: Seq<NtfsNode>, cs: Seq<usize>, fuel: nat) -> Seq<usize>
    decreases fuel, cs.len() + 1,
{
    if cs.len() == 0 {
        Seq::empty()
    } else {
        preorder_list(nodes, cs.drop_last(), fuel) + preorder(nodes, cs.last() as int, fuel)
    }
}

/// Levels enough to walk down to every leaf of the forest `nodes`: the bound of a ranking.
pub open spec fn tree_fuel(nodes: Seq<NtfsNode>) -> nat {
    (choose|r: Seq<nat>, b: nat| ranked(nodes, r, b)).1
}

/// One step up is the parent.
proof fn lemma_ancestor_one(nodes: Seq<NtfsNode>, c: int)
    ensures
        ancestor(nodes, c, 1) == match nodes[c].parent {
            Some(p) => Some(p as int),
            None => None,
        },
{
    reveal_with_fuel(ancestor, 2);
}

/// Going up `a` steps and then `b` more is going up `a + b` steps.
proof fn lemma_ancestor_compose(nodes: Seq<NtfsNode>, y: int, a: nat, b: nat)
    ensures
        ancestor(nodes, y, a + b) == match ancestor(nodes, y, a) {
            Some(z) => ancestor(nodes, z, b),
            None => None,
        },
    decreases a,
{
    if a > 0 {
        if let Some(q) = nodes[y].parent {
            lemma_ancestor_compose(nodes, q as int, (a - 1) as nat, b);
            assert((a + b - 1) as nat == (a - 1) as nat + b);
        }
    }
}

/// The ancestors of a node are nodes.
proof fn lemma_ancestor_in_range(nodes: Seq<NtfsNode>, y: int, k: nat)
    requires
        consistent(nodes),
        0 <= y < nodes.len(),
    ensures
        ancestor(nodes, y, k) matches Some(z) ==> 0 <= z < nodes.len(),
    decreases k,
{
    if k > 0 {
        if let Some(q) = nodes[y].parent {
            lemma_ancestor_in_range(nodes, q as int, (k - 1) as nat);
        }
    }
}

/// What lies below a child of `x` lies below `x`.
proof fn lemma_descends_through_child(nodes: Seq<NtfsNode>, x: int, c: int, y: int)
    requires
        nodes.len() <= usize::MAX,
        nodes[c].parent == Some(x as usize),
        0 <= x < nodes.len(),
        descends(nodes, c, y),
    ensures
        descends(nodes, x, y),
{
    let k = choose|k: nat| ancestor(nodes, y, k) == Some(c);
    lemma_ancestor_compose(nodes, y, k, 1);
    lemma_ancestor_one(nodes, c);
    assert(ancestor(nodes, y, k + 1) == Some(x));
}

/// What lies strictly below `x` lies below one of its children.
proof fn lemma_descends_from_child(nodes: Seq<NtfsNode>, x: int, y: int, k: nat)
    requires
        consistent(nodes),
        nodes.len() <= usize::MAX,
        0 <= y < nodes.len(),
        k > 0,
        ancestor(nodes, y, k) == Some(x),
    ensures
        exists|j: int|
            0 <= j < nodes[x].children@.len() && #[trigger] descends(
                nodes,
                nodes[x].children@[j] as int,
                y,
            ),
{
    lemma_ancestor_compose(nodes, y, (k - 1) as nat, 1);
    let c = ancestor(nodes, y, (k - 1) as nat)->0;
    lemma_ancestor_in_range(nodes, y, (k - 1) as nat);
    lemma_ancestor_in_range(nodes, y, k);
    lemma_ancestor_one(nodes, c);
    assert(nodes[c].parent is Some);
    assert(nodes[c].parent == Some(x as usize));
    assert(nodes[x].children@.contains(c as usize));
    let j = choose|j: int| 0 <= j < nodes[x].children@.len() && nodes[x].children@[j] == c as usize;
    assert(ancestor(nodes, y, (k - 1) as nat) == Some(c));
    assert(descends(nodes, nodes[x].children@[j] as int, y));
}

/// Two children of one node have nothing below them in common.
proof fn lemma_siblings_disjoint(
    nodes: Seq<NtfsNode>,
    r: Seq<nat>,
    b: nat,
    p: int,
    c1: int,
    c2: int,
    y: int,
)
    requires
        consistent(nodes),
        ranked(nodes, r, b),
        nodes.len() <= usize::MAX,
        0 <= y < nodes.len(),
        nodes[c1].parent == Some(p as usize),
        nodes[c2].parent == Some(p as usize),
        0 <= p < nodes.len(),
        descends(nodes, c1, y),
        descends(nodes, c2, y),
    ensures
        c1 == c2,
{
    let k1 = choose|k: nat| ancestor(nodes, y, k) == Some(c1);
    let k2 = choose|k: nat| ancestor(nodes, y, k) == Some(c2);
    lemma_ancestor_in_range(nodes, y, k1);
    lemma_ancestor_in_range(nodes, y, k2);
    if k1 < k2 {
        let d = (k2 - k1) as nat;
        lemma_ancestor_compose(nodes, y, k1, d);
        assert(ancestor(nodes, c1, d) == Some(c2));
        lemma_descends_rank(nodes, r, b, c2, c1, d);
        lemma_ancestor_compose(nodes, c1, 1, (d - 1) as nat);
        lemma_ancestor_one(nodes, c1);
        assert(ancestor(nodes, p, (d - 1) as nat) == Some(c2));
        lemma_descends_rank(nodes, r, b, c2, p, (d - 1) as nat);
        assert(r[p] < r[c2]);
    } else if k2 < k1 {
        let d = (k1 - k2) as nat;
        lemma_ancestor_compose(nodes, y, k2, d);
        assert(ancestor(nodes, c2, d) == Some(c1));
        lemma_ancestor_compose(nodes, c2, 1, (d - 1) as nat);
        lemma_ancestor_one(nodes, c2);
        assert(ancestor(nodes, p, (d - 1) as nat) == Some(c1));
        lemma_descends_rank(nodes, r, b, c1, p, (d - 1) as nat);
        assert(r[p] < r[c1]);
    }
}

/// The walk from `x` lists every node below `x` once, and nothing else.
pub proof fn lemma_preorder_lists_subtree(
    nodes: Seq<NtfsNode>,
    r: Seq<nat>,
    b: nat,
    x: int,
    fuel: nat,
)
    requires
        is_forest(nodes),
        ranked(nodes, r, b),
        nodes.len() <= usize::MAX,
        0 <= x < nodes.len(),
        r[x] + fuel >= b,
    ensures
        preorder(nodes, x, fuel).no_duplicates(),
        forall|i: int|
            0 <= i < preorder(nodes, x, fuel).len() ==> #[trigger] preorder(nodes, x, fuel)[i]
                < nodes.len(),
        forall|y: int|
            0 <= y < nodes.len() ==> (preorder(nodes, x, fuel).contains(y as usize)
                <==> descends(nodes, x, y)),
    decreases fuel, 0nat,
{
    let cs = nodes[x].children@;
    assert(fuel > 0) by {
        assert(r[x] < b);
    }
    lemma_preorder_list_children(nodes, r, b, x, cs.len(), (fuel - 1) as nat);
    assert(cs.take(cs.len() as int) =~= cs);
    let rest = preorder_list(nodes, cs, (fuel - 1) as nat);
    let pre = preorder(nodes, x, fuel);
    assert(pre == seq![x as usize] + rest);
    assert(ancestor(nodes, x, 0) == Some(x));
    assert forall|i: int| 0 <= i < rest.len() implies rest[i] != x as usize by {
        let y = rest[i] as int;
        assert(rest.contains(rest[i]));
        assert(rest.contains(y as usize));
        let j = choose|j: int| 0 <= j < cs.len() && descends(nodes, cs[j] as int, y);
        let k = choose|k: nat| ancestor(nodes, y, k) == Some(cs[j] as int);
        assert(nodes[cs[j] as int].parent == Some(x as usize));
        lemma_descends_rank(nodes, r, b, cs[j] as int, y, k);
    }
    assert forall|i: int, j: int| 0 <= i < j < pre.len() implies pre[i] != pre[j] by {
        if i == 0 {
            assert(pre[j] == rest[j - 1]);
        } else {
            assert(pre[i] == rest[i - 1] && pre[j] == rest[j - 1]);
        }
    }
    assert forall|i: int| 0 <= i < pre.len() implies #[trigger] pre[i] < nodes.len() by {
        if i > 0 {
            assert(pre[i] == rest[i - 1]);
        }
    }
    assert forall|y: int| 0 <= y < nodes.len() implies (pre.contains(y as usize) <==> descends(
        nodes,
        x,
        y,
    )) by {
        if pre.contains(y as usize) {
            if y != x {
                let i = choose|i: int| 0 <= i < pre.len() && pre[i] == y as usize;
                assert(rest[i - 1] == y as usize);
                assert(rest.contains(y as usize));
                let j = choose|j: int| 0 <= j < cs.len() && descends(nodes, cs[j] as int, y);
                lemma_descends_through_child(nodes, x, cs[j] as int, y);
            }
        }
        if descends(nodes, x, y) {
            if y != x {
                let k = choose|k: nat| ancestor(nodes, y, k) == Some(x);
                lemma_descends_from_child(nodes, x, y, k);
                assert(rest.contains(y as usize));
                let i = choose|i: int| 0 <= i < rest.len() && rest[i] == y as usize;
                assert(pre[i + 1] == y as usize);
            } else {
                assert(pre[0] == y as usize);
            }
        }
    }
}

/// The walks from the first `m` children of `p` list, together, every node below one of them
/// once, and nothing else.
proof fn lemma_preorder_list_children(
    nodes: Seq<NtfsNode>,
    r: Seq<nat>,
    b: nat,
    p: int,
    m: nat,
    fuel: nat,
)
    requires
        is_forest(nodes),
        ranked(nodes, r, b),
        nodes.len() <= usize::MAX,
        0 <= p < nodes.len(),
        m <= nodes[p].children@.len(),
        r[p] + 1 + fuel >= b,
    ensures
        ({
            let cs = nodes[p].children@.take(m as int);
            let l = preorder_list(nodes, cs, fuel);
            &&& l.no_duplicates()
            &&& forall|i: int| 0 <= i < l.len() ==> #[trigger] l[i] < nodes.len()
            &&& forall|y: usize|
                y < nodes.len() ==> (#[trigger] l.contains(y) <==> exists|j: int|
                    0 <= j < m && #[trigger] descends(nodes, cs[j] as int, y as int))
        }),
    decreases fuel, m + 1,
{
    let all = nodes[p].children@;
    let cs = all.take(m as int);
    let l = preorder_list(nodes, cs, fuel);
    if m == 0 {
        assert(l =~= Seq::<usize>::empty());
    } else {
        let c = all[m - 1] as int;
        assert(nodes[c].parent == Some(p as usize));
        assert(r[p] < r[c]);
        assert(cs.drop_last() =~= all.take(m - 1));
        assert(cs.last() == c as usize);
        lemma_preorder_list_children(nodes, r, b, p, (m - 1) as nat, fuel);
        lemma_preorder_lists_subtree(nodes, r, b, c, fuel);
        let front = preorder_list(nodes, all.take(m - 1), fuel);
        let back = preorder(nodes, c, fuel);
        assert(l == front + back);
        assert forall|i: int, j: int| 0 <= i < front.len() && 0 <= j < back.len() implies front[i]
            != back[j] by {
            if front[i] == back[j] {
                let y = front[i] as int;
                assert(front.contains(front[i]));
                assert(front.contains(y as usize));
                let jj = choose|jj: int|
                    0 <= jj < m - 1 && #[trigger] descends(nodes, all.take(m - 1)[jj] as int, y);
                assert(back.contains(back[j]));
                let cj = all[jj] as int;
                assert(all.take(m - 1)[jj] == all[jj]);
                assert(nodes[cj].parent == Some(p as usize));
                lemma_siblings_disjoint(nodes, r, b, p, cj, c, y);
                assert(all.no_duplicates());
            }
        }
        assert forall|i: int, j: int| 0 <= i < j < l.len() implies l[i] != l[j] by {
            if j < front.len() {
                assert(l[i] == front[i] && l[j] == front[j]);
            } else if i >= front.len() {
                assert(l[i] == back[i - front.len()] && l[j] == back[j - front.len()]);
            } else {
                assert(l[i] == front[i] && l[j] == back[j - front.len()]);
            }
        }
        assert forall|i: int| 0 <= i < l.len() implies #[trigger] l[i] < nodes.len() by {
            if i < front.len() {
                assert(l[i] == front[i]);
            } else {
                assert(l[i] == back[i - front.len()]);
            }
        }
        assert forall|y: usize| y < nodes.len() implies (#[trigger] l.contains(y) <==> exists|
            j: int,
        | 0 <= j < m && #[trigger] descends(nodes, cs[j] as int, y as int)) by {
            if l.contains(y) {
                let i = choose|i: int| 0 <= i < l.len() && l[i] == y;
                if i < front.len() {
                    assert(front[i] == y);
                    assert(front.contains(y));
                    let jj = choose|jj: int|
                        0 <= jj < m - 1 && #[trigger] descends(
                            nodes,
                            all.take(m - 1)[jj] as int,
                            y as int,
                        );
                    assert(cs[jj] == all.take(m - 1)[jj]);
                    assert(descends(nodes, cs[jj] as int, y as int));
                } else {
                    assert(back[i - front.len()] == y);
                    assert(back.contains(y));
                    assert(cs[m - 1] as int == c);
                    assert(descends(nodes, cs[m - 1] as int, y as int));
                }
            }
            if exists|j: int| 0 <= j < m && #[trigger] descends(nodes, cs[j] as int, y as int) {
                let j = choose|j: int|
                    0 <= j < m && #[trigger] descends(nodes, cs[j] as int, y as int);
                if j < m - 1 {
                    assert(all.take(m - 1)[j] == cs[j]);
                    assert(descends(nodes, all.take(m - 1)[j] as int, y as int));
                    assert(front.contains(y));
                    let i = choose|i: int| 0 <= i < front.len() && front[i] == y;
                    assert(l[i] == y);
                } else {
                    assert(descends(nodes, c, y as int));
                    assert(back.contains(y));
                    let i = choose|i: int| 0 <= i < back.len() && back[i] == y;
                    assert(l[front.len() + i] == y);
                }
            }
        }
    }
}

/// The directory tree: the arena of nodes, the node of each MFT record, the nodes waiting for
/// the record of their parent, and the root.
#[derive(Debug)]
pub struct NtfsTree {
    pub arena: Arena,
    mft_to_node: HashMap<usize, usize>,
    pending_children: HashMap<usize, Vec<usize>>,
    root: Option<usize>,
}

impl NtfsTree {
    /// The nodes of the tree.
    pub closed spec fn nodes(self) -> Seq<NtfsNode> {
        self.arena.nodes@
    }

    /// The node added last for each MFT record.
    pub closed spec fn nodes_of_records(self) -> Map<usize, usize> {
        self.mft_to_node@
    }

    /// The nodes waiting for each parent record not yet added, in the order they came.
    pub closed spec fn pending(self) -> Map<usize, Seq<usize>> {
        self.pending_children@.map_values(|v: Vec<usize>| v@)
    }

    /// The root: the node of a record that is its own parent.
    pub closed spec fn root(self) -> Option<usize> {
        self.root
    }

    /// Whether the tree holds together: its nodes form a forest, each record names a node,
    /// each waiting node exists, has no parent and waits once, and the root exists.
    pub closed spec fn wf(self) -> bool {
        let nodes = self.arena.nodes@;
        let pc = self.pending_children@;
        &&& is_forest(nodes)
        &&& forall|k: usize| #[trigger]
            self.mft_to_node@.contains_key(k) ==> self.mft_to_node@[k] < nodes.len()
        &&& forall|k: usize, j: int|
            #![trigger pc[k]@[j]]
            pc.contains_key(k) && 0 <= j < pc[k]@.len() ==> pc[k]@[j] < nodes.len()
                && nodes[pc[k]@[j] as int].parent is None
        &&& forall|k1: usize, j1: int, k2: usize, j2: int|
            #![trigger pc[k1]@[j1], pc[k2]@[j2]]
            pc.contains_key(k1) && pc.contains_key(k2) && 0 <= j1 < pc[k1]@.len() && 0 <= j2
                < pc[k2]@.len() && pc[k1]@[j1] == pc[k2]@[j2] ==> k1 == k2 && j1 == j2
        &&& self.root matches Some(r) ==> r < nodes.len()
    }

    /// The nodes of a well-formed tree form a forest: their parent and child links agree, and
    /// no node lies above itself through parent links.
    pub proof fn lemma_wf_is_forest(self)
        requires
            self.wf(),
        ensures
            is_forest(self.nodes()),
            forall|x: int, k: nat|
                0 <= x < self.nodes().len() && k > 0 ==> #[trigger] ancestor(self.nodes(), x, k)
                    != Some(x),
    {
        let nodes = self.nodes();
        let (r, b) = choose|r: Seq<nat>, b: nat| ranked(nodes, r, b);
        assert forall|x: int, k: nat|
            0 <= x < nodes.len() && k > 0 implies #[trigger] ancestor(nodes, x, k) != Some(x) by {
            if ancestor(nodes, x, k) == Some(x) {
                lemma_descends_rank(nodes, r, b, x, x, k);
            }
        }
    }

    /// A tree with no nodes.
    pub fn new() -> (tree: Self)
        ensures
            tree.wf(),
            tree.nodes() == Seq::<NtfsNode>::empty(),
            tree.nodes_of_records() == Map::<usize, usize>::empty(),
            tree.pending() == Map::<usize, Seq<usize>>::empty(),
            tree.root() is None,
    {
        let tree = NtfsTree {
            arena: Arena::new(),
            mft_to_node: HashMap::new(),
            pending_children: HashMap::new(),
            root: None,
        };
        proof {
            assert(ranked(tree.arena.nodes@, Seq::empty(), 0));
            assert(tree.pending() =~= Map::<usize, Seq<usize>>::empty());
        }
        tree
    }

    /// Adds the node of a record named `name`, whose parent is the record `parent_mft`. It
    /// becomes the root when it is its own parent; it goes at the end of the children of the
    /// node of `parent_mft` when that record has been added, and waits for it otherwise; the
    /// nodes that waited for `mft_record` become its children in the order they waited, except
    /// one that it lies below, which would close a cycle. No other link changes.
    #[verifier::spinoff_prover]
    pub fn add_entry(&mut self, name: &str, mft_record: usize, parent_mft: usize)
        requires
            old(self).wf(),
        ensures
            final(self).wf(),
            ({
                let before = old(self).nodes();
                let after = final(self).nodes();
                let node_id = before.len() as int;
                let parent_known = parent_mft != mft_record && old(
                    self,
                ).nodes_of_records().contains_key(parent_mft);
                let waiting = if old(self).pending().contains_key(mft_record) {
                    old(self).pending()[mft_record]
                } else {
                    Seq::<usize>::empty()
                };
                &&& after.len() == before.len() + 1
                &&& after[node_id].name@ == name@
                &&& after[node_id].mft_record == mft_record
                &&& after[node_id].parent == if parent_known {
                    Some(old(self).nodes_of_records()[parent_mft])
                } else {
                    None
                }
                &&& after[node_id].children@ == adopted(before, after[node_id].parent, waiting)
                &&& forall|i: int|
                    #![trigger after[i]]
                    0 <= i < before.len() ==> {
                        &&& after[i].name == before[i].name
                        &&& after[i].mft_record == before[i].mft_record
                        &&& after[i].parent == if waiting.contains(i as usize) && !closes_cycle(
                            before,
                            after[node_id].parent,
                            i as usize,
                        ) {
                            Some(node_id as usize)
                        } else {
                            before[i].parent
                        }
                        &&& after[i].children@ == if after[node_id].parent == Some(i as usize) {
                            before[i].children@.push(node_id as usize)
                        } else {
                            before[i].children@
                        }
                    }
                &&& final(self).nodes_of_records() == old(self).nodes_of_records().insert(
                    mft_record,
                    node_id as usize,
                )
                &&& final(self).root() == if parent_mft == mft_record {
                    Some(node_id as usize)
                } else {
                    old(self).root()
                }
                &&& final(self).pending() == if parent_known || parent_mft == mft_record {
                    old(self).pending().remove(mft_record)
                } else {
                    old(self).pending().insert(
                        parent_mft,
                        if old(self).pending().contains_key(parent_mft) {
                            old(self).pending()[parent_mft]
                        } else {
                            Seq::<usize>::empty()
                        }.push(node_id as usize),
                    ).remove(mft_record)
                }
                &&& old(self).pending().contains_key(mft_record) ==> forall|j: int|
                    #![trigger old(self).pending()[mft_record][j]]
                    0 <= j < old(self).pending()[mft_record].len() ==> {
                        let c = old(self).pending()[mft_record][j] as int;
                        after[c].parent == Some(node_id as usize) || descends(after, c, node_id)
                    }
            }),
    {
        let ghost n0 = self.arena.nodes@;
        let ghost m0 = self.mft_to_node@;
        let ghost p0 = self.pending();
        let node_id = self.arena.add_node(name, mft_record);
        self.mft_to_node.insert(mft_record, node_id);
        if parent_mft == mft_record {
            self.root = Some(node_id);
        }
        let found = match self.mft_to_node.get(&parent_mft) {
            Some(parent_id) => Some(*parent_id),
            None => None,
        };
        let ghost n1 = self.arena.nodes@;
        match found {
            Some(parent_id) => {
                assert(n1.len() == self.arena.nodes.len());
                self.arena.link_parent_child(parent_id, node_id);
            },
            None => {
                let mut waiting = match self.pending_children.remove(&parent_mft) {
                    Some(v) => v,
                    None => Vec::new(),
                };
                waiting.push(node_id);
                self.pending_children.insert(parent_mft, waiting);
            },
        }
        let ghost n4 = self.arena.nodes@;
        let ghost parent_known = parent_mft != mft_record && m0.contains_key(parent_mft);
        proof {
            assert(n1.len() == n0.len() + 1);
            if found is Some && parent_mft != mft_record {
                let pid = m0[parent_mft] as int;
                assert(pid < n0.len());
                if descends(n1, node_id as int, pid) {
                    let k = choose|k: nat| ancestor(n1, pid, k) == Some(node_id as int);
                    lemma_leaf_descends(n1, node_id as int, pid, k);
                }
            }
            assert forall|i: int|
                #![trigger n4[i]]
                0 <= i < n0.len() implies n4[i].name == n0[i].name && n4[i].mft_record
                    == n0[i].mft_record && n4[i].parent == n0[i].parent by {
                assert(n1.take(node_id as int)[i] == n1[i]);
                assert(n4[i] == n4[i]);
            }
            assert(n4[node_id as int] == n4[node_id as int]);
            assert(n4[node_id as int].parent == if parent_known {
                Some(m0[parent_mft])
            } else {
                None
            });
        }
        let ghost np: Option<usize> = if parent_known {
            Some(m0[parent_mft])
        } else {
            None
        };
        proof {
            // The links of the nodes already there, and what lies above the new node.
            assert(n4[node_id as int] == n4[node_id as int]);
            assert forall|x: int|
                #![trigger n4[x]]
                0 <= x < n0.len() implies n4[x].children@ == if np == Some(x as usize) {
                    n0[x].children@.push(node_id)
                } else {
                    n0[x].children@
                } by {
                assert(n1.take(node_id as int)[x] == n1[x]);
                assert(n1[x] == n1[x]);
            }
            assert forall|i: int| #![trigger n4[i].parent] 0 <= i < n0.len() implies n4[i].parent
                == n0[i].parent by {
                assert(n4[i] == n4[i]);
            }
            assert(n4.len() == self.arena.nodes.len());
            lemma_new_node_above(n0, n4, node_id as int, np);
        }
        let ghost pc0 = old(self).pending_children@;
        let ghost pc4 = self.pending_children@;
        proof {
            if found is None {
                assert(!m0.contains_key(parent_mft) && parent_mft != mft_record);
            }
            assert forall|k: usize, j: int|
                #![trigger pc4[k]@[j]]
                pc4.contains_key(k) && 0 <= j < pc4[k]@.len() implies pc4[k]@[j] < n4.len()
                    && n4[pc4[k]@[j] as int].parent is None && (pc4[k]@[j] == node_id
                    ==> found is None && k == parent_mft && j == pc4[k]@.len() - 1) && (
                pc4[k]@[j] != node_id ==> pc0.contains_key(k) && pc0[k]@[j] == pc4[k]@[j])
                by {
                if found is None && k == parent_mft {
                    if pc0.contains_key(k) && j < pc0[k]@.len() {
                        assert(pc4[k]@[j] == pc0[k]@[j]);
                        assert(pc0[k]@[j] < n0.len());
                        assert(n4[pc0[k]@[j] as int] == n4[pc0[k]@[j] as int]);
                    } else {
                        assert(pc4[k]@[j] == node_id);
                    }
                } else {
                    assert(pc4[k] == pc0[k]);
                    assert(pc0[k]@[j] < n0.len());
                    assert(n4[pc0[k]@[j] as int] == n4[pc0[k]@[j] as int]);
                }
            }
            assert forall|k1: usize, j1: int, k2: usize, j2: int|
                #![trigger pc4[k1]@[j1], pc4[k2]@[j2]]
                pc4.contains_key(k1) && pc4.contains_key(k2) && 0 <= j1 < pc4[k1]@.len() && 0
                    <= j2 < pc4[k2]@.len() && pc4[k1]@[j1] == pc4[k2]@[j2] implies k1 == k2 && j1
                == j2 by {
                if pc4[k1]@[j1] != node_id {
                    assert(pc0[k1]@[j1] == pc0[k2]@[j2]);
                }
            }
            assert(self.pending() =~= if parent_known || parent_mft == mft_record {
                p0
            } else {
                p0.insert(
                    parent_mft,
                    if p0.contains_key(parent_mft) {
                        p0[parent_mft]
                    } else {
                        Seq::<usize>::empty()
                    }.push(node_id),
                )
            });
        }
        let removed = self.pending_children.remove(&mft_record);
        let ghost pc5 = self.pending_children@;
        let ghost m5 = self.mft_to_node@;
        let ghost root5 = self.root;
        let ghost no_children: Seq<usize> = Seq::empty();
        let children = match removed {
            Some(v) => v,
            None => Vec::new(),
        };
        proof {
            if removed is Some {
                assert(pc4.contains_key(mft_record) && children == pc4[mft_record]);
            }
            assert forall|j: int| 0 <= j < children@.len() implies children@[j] < n4.len()
                && n4[children@[j] as int].parent is None && children@[j] != node_id by {
                assert(pc4[mft_record]@[j] == children@[j]);
            }
            assert forall|i: int, j: int| 0 <= i < j < children@.len() implies children@[i]
                != children@[j] by {
                assert(pc4[mft_record]@[i] == children@[i]);
                assert(pc4[mft_record]@[j] == children@[j]);
            }
        }
        assert(n4.len() == self.arena.nodes.len());
        proof {
            lemma_adopted_empty(n0, np);
            assert(children@.take(0) =~= Seq::<usize>::empty());
            assert(n1[node_id as int] == n1[node_id as int]);
            assert(n4[node_id as int] == n4[node_id as int]);
        }
        for i in 0..children.len()
            invariant
                is_forest(self.arena.nodes@),
                self.arena.nodes@.len() == n4.len(),
                n4.len() <= usize::MAX,
                node_id < n4.len(),
                self.pending_children@ == pc5,
                self.mft_to_node@ == m5,
                self.root == root5,
                forall|j: int| 0 <= j < children@.len() ==> children@[j] < n4.len()
                    && n4[children@[j] as int].parent is None && children@[j] != node_id,
                children@.no_duplicates(),
                n4.len() == n0.len() + 1,
                node_id == n0.len(),
                n4[node_id as int].children@ == Seq::<usize>::empty(),
                forall|x: int|
                    #![trigger self.arena.nodes@[x]]
                    0 <= x < n4.len() ==> {
                        &&& self.arena.nodes@[x].name == n4[x].name
                        &&& self.arena.nodes@[x].mft_record == n4[x].mft_record
                        &&& self.arena.nodes@[x].parent == if children@.take(i as int).contains(
                            x as usize,
                        ) && !closes_cycle(n0, np, x as usize) {
                            Some(node_id)
                        } else {
                            n4[x].parent
                        }
                        &&& self.arena.nodes@[x].children@ == if x == node_id {
                            adopted(n0, np, children@.take(i as int))
                        } else {
                            n4[x].children@
                        }
                    },
                forall|k: nat|
                    #[trigger] ancestor(self.arena.nodes@, node_id as int, k) == ancestor(
                        n4,
                        node_id as int,
                        k,
                    ),
                forall|c: int|
                    0 <= c < n0.len() ==> #[trigger] descends(n4, c, node_id as int)
                        == closes_cycle(n0, np, c as usize),
                forall|j: int|
                    #![trigger children@[j]]
                    i <= j < children@.len() ==> self.arena.nodes@[children@[j] as int].parent is None,
                forall|j: int|
                    #![trigger children@[j]]
                    0 <= j < i ==> self.arena.nodes@[children@[j] as int].parent == Some(node_id)
                        || descends(self.arena.nodes@, children@[j] as int, node_id as int),
        {
            let child = children[i];
            let ghost before = self.arena.nodes@;
            proof {
                assert(children@[i as int] == child);
            }
            self.arena.link_parent_child(node_id, child);
            proof {
                let after = self.arena.nodes@;
                let link = !descends(before, child as int, node_id as int);
                let t0 = children@.take(i as int);
                let t1 = children@.take(i + 1);
                // The nodes above the new node are as they were, so the link is made exactly
                // when it closes no cycle.
                assert(child < n0.len());
                assert(descends(before, child as int, node_id as int) == descends(
                    n4,
                    child as int,
                    node_id as int,
                )) by {
                    if descends(before, child as int, node_id as int) {
                        let k = choose|k: nat|
                            ancestor(before, node_id as int, k) == Some(child as int);
                        assert(ancestor(n4, node_id as int, k) == Some(child as int));
                    }
                    if descends(n4, child as int, node_id as int) {
                        let k = choose|k: nat| ancestor(n4, node_id as int, k) == Some(child as int);
                        assert(ancestor(before, node_id as int, k) == Some(child as int));
                    }
                }
                assert(link == !closes_cycle(n0, np, child));
                assert(t1 =~= t0.push(child));
                assert(!t0.contains(child)) by {
                    if t0.contains(child) {
                        let j = choose|j: int|
                            0 <= j < i && t0[j] == child;
                        assert(children@[j] == children@[i as int]);
                    }
                }
                lemma_adopted_push(n0, np, t0, child);
                assert forall|x: int|
                    #![trigger after[x]]
                    0 <= x < n4.len() implies {
                    &&& after[x].name == n4[x].name
                    &&& after[x].mft_record == n4[x].mft_record
                    &&& after[x].parent == if t1.contains(x as usize)
                        && !closes_cycle(n0, np, x as usize) {
                        Some(node_id)
                    } else {
                        n4[x].parent
                    }
                    &&& after[x].children@ == if x == node_id {
                        adopted(n0, np, t1)
                    } else {
                        n4[x].children@
                    }
                } by {
                    assert(before[x] == before[x]);
                    if x == child {
                        assert(t1[i as int] == child);
                    } else {
                        assert(t1.contains(x as usize)
                            == t0.contains(x as usize)) by {
                            if t1.contains(x as usize) {
                                let j = choose|j: int|
                                    0 <= j < i + 1 && t1[j] == x as usize;
                                assert(t0[j] == x as usize);
                            }
                            if t0.contains(x as usize) {
                                let j = choose|j: int|
                                    0 <= j < i && t0[j] == x as usize;
                                assert(t1[j] == x as usize);
                            }
                        }
                    }
                }
                assert forall|k: nat|
                    #[trigger] ancestor(after, node_id as int, k) == ancestor(
                        n4,
                        node_id as int,
                        k,
                    ) by {
                    assert forall|x: int|
                        #![trigger after[x].parent]
                        0 <= x < before.len() && after[x].parent != before[x].parent implies !descends(
                            before,
                            x,
                            node_id as int,
                        ) by {
                        assert(before[x] == before[x]);
                    }
                    lemma_ancestor_frame(before, after, node_id as int, k);
                }
                assert forall|j: int|
                    #![trigger children@[j]]
                    i + 1 <= j < children@.len() implies after[children@[j] as int].parent is None by {
                    assert(children@[j] != child);
                    assert(after[children@[j] as int] == after[children@[j] as int]);
                }
                assert forall|j: int|
                    #![trigger children@[j]]
                    0 <= j < i + 1 implies after[children@[j] as int].parent == Some(node_id)
                        || descends(after, children@[j] as int, node_id as int) by {
                    let cj = children@[j] as int;
                    assert(after[cj] == after[cj]);
                    if descends(before, cj, node_id as int) {
                        let k = choose|k: nat| ancestor(before, node_id as int, k) == Some(cj);
                        lemma_link_keeps_descends(
                            before,
                            after,
                            node_id as int,
                            child as int,
                            link,
                            cj,
                            node_id as int,
                            k,
                        );
                    }
                }
            }
        }
        proof {
            let nodes = self.arena.nodes@;
            let pc = self.pending_children@;
            assert(pc == pc4.remove(mft_record));
            assert forall|k: usize, j: int|
                #![trigger pc[k]@[j]]
                pc.contains_key(k) && 0 <= j < pc[k]@.len() implies pc[k]@[j] < nodes.len()
                    && nodes[pc[k]@[j] as int].parent is None by {
                let x = pc[k]@[j];
                assert(pc4[k]@[j] == x);
                if children@.contains(x) {
                    let i = choose|i: int| 0 <= i < children@.len() && children@[i] == x;
                    assert(pc4[mft_record]@[i] == x);
                }
                assert(nodes[x as int] == nodes[x as int]);
            }
            assert forall|k1: usize, j1: int, k2: usize, j2: int|
                #![trigger pc[k1]@[j1], pc[k2]@[j2]]
                pc.contains_key(k1) && pc.contains_key(k2) && 0 <= j1 < pc[k1]@.len() && 0 <= j2
                    < pc[k2]@.len() && pc[k1]@[j1] == pc[k2]@[j2] implies k1 == k2 && j1 == j2 by {
                assert(pc4[k1]@[j1] == pc4[k2]@[j2]);
            }
            assert forall|k: usize| #[trigger] m5.contains_key(k) implies m5[k] < nodes.len() by {
                if k != mft_record {
                    assert(m0.contains_key(k));
                }
            }
            assert(nodes[node_id as int] == nodes[node_id as int]);
            assert(!children@.contains(node_id));
            assert(children@.take(children@.len() as int) =~= children@);
            if p0.contains_key(mft_record) {
                assert(pc4.contains_key(mft_record));
                assert(pc4[mft_record] == pc0[mft_record]);
                assert(children@ =~= p0[mft_record]);
            } else {
                if removed is Some {
                    assert(pc4.contains_key(mft_record));
                    if found is None && parent_mft == mft_record {
                        assert(false);
                    }
                    assert(pc0.contains_key(mft_record));
                }
                assert(children@ =~= Seq::<usize>::empty());
            }
            assert forall|x: int|
                #![trigger nodes[x]]
                0 <= x < n0.len() implies nodes[x].children@ == if np == Some(x as usize) {
                    n0[x].children@.push(node_id)
                } else {
                    n0[x].children@
                } && nodes[x].parent == if children@.contains(x as usize) && !closes_cycle(
                    n0,
                    np,
                    x as usize,
                ) {
                    Some(node_id)
                } else {
                    n0[x].parent
                } by {
                assert(n4[x] == n4[x]);
                assert(n4[x].parent == n0[x].parent);
            }
            assert(self.pending() =~= if parent_known || parent_mft == mft_record {
                p0.remove(mft_record)
            } else {
                p0.insert(
                    parent_mft,
                    if p0.contains_key(parent_mft) {
                        p0[parent_mft]
                    } else {
                        Seq::<usize>::empty()
                    }.push(node_id),
                ).remove(mft_record)
            });
            if p0.contains_key(mft_record) {
                assert(pc4.contains_key(mft_record));
                assert(pc4[mft_record] == pc0[mft_record]);
                assert forall|j: int|
                    #![trigger p0[mft_record][j]]
                    0 <= j < p0[mft_record].len() implies {
                        let c = p0[mft_record][j] as int;
                        nodes[c].parent == Some(node_id) || descends(nodes, c, node_id as int)
                    } by {
                    assert(p0[mft_record][j] == children@[j]);
                }
            }
        }
    }

    /// The node at `node_id`.
    pub fn get(&self, node_id: usize) -> (node: &NtfsNode)
        requires
            node_id < self.nodes().len(),
        ensures
            *node == self.nodes()[node_id as int],
    {
        &self.arena.nodes[node_id]
    }

    /// The nodes below the root, root first, each followed by the nodes below it, children
    /// in the order they were linked; none when there is no root.
    pub fn get_ordered_nodes(&self) -> (order: Vec<usize>)
        requires
            self.wf(),
        ensures
            order@ == match self.root() {
                Some(root_id) => preorder(self.nodes(), root_id as int, tree_fuel(self.nodes())),
                None => Seq::<usize>::empty(),
            },
            order@.no_duplicates(),
            forall|y: usize|
                y < self.nodes().len() ==> (#[trigger] order@.contains(y) <==> match self.root() {
                    Some(root_id) => descends(self.nodes(), root_id as int, y as int),
                    None => false,
                }),
            self.root() matches Some(root_id) ==> order@.len() > 0 && order@[0] == root_id,
    {
        let mut result = Vec::new();
        if let Some(root_id) = self.root {
            let ghost (r, b) = choose|r: Seq<nat>, b: nat| ranked(self.arena.nodes@, r, b);
            self.collect_nodes_recursive(root_id, &mut result, Ghost(r), Ghost(b), Ghost(b));
            proof {
                let nodes = self.arena.nodes@;
                assert(nodes.len() == self.arena.nodes.len());
                lemma_preorder_lists_subtree(nodes, r, b, root_id as int, b);
                assert(result@ =~= preorder(nodes, root_id as int, b));
                assert forall|y: usize| y < nodes.len() implies (#[trigger] result@.contains(y)
                    <==> descends(nodes, root_id as int, y as int)) by {
                    assert(preorder(nodes, root_id as int, b).contains((y as int) as usize)
                        <==> descends(nodes, root_id as int, y as int));
                }
                assert(r[root_id as int] < b);
            }
        } else {
            assert(result@ =~= Seq::<usize>::empty());
        }
        result
    }

    /// Appends `parent_id` and the nodes below it, in order; `fuel` covers the ranks from
    /// `parent_id` up to `b`.
    fn collect_nodes_recursive(
        &self,
        parent_id: usize,
        result: &mut Vec<usize>,
        Ghost(r): Ghost<Seq<nat>>,
        Ghost(b): Ghost<nat>,
        Ghost(fuel): Ghost<nat>,
    )
        requires
            is_forest(self.arena.nodes@),
            ranked(self.arena.nodes@, r, b),
            parent_id < self.arena.nodes@.len(),
            r[parent_id as int] + fuel >= b,
        ensures
            final(result)@ == old(result)@ + preorder(self.arena.nodes@, parent_id as int, fuel),
        decreases fuel,
    {
        let ghost nodes = self.arena.nodes@;
        let ghost start = result@;
        result.push(parent_id);
        let n = self.arena.nodes[parent_id].children.len();
        for i in 0..n
            invariant
                nodes == self.arena.nodes@,
                is_forest(nodes),
                ranked(nodes, r, b),
                parent_id < nodes.len(),
                r[parent_id as int] + fuel >= b,
                fuel > 0,
                n == nodes[parent_id as int].children@.len(),
                result@ == start + seq![parent_id] + preorder_list(
                    nodes,
                    nodes[parent_id as int].children@.take(i as int),
                    (fuel - 1) as nat,
                ),
        {
            let child = self.arena.nodes[parent_id].children[i];
            let ghost before = result@;
            proof {
                assert(nodes[child as int].parent == Some(parent_id));
                assert(r[parent_id as int] < r[child as int]);
            }
            self.collect_nodes_recursive(child, result, Ghost(r), Ghost(b), Ghost((fuel - 1) as nat));
            proof {
                let cs = nodes[parent_id as int].children@;
                assert(cs.take(i + 1).drop_last() =~= cs.take(i as int));
                assert(cs.take(i + 1).last() == child);
                assert(result@ =~= start + seq![parent_id] + preorder_list(
                    nodes,
                    cs.take(i + 1),
                    (fuel - 1) as nat,
                ));
            }
        }
        proof {
            let cs = nodes[parent_id as int].children@;
            assert(cs.take(n as int) =~= cs);
            assert(result@ =~= start + preorder(nodes, parent_id as int, fuel));
        }
    }

}

} // verus!
