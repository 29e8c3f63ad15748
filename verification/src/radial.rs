//! A network's tree laid out on rings: depth sets the ring, and each node
//! gets a slice of the circle that its children share.
//!
//! The slices are counted in leaves here, in whole numbers: a leaf has one,
//! a node as many as there are leaves below it. Coordinates follow from them.

use vstd::hash_map::StringHashMap;
use vstd::prelude::*;

use crate::links::{every_node_hangs_from_its_parent, node_of, LinksEntry, LinksNode, NodeView};
use crate::order::{
    comes_before, order_is_irreflexive, order_is_total, order_is_transitive, precedes,
};
use crate::split::same_text;

verus! {

/// A slice of the circle, in leaves: where it begins, and how wide it is.
#[derive(Debug, Clone, Copy, PartialEq, Eq, Structural)]
pub struct Slice {
    pub first: u32,
    pub count: u32,
}

/// What a [`Slice`] says.
pub struct Span {
    pub first: nat,
    pub count: nat,
}

impl View for Slice {
    type V = Span;

    open spec fn view(&self) -> Span {
        Span { first: self.first as nat, count: self.count as nat }
    }
}

/// Where the nodes of a tree go, and which of them are joined.
#[derive(Debug)]
pub struct RadialPlan {
    /// The leaves of the whole circle.
    pub total: u32,
    /// The slice of each node; `None` for one that the root does not lead
    /// to.
    pub slices: Vec<Option<Slice>>,
    /// Parent and child, by their places in the tree.
    pub edges: Vec<(usize, usize)>,
}

/// The nodes of a tree.
pub open spec fn nodes(tree: Seq<LinksNode>) -> Seq<NodeView> {
    Seq::new(tree.len(), |i: int| tree[i]@)
}

/// Where a node goes among others that are in order: before the first one
/// whose name comes after its own.
pub open spec fn spot(tree: Seq<NodeView>, list: Seq<int>, i: int) -> int
    decreases list.len(),
{
    if list.len() == 0 || !precedes(tree[i].server, tree[list.last()].server) {
        list.len() as int
    } else {
        spot(tree, list.drop_last(), i)
    }
}

/// The children of a server among the first `n` nodes, by their names.
pub open spec fn children(tree: Seq<NodeView>, server: Seq<char>, n: nat) -> Seq<int>
    decreases n,
{
    if n == 0 {
        Seq::empty()
    } else {
        let before = children(tree, server, (n - 1) as nat);
        if tree[n - 1].parent == Some(server) {
            before.insert(spot(tree, before, n - 1), n - 1)
        } else {
            before
        }
    }
}

/// The children of a server, by their names.
pub open spec fn kids(tree: Seq<NodeView>, server: Seq<char>) -> Seq<int> {
    children(tree, server, tree.len())
}

/// The leaves at and below a server, going down at most `fuel` levels.
pub open spec fn leaves(tree: Seq<NodeView>, server: Seq<char>, fuel: nat) -> nat
    decreases fuel, 0nat,
{
    if fuel == 0 || kids(tree, server).len() == 0 {
        1
    } else {
        leaves_of(tree, kids(tree, server), (fuel - 1) as nat)
    }
}

/// The leaves at and below several nodes.
pub open spec fn leaves_of(tree: Seq<NodeView>, list: Seq<int>, fuel: nat) -> nat
    decreases fuel, list.len() + 1,
{
    if list.len() == 0 {
        0
    } else {
        leaves_of(tree, list.drop_last(), fuel) + leaves(tree, tree[list.last()].server, fuel)
    }
}

/// The slices given out from a server down: its own, from `first` on, and
/// those of its children one behind the other within it.
pub open spec fn sliced(
    tree: Seq<NodeView>,
    server: Seq<char>,
    first: nat,
    fuel: nat,
    given: Map<Seq<char>, Span>,
) -> Map<Seq<char>, Span>
    decreases fuel, 0nat,
{
    let own = given.insert(server, Span { first, count: leaves(tree, server, fuel) });
    if fuel == 0 {
        own
    } else {
        sliced_all(tree, kids(tree, server), first, (fuel - 1) as nat, own)
    }
}

pub open spec fn sliced_all(
    tree: Seq<NodeView>,
    list: Seq<int>,
    first: nat,
    fuel: nat,
    given: Map<Seq<char>, Span>,
) -> Map<Seq<char>, Span>
    decreases fuel, list.len() + 1,
{
    if list.len() == 0 {
        given
    } else {
        let before = list.drop_last();
        sliced(
            tree,
            tree[list.last()].server,
            first + leaves_of(tree, before, fuel),
            fuel,
            sliced_all(tree, before, first, fuel, given),
        )
    }
}

/// As many levels as a tree can have: one for each node. The links to the
/// parents count, whatever depths the nodes say.
pub open spec fn levels(tree: Seq<NodeView>) -> nat {
    tree.len()
}

/// The first node that is the root; past the end when there is none.
pub open spec fn root_at(tree: Seq<NodeView>) -> int
    decreases tree.len(),
{
    if tree.len() == 0 || tree[0].is_root {
        0
    } else {
        1 + root_at(tree.drop_first())
    }
}

/// The last of the first `n` nodes with that name.
pub open spec fn last_named(tree: Seq<NodeView>, server: Seq<char>, n: nat) -> Option<int>
    decreases n,
{
    if n == 0 {
        None
    } else if tree[n - 1].server == server {
        Some(n - 1)
    } else {
        last_named(tree, server, (n - 1) as nat)
    }
}

/// The edge from a node's parent to the node, if the parent is there.
pub open spec fn edge_of(tree: Seq<NodeView>, i: int) -> Option<(int, int)> {
    match tree[i].parent {
        Some(parent) => match (
            last_named(tree, parent, tree.len()),
            last_named(tree, tree[i].server, tree.len()),
        ) {
            (Some(from), Some(to)) => Some((from, to)),
            _ => None,
        },
        None => None,
    }
}

/// The edges to the first `n` nodes.
pub open spec fn edges(tree: Seq<NodeView>, n: nat) -> Seq<(int, int)>
    decreases n,
{
    if n == 0 {
        Seq::empty()
    } else {
        let before = edges(tree, (n - 1) as nat);
        match edge_of(tree, n - 1) {
            Some(edge) => before.push(edge),
            None => before,
        }
    }
}

/// The slices of a whole tree.
pub open spec fn all_slices(tree: Seq<NodeView>) -> Map<Seq<char>, Span> {
    sliced(tree, tree[root_at(tree)].server, 0, levels(tree), Map::empty())
}

/// The leaves of a whole tree.
pub open spec fn all_leaves(tree: Seq<NodeView>) -> nat {
    leaves(tree, tree[root_at(tree)].server, levels(tree))
}

/// What pairs of places say.
pub open spec fn pairs(list: Seq<(usize, usize)>) -> Seq<(int, int)> {
    Seq::new(list.len(), |i: int| (list[i].0 as int, list[i].1 as int))
}

spec fn places(list: Seq<usize>) -> Seq<int> {
    Seq::new(list.len(), |i: int| list[i] as int)
}

proof fn lemma_children_are_places(tree: Seq<NodeView>, server: Seq<char>, n: nat)
    requires
        n <= tree.len(),
    ensures
        children(tree, server, n).len() <= n,
        forall|k: int|
            0 <= k < children(tree, server, n).len() ==> 0 <= #[trigger] children(
                tree,
                server,
                n,
            )[k] < n,
    decreases n,
{
    if n > 0 {
        let before = children(tree, server, (n - 1) as nat);
        lemma_children_are_places(tree, server, (n - 1) as nat);
        lemma_spot(tree, before, n - 1);
    }
}

proof fn lemma_spot(tree: Seq<NodeView>, list: Seq<int>, i: int)
    ensures
        0 <= spot(tree, list, i) <= list.len(),
        spot(tree, list, i) > 0 ==> !precedes(
            tree[i].server,
            tree[list[spot(tree, list, i) - 1]].server,
        ),
        forall|k: int|
            spot(tree, list, i) <= k < list.len() ==> precedes(
                tree[i].server,
                tree[#[trigger] list[k]].server,
            ),
    decreases list.len(),
{
    if list.len() > 0 && precedes(tree[i].server, tree[list.last()].server) {
        lemma_spot(tree, list.drop_last(), i);
        assert forall|k: int| spot(tree, list, i) <= k < list.len() implies precedes(
            tree[i].server,
            tree[#[trigger] list[k]].server,
        ) by {
            if k < list.len() - 1 {
                assert(list[k] == list.drop_last()[k]);
            }
        }
    }
}

/// The children of a server are exactly the nodes that name it as their
/// parent, and they are in the order of their names.
pub proof fn children_are_in_order(tree: Seq<NodeView>, server: Seq<char>, n: nat)
    requires
        n <= tree.len(),
    ensures
        forall|i: int|
            children(tree, server, n).contains(i) <==> 0 <= i < n && #[trigger] tree[i].parent
                == Some(server),
        forall|j: int, k: int|
            0 <= j < k < children(tree, server, n).len() ==> !precedes(
                tree[#[trigger] children(tree, server, n)[k]].server,
                tree[#[trigger] children(tree, server, n)[j]].server,
            ),
    decreases n,
{
    let all = children(tree, server, n);
    if n == 0 {
        assert(all =~= Seq::empty());
    } else {
        let before = children(tree, server, (n - 1) as nat);
        children_are_in_order(tree, server, (n - 1) as nat);
        if tree[n - 1].parent == Some(server) {
            let at = spot(tree, before, n - 1);
            lemma_spot(tree, before, n - 1);
            assert(all =~= before.insert(at, n - 1));
            assert forall|i: int|
                all.contains(i) <==> 0 <= i < n && #[trigger] tree[i].parent == Some(server) by {
                if all.contains(i) {
                    let k = choose|k: int| 0 <= k < all.len() && all[k] == i;
                    if k < at {
                        assert(before[k] == i);
                        assert(before.contains(i));
                    } else if k > at {
                        assert(before[k - 1] == i);
                        assert(before.contains(i));
                    }
                }
                if 0 <= i < n && tree[i].parent == Some(server) {
                    if i == n - 1 {
                        assert(all[at] == i);
                    } else {
                        assert(before.contains(i));
                        let k = choose|k: int| 0 <= k < before.len() && before[k] == i;
                        if k < at {
                            assert(all[k] == i);
                        } else {
                            assert(all[k + 1] == i);
                        }
                    }
                }
            }
            assert forall|j: int, k: int| 0 <= j < k < all.len() implies !precedes(
                tree[#[trigger] all[k]].server,
                tree[#[trigger] all[j]].server,
            ) by {
                let name = tree[n - 1].server;
                if j < at && k == at {
                    let nearest = tree[before[at - 1]].server;
                    let other = tree[before[j]].server;
                    assert(!precedes(name, nearest));
                    if j < at - 1 {
                        assert(!precedes(nearest, other));
                    }
                    lemma_not_before(other, nearest, name);
                } else if j == at && k > at {
                    let other = tree[before[k - 1]].server;
                    assert(precedes(name, other));
                    if precedes(other, name) {
                        order_is_transitive(name, other, name);
                        order_is_irreflexive(name);
                    }
                } else {
                    let a = if j < at {
                        j
                    } else {
                        j - 1
                    };
                    let b = if k < at {
                        k
                    } else {
                        k - 1
                    };
                    assert(all[j] == before[a] && all[k] == before[b]);
                }
            }
        }
    }
}

/// What comes after one that comes after another does not come before it.
proof fn lemma_not_before(first: Seq<char>, second: Seq<char>, third: Seq<char>)
    requires
        first == second || !precedes(second, first),
        !precedes(third, second),
    ensures
        !precedes(third, first),
{
    if precedes(third, first) {
        if first != second {
            order_is_total(first, second);
            order_is_transitive(third, first, second);
        }
    }
}

/// Whether every node is deeper than its parent.
pub open spec fn is_ranked(tree: Seq<NodeView>) -> bool {
    is_ranked_by(tree, depths(tree))
}

/// The depths that the nodes say.
pub open spec fn depths(tree: Seq<NodeView>) -> Seq<nat> {
    Seq::new(tree.len(), |i: int| tree[i].depth)
}

/// Whether every node has a greater rank than its parent, so that no way down
/// runs in a circle.
pub open spec fn is_ranked_by(tree: Seq<NodeView>, ranks: Seq<nat>) -> bool {
    forall|i: int, j: int|
        0 <= i < tree.len() && 0 <= j < tree.len() && (#[trigger] tree[i]).parent == Some(
            (#[trigger] tree[j]).server,
        ) ==> ranks[j] < ranks[i]
}

/// A tree rebuilt from a reply is one whose nodes are deeper than their
/// parents, so its slices have an end.
pub proof fn rebuilt_trees_are_ranked(entries: Seq<LinksEntry>)
    ensures
        is_ranked(Seq::new(entries.len(), |i: int| node_of(entries, entries[i]))),
{
    let tree = Seq::new(entries.len(), |i: int| node_of(entries, entries[i]));
    assert forall|i: int, j: int|
        0 <= i < tree.len() && 0 <= j < tree.len() && (#[trigger] tree[i]).parent == Some(
            (#[trigger] tree[j]).server,
        ) implies depths(tree)[j] < depths(tree)[i] by {
        every_node_hangs_from_its_parent(entries, i);
        let k = choose|k: int|
            0 <= k < entries.len() && (#[trigger] node_of(entries, entries[k])).server
                == tree[i].parent->0 && tree[i].depth == node_of(entries, entries[k]).depth + 1;
        assert(node_of(entries, entries[k]).depth == tree[j].depth);
    }
}

/// How many of the first `n` nodes have a greater rank than `rank`.
spec fn deeper(ranks: Seq<nat>, rank: nat, n: nat) -> nat
    decreases n,
{
    if n == 0 {
        0
    } else {
        deeper(ranks, rank, (n - 1) as nat) + if ranks[n - 1] > rank {
            1nat
        } else {
            0nat
        }
    }
}

proof fn lemma_deeper(ranks: Seq<nat>, at: int, below: int, n: nat)
    requires
        0 <= at,
        0 <= below,
        ranks[at] < ranks[below],
    ensures
        deeper(ranks, ranks[below], n) <= deeper(ranks, ranks[at], n) <= n,
        below < n ==> deeper(ranks, ranks[below], n) < deeper(ranks, ranks[at], n),
    decreases n,
{
    if n > 0 {
        lemma_deeper(ranks, at, below, (n - 1) as nat);
    }
}

proof fn lemma_deeper_than_one(ranks: Seq<nat>, at: int, n: nat)
    requires
        0 <= at,
    ensures
        deeper(ranks, ranks[at], n) <= n,
        at < n ==> deeper(ranks, ranks[at], n) < n,
    decreases n,
{
    if n > 0 {
        lemma_deeper_than_one(ranks, at, (n - 1) as nat);
    }
}

proof fn lemma_enough_levels(tree: Seq<NodeView>, ranks: Seq<nat>, at: int, fuel: nat)
    requires
        is_ranked_by(tree, ranks),
        0 <= at < tree.len(),
        fuel > deeper(ranks, ranks[at], tree.len()),
    ensures
        leaves(tree, tree[at].server, fuel) == leaves(tree, tree[at].server, fuel + 1),
    decreases fuel, 0nat,
{
    let list = kids(tree, tree[at].server);
    if list.len() > 0 {
        children_are_in_order(tree, tree[at].server, tree.len());
        assert forall|k: int| 0 <= k < list.len() implies 0 <= #[trigger] list[k] < tree.len()
            && fuel - 1 > deeper(ranks, ranks[list[k]], tree.len()) by {
            assert(list.contains(list[k]));
            lemma_deeper(ranks, at, list[k], tree.len());
        }
        lemma_enough_levels_for_all(tree, ranks, list, (fuel - 1) as nat);
    }
}

proof fn lemma_enough_levels_for_all(
    tree: Seq<NodeView>,
    ranks: Seq<nat>,
    list: Seq<int>,
    fuel: nat,
)
    requires
        is_ranked_by(tree, ranks),
        forall|k: int|
            0 <= k < list.len() ==> 0 <= #[trigger] list[k] < tree.len() && fuel > deeper(
                ranks,
                ranks[list[k]],
                tree.len(),
            ),
    ensures
        leaves_of(tree, list, fuel) == leaves_of(tree, list, fuel + 1),
    decreases fuel, list.len() + 1,
{
    if list.len() > 0 {
        let before = list.drop_last();
        assert forall|k: int| 0 <= k < before.len() implies 0 <= #[trigger] before[k] < tree.len()
            && fuel > deeper(ranks, ranks[before[k]], tree.len()) by {
            assert(before[k] == list[k]);
        }
        lemma_enough_levels_for_all(tree, ranks, before, fuel);
        lemma_enough_levels(tree, ranks, list[list.len() - 1], fuel);
    }
}

/// No level of a tree is left out, whatever depths its nodes say: where the
/// ways down do not run in a circle, going further finds no more leaves.
pub proof fn leaves_are_all_counted(
    tree: Seq<NodeView>,
    ranks: Seq<nat>,
    at: int,
    further: nat,
)
    requires
        is_ranked_by(tree, ranks),
        0 <= at < tree.len(),
    ensures
        leaves(tree, tree[at].server, levels(tree) + further) == leaves(
            tree,
            tree[at].server,
            levels(tree),
        ),
    decreases further,
{
    if further > 0 {
        leaves_are_all_counted(tree, ranks, at, (further - 1) as nat);
        lemma_deeper_than_one(ranks, at, tree.len());
        lemma_enough_levels(tree, ranks, at, levels(tree) + (further - 1) as nat);
    }
}

/// Whether every child of a server is among those given a slice.
spec fn has_kids_in(
    tree: Seq<NodeView>,
    server: Seq<char>,
    given: Map<Seq<char>, Span>,
) -> bool {
    forall|k: int|
        0 <= k < kids(tree, server).len() ==> given.contains_key(
            tree[#[trigger] kids(tree, server)[k]].server,
        )
}

proof fn lemma_slices_go_down(
    tree: Seq<NodeView>,
    ranks: Seq<nat>,
    at: int,
    first: nat,
    fuel: nat,
    given: Map<Seq<char>, Span>,
)
    requires
        is_ranked_by(tree, ranks),
        0 <= at < tree.len(),
        fuel > deeper(ranks, ranks[at], tree.len()),
    ensures
        ({
            let after = sliced(tree, tree[at].server, first, fuel, given);
            &&& after.contains_key(tree[at].server)
            &&& forall|s: Seq<char>| #[trigger]
                after.contains_key(s) <== given.contains_key(s)
            &&& forall|s: Seq<char>| #[trigger]
                after.contains_key(s) && !given.contains_key(s) ==> has_kids_in(tree, s, after)
        }),
    decreases fuel, 0nat,
{
    let server = tree[at].server;
    let own = given.insert(server, Span { first, count: leaves(tree, server, fuel) });
    let list = kids(tree, server);
    let after = sliced(tree, server, first, fuel, given);
    children_are_in_order(tree, server, tree.len());
    assert forall|k: int| 0 <= k < list.len() implies 0 <= #[trigger] list[k] < tree.len() && fuel
        - 1 > deeper(ranks, ranks[list[k]], tree.len()) by {
        assert(list.contains(list[k]));
        lemma_deeper(ranks, at, list[k], tree.len());
    }
    lemma_slices_go_down_all(tree, ranks, list, first, (fuel - 1) as nat, own);
    assert(own.contains_key(server));
    assert(has_kids_in(tree, server, after));
    assert forall|s: Seq<char>| #[trigger] after.contains_key(s) <== given.contains_key(s) by {
        assert(given.contains_key(s) ==> own.contains_key(s));
    }
}

proof fn lemma_slices_go_down_all(
    tree: Seq<NodeView>,
    ranks: Seq<nat>,
    list: Seq<int>,
    first: nat,
    fuel: nat,
    given: Map<Seq<char>, Span>,
)
    requires
        is_ranked_by(tree, ranks),
        forall|k: int|
            0 <= k < list.len() ==> 0 <= #[trigger] list[k] < tree.len() && fuel > deeper(
                ranks,
                ranks[list[k]],
                tree.len(),
            ),
    ensures
        ({
            let after = sliced_all(tree, list, first, fuel, given);
            &&& forall|k: int|
                0 <= k < list.len() ==> after.contains_key(tree[#[trigger] list[k]].server)
            &&& forall|s: Seq<char>| #[trigger]
                after.contains_key(s) <== given.contains_key(s)
            &&& forall|s: Seq<char>| #[trigger]
                after.contains_key(s) && !given.contains_key(s) ==> has_kids_in(tree, s, after)
        }),
    decreases fuel, list.len() + 1,
{
    if list.len() > 0 {
        let front = list.drop_last();
        let last = list[list.len() - 1];
        assert forall|k: int| 0 <= k < front.len() implies 0 <= #[trigger] front[k] < tree.len()
            && fuel > deeper(ranks, ranks[front[k]], tree.len()) by {
            assert(front[k] == list[k]);
        }
        lemma_slices_go_down_all(tree, ranks, front, first, fuel, given);
        let before = sliced_all(tree, front, first, fuel, given);
        let next = first + leaves_of(tree, front, fuel);
        lemma_slices_go_down(tree, ranks, last, next, fuel, before);
        let after = sliced_all(tree, list, first, fuel, given);
        assert forall|k: int| 0 <= k < list.len() implies after.contains_key(
            tree[#[trigger] list[k]].server,
        ) by {
            if k < list.len() - 1 {
                assert(front[k] == list[k]);
                assert(before.contains_key(tree[front[k]].server));
            }
        }
        assert forall|s: Seq<char>| #[trigger] after.contains_key(s) <== given.contains_key(s) by {
            assert(given.contains_key(s) ==> before.contains_key(s));
        }
        assert forall|s: Seq<char>| #[trigger]
            after.contains_key(s) && !given.contains_key(s) implies has_kids_in(
            tree,
            s,
            after,
        ) by {
            if before.contains_key(s) {
                assert(has_kids_in(tree, s, before));
            }
        }
    }
}

/// Every node that the root leads to gets a slice: the root does, and with a
/// node its children do, whatever depths the nodes say.
pub proof fn slices_go_all_the_way_down(tree: Seq<NodeView>, ranks: Seq<nat>, i: int)
    requires
        is_ranked_by(tree, ranks),
        0 <= root_at(tree) < tree.len(),
        0 <= i < tree.len(),
    ensures
        all_slices(tree).contains_key(tree[root_at(tree)].server),
        tree[i].parent matches Some(parent) && all_slices(tree).contains_key(parent)
            ==> all_slices(tree).contains_key(tree[i].server),
{
    let root = root_at(tree);
    lemma_deeper_than_one(ranks, root, tree.len());
    lemma_slices_go_down(tree, ranks, root, 0, levels(tree), Map::empty());
    if let Some(parent) = tree[i].parent {
        if all_slices(tree).contains_key(parent) {
            children_are_in_order(tree, parent, tree.len());
            let list = kids(tree, parent);
            assert(list.contains(i));
            let k = choose|k: int| 0 <= k < list.len() && list[k] == i;
            assert(has_kids_in(tree, parent, all_slices(tree)));
            assert(all_slices(tree).contains_key(tree[list[k]].server));
        }
    }
}

/// The children of a node share its slice: theirs are as wide as it is, all
/// together.
pub proof fn children_share_the_slice(tree: Seq<NodeView>, server: Seq<char>, fuel: nat)
    requires
        fuel > 0,
        kids(tree, server).len() > 0,
    ensures
        leaves_of(tree, kids(tree, server), (fuel - 1) as nat) == leaves(tree, server, fuel),
{
}

proof fn lemma_leaves_grow(tree: Seq<NodeView>, list: Seq<int>, k: int, fuel: nat)
    requires
        0 <= k <= list.len(),
    ensures
        leaves_of(tree, list.take(k), fuel) <= leaves_of(tree, list, fuel),
    decreases list.len() - k,
{
    if k == list.len() {
        assert(list.take(k) =~= list);
    } else {
        lemma_leaves_grow(tree, list, k + 1, fuel);
        assert(list.take(k + 1).drop_last() =~= list.take(k));
    }
}

fn spot_for(tree: &[LinksNode], list: &Vec<usize>, i: usize) -> (at: usize)
    requires
        i < tree@.len(),
        forall|k: int| 0 <= k < list@.len() ==> #[trigger] list@[k] < tree@.len(),
    ensures
        at == spot(nodes(tree@), places(list@), i as int),
        at <= list@.len(),
{
    let ghost all = places(list@);
    let mut at: usize = list.len();
    assert(all.take(at as int) =~= all);
    while at > 0
        invariant
            at <= list@.len(),
            i < tree@.len(),
            all == places(list@),
            forall|k: int| 0 <= k < list@.len() ==> #[trigger] list@[k] < tree@.len(),
            spot(nodes(tree@), all, i as int) == spot(
                nodes(tree@),
                all.take(at as int),
                i as int,
            ),
        ensures
            spot(nodes(tree@), all, i as int) == at,
        decreases at,
    {
        let last: usize = list[at - 1];
        assert(all.take(at as int).last() == last);
        assert(all.take(at as int).drop_last() =~= all.take(at - 1));
        if !comes_before(tree[i].server.as_str(), tree[last].server.as_str()) {
            break;
        }
        at -= 1;
    }
    at
}

fn children_of(tree: &[LinksNode], server: &str) -> (list: Vec<usize>)
    ensures
        places(list@) == kids(nodes(tree@), server@),
        forall|k: int| 0 <= k < list@.len() ==> #[trigger] list@[k] < tree@.len(),
{
    let mut list: Vec<usize> = Vec::new();
    let mut i: usize = 0;
    assert(places(list@) =~= Seq::empty());
    while i < tree.len()
        invariant
            i <= tree@.len(),
            places(list@) == children(nodes(tree@), server@, i as nat),
            forall|k: int| 0 <= k < list@.len() ==> #[trigger] list@[k] < tree@.len(),
        decreases tree@.len() - i,
    {
        let ghost before = list@;
        let is_child = match &tree[i].parent {
            Some(parent) => same_text(parent.as_str(), server),
            None => false,
        };
        assert(is_child == (nodes(tree@)[i as int].parent == Some(server@)));
        if is_child {
            let at: usize = spot_for(tree, &list, i);
            list.insert(at, i);
            assert(places(list@) =~= places(before).insert(at as int, i as int));
            assert forall|k: int| 0 <= k < list@.len() implies #[trigger] list@[k]
                < tree@.len() by {
                if k < at {
                    assert(list@[k] == before[k]);
                } else if k > at {
                    assert(list@[k] == before[k - 1]);
                }
            }
        }
        i += 1;
    }
    list
}

fn count_leaves(tree: &[LinksNode], server: &str, fuel: u64) -> (count: Option<u32>)
    ensures
        match count {
            Some(count) => count == leaves(nodes(tree@), server@, fuel as nat),
            None => leaves(nodes(tree@), server@, fuel as nat) > u32::MAX,
        },
    decreases fuel,
{
    if fuel == 0 {
        return Some(1);
    }
    let list = children_of(tree, server);
    if list.len() == 0 {
        return Some(1);
    }
    let ghost all = places(list@);
    let mut total: u32 = 0;
    let mut k: usize = 0;
    while k < list.len()
        invariant
            k <= list@.len(),
            fuel > 0,
            all == places(list@),
            all.len() > 0,
            all == kids(nodes(tree@), server@),
            forall|j: int| 0 <= j < list@.len() ==> #[trigger] list@[j] < tree@.len(),
            total == leaves_of(nodes(tree@), all.take(k as int), (fuel - 1) as nat),
        decreases list@.len() - k,
    {
        let kid: usize = list[k];
        let ghost here = all.take(k + 1);
        assert(here.drop_last() =~= all.take(k as int));
        assert(here.last() == kid);
        proof {
            lemma_leaves_grow(nodes(tree@), all, k + 1, (fuel - 1) as nat);
        }
        let count: u32 = match count_leaves(tree, tree[kid].server.as_str(), fuel - 1) {
            Some(count) => count,
            None => return None,
        };
        if count > u32::MAX - total {
            return None;
        }
        total = total + count;
        k += 1;
    }
    assert(all.take(k as int) =~= all);
    Some(total)
}

spec fn spans(given: Map<Seq<char>, Slice>) -> Map<Seq<char>, Span> {
    given.map_values(|slice: Slice| slice@)
}

fn slice_down(
    tree: &[LinksNode],
    server: &str,
    first: u32,
    fuel: u64,
    given: &mut StringHashMap<Slice>,
) -> (count: u32)
    requires
        first + leaves(nodes(tree@), server@, fuel as nat) <= u32::MAX,
    ensures
        spans(final(given)@) == sliced(
            nodes(tree@),
            server@,
            first as nat,
            fuel as nat,
            spans(old(given)@),
        ),
        count == leaves(nodes(tree@), server@, fuel as nat),
    decreases fuel,
{
    let ghost before = given@;
    let count: u32 = match count_leaves(tree, server, fuel) {
        Some(count) => count,
        None => 0,
    };
    let slice = Slice { first, count };
    given.insert(server.to_string(), slice);
    let ghost own = spans(before).insert(server@, slice@);
    assert(spans(given@) =~= own);
    if fuel == 0 {
        return count;
    }
    let list = children_of(tree, server);
    let ghost all = places(list@);
    let mut next: u32 = first;
    let mut k: usize = 0;
    assert(all.take(0) =~= Seq::empty());
    while k < list.len()
        invariant
            k <= list@.len(),
            fuel > 0,
            all == places(list@),
            all == kids(nodes(tree@), server@),
            first + leaves(nodes(tree@), server@, fuel as nat) <= u32::MAX,
            forall|j: int| 0 <= j < list@.len() ==> #[trigger] list@[j] < tree@.len(),
            next == first + leaves_of(nodes(tree@), all.take(k as int), (fuel - 1) as nat),
            spans(given@) == sliced_all(
                nodes(tree@),
                all.take(k as int),
                first as nat,
                (fuel - 1) as nat,
                own,
            ),
        decreases list@.len() - k,
    {
        let kid: usize = list[k];
        let ghost here = all.take(k + 1);
        assert(here.drop_last() =~= all.take(k as int));
        assert(here.last() == kid);
        proof {
            lemma_leaves_grow(nodes(tree@), all, k + 1, (fuel - 1) as nat);
        }
        let width: u32 = slice_down(tree, tree[kid].server.as_str(), next, fuel - 1, given);
        next = next + width;
        k += 1;
    }
    assert(all.take(k as int) =~= all);
    count
}

fn root_place(tree: &[LinksNode]) -> (at: usize)
    ensures
        at == root_at(nodes(tree@)),
        at <= tree@.len(),
{
    let ghost all = nodes(tree@);
    let mut i: usize = 0;
    assert(all.skip(0) =~= all);
    while i < tree.len()
        invariant
            i <= tree@.len(),
            all == nodes(tree@),
            root_at(all) == i + root_at(all.skip(i as int)),
        decreases tree@.len() - i,
    {
        assert(all.skip(i as int)[0] == all[i as int]);
        assert(all.skip(i as int).drop_first() =~= all.skip(i + 1));
        if tree[i].is_root {
            return i;
        }
        i += 1;
    }
    assert(all.skip(i as int) =~= Seq::empty());
    i
}

fn last_place(tree: &[LinksNode], server: &str) -> (at: Option<usize>)
    ensures
        match at {
            Some(at) => last_named(nodes(tree@), server@, tree@.len()) == Some(at as int),
            None => last_named(nodes(tree@), server@, tree@.len()) is None,
        },
{
    let mut i: usize = tree.len();
    while i > 0
        invariant
            i <= tree@.len(),
            last_named(nodes(tree@), server@, tree@.len()) == last_named(
                nodes(tree@),
                server@,
                i as nat,
            ),
        decreases i,
    {
        if same_text(tree[i - 1].server.as_str(), server) {
            return Some(i - 1);
        }
        i -= 1;
    }
    None
}

fn all_edges(tree: &[LinksNode]) -> (list: Vec<(usize, usize)>)
    ensures
        pairs(list@) == edges(nodes(tree@), tree@.len()),
{
    let mut list: Vec<(usize, usize)> = Vec::new();
    let mut i: usize = 0;
    assert(pairs(list@) =~= Seq::empty());
    while i < tree.len()
        invariant
            i <= tree@.len(),
            pairs(list@) == edges(nodes(tree@), i as nat),
        decreases tree@.len() - i,
    {
        let ghost before = list@;
        assert(nodes(tree@)[i as int] == tree@[i as int]@);
        if let Some(parent) = &tree[i].parent {
            let from = last_place(tree, parent.as_str());
            let to = last_place(tree, tree[i].server.as_str());
            if let (Some(from), Some(to)) = (from, to) {
                list.push((from, to));
                assert(pairs(list@) =~= pairs(before).push((from as int, to as int)));
            }
        }
        i += 1;
    }
    list
}

/// What an optional slice says.
pub open spec fn opt_span(slice: Option<Slice>) -> Option<Span> {
    match slice {
        Some(slice) => Some(slice@),
        None => None,
    }
}

/// The slice of a server, if one was given out.
pub open spec fn span_of(given: Map<Seq<char>, Span>, server: Seq<char>) -> Option<Span> {
    if given.contains_key(server) {
        Some(given[server])
    } else {
        None
    }
}

/// Lays out a reconstructed tree: the slice of each node and the edges
/// between them. Nothing is laid out without a root; `None` for a tree with
/// more leaves than can be counted, which takes servers that are listed many
/// times over.
pub fn radial_plan(tree: &[LinksNode]) -> (plan: Option<RadialPlan>)
    ensures
        ({
            let all = nodes(tree@);
            if root_at(all) == all.len() {
                plan matches Some(plan) && plan.total == 0 && plan.slices@.len() == 0
                    && plan.edges@.len() == 0
            } else if all_leaves(all) > u32::MAX {
                plan is None
            } else {
                &&& plan matches Some(plan)
                &&& plan.total == all_leaves(all)
                &&& plan.slices@.len() == all.len()
                &&& forall|i: int|
                    0 <= i < all.len() ==> opt_span(#[trigger] plan.slices@[i]) == span_of(
                        all_slices(all),
                        all[i].server,
                    )
                &&& pairs(plan.edges@) == edges(all, all.len())
            }
        }),
{
    let ghost all = nodes(tree@);
    let root: usize = root_place(tree);
    if root == tree.len() {
        return Some(RadialPlan { total: 0, slices: Vec::new(), edges: Vec::new() });
    }
    let fuel: u64 = tree.len() as u64;
    let server = tree[root].server.as_str();
    let total: u32 = match count_leaves(tree, server, fuel) {
        Some(total) => total,
        None => return None,
    };
    let mut given: StringHashMap<Slice> = StringHashMap::new();
    assert(spans(given@) =~= Map::empty());
    slice_down(tree, server, 0, fuel, &mut given);
    let mut slices: Vec<Option<Slice>> = Vec::new();
    let mut i: usize = 0;
    while i < tree.len()
        invariant
            i <= tree@.len(),
            all == nodes(tree@),
            slices@.len() == i,
            spans(given@) == all_slices(all),
            forall|j: int|
                0 <= j < i ==> opt_span(#[trigger] slices@[j]) == span_of(
                    all_slices(all),
                    all[j].server,
                ),
        decreases tree@.len() - i,
    {
        let slice = match given.get(tree[i].server.as_str()) {
            Some(slice) => Some(*slice),
            None => None,
        };
        assert(opt_span(slice) == span_of(spans(given@), all[i as int].server));
        slices.push(slice);
        i += 1;
    }
    let edges = all_edges(tree);
    Some(RadialPlan { total, slices, edges })
}

/// Whether no two nodes have one name.
pub open spec fn has_unique_names(tree: Seq<NodeView>) -> bool {
    forall|i: int, j: int|
        0 <= i < j < tree.len() ==> (#[trigger] tree[i]).server != (#[trigger] tree[j]).server
}

proof fn lemma_last_named(tree: Seq<NodeView>, j: int, n: nat)
    requires
        has_unique_names(tree),
        0 <= j < tree.len(),
        n <= tree.len(),
    ensures
        last_named(tree, tree[j].server, n) == if j < n {
            Some(j)
        } else {
            None
        },
    decreases n,
{
    if n > 0 {
        lemma_last_named(tree, j, (n - 1) as nat);
        if j < n - 1 {
            assert(tree[j].server != tree[n - 1].server);
        } else if j > n - 1 {
            assert(tree[n - 1].server != tree[j].server);
        }
    }
}

/// An edge leads from a node to each node that names it as its parent, and
/// there are no others.
pub proof fn edges_lead_from_parents_to_children(tree: Seq<NodeView>, n: nat, i: int, j: int)
    requires
        has_unique_names(tree),
        n <= tree.len(),
        0 <= i < tree.len(),
        0 <= j < tree.len(),
    ensures
        edges(tree, n).contains((j, i)) <==> i < n && tree[i].parent == Some(tree[j].server),
    decreases n,
{
    let all = edges(tree, n);
    if n > 0 {
        let before = edges(tree, (n - 1) as nat);
        edges_lead_from_parents_to_children(tree, (n - 1) as nat, i, j);
        lemma_last_named(tree, j, tree.len());
        lemma_last_named(tree, n - 1, tree.len());
        match edge_of(tree, n - 1) {
            Some(edge) => {
                assert(all =~= before.push(edge));
                assert(edge.1 == n - 1);
                let from = edge.0;
                lemma_names_last(tree, tree[n - 1].parent->0, tree.len());
                if before.contains((j, i)) {
                    let k = choose|k: int| 0 <= k < before.len() && before[k] == (j, i);
                    assert(all[k] == (j, i));
                }
                if i == n - 1 && tree[i].parent == Some(tree[j].server) {
                    assert(all[before.len() as int] == (j, i));
                }
                if all.contains((j, i)) && !before.contains((j, i)) {
                    let k = choose|k: int| 0 <= k < all.len() && all[k] == (j, i);
                    if k < before.len() {
                        assert(before[k] == (j, i));
                    }
                    assert(edge == (j, i));
                }
            },
            None => {
                if i == n - 1 && tree[i].parent == Some(tree[j].server) {
                    assert(false);
                }
            },
        }
    }
}

proof fn lemma_names_last(tree: Seq<NodeView>, server: Seq<char>, n: nat)
    requires
        n <= tree.len(),
    ensures
        last_named(tree, server, n) matches Some(at) ==> 0 <= at < n && tree[at].server == server,
    decreases n,
{
    if n > 0 {
        lemma_names_last(tree, server, (n - 1) as nat);
    }
}

/// The root is the first node that says so.
pub proof fn the_first_root_counts(tree: Seq<NodeView>, place: int)
    requires
        0 <= place <= tree.len(),
        forall|i: int| 0 <= i < place ==> !(#[trigger] tree[i]).is_root,
        place < tree.len() ==> tree[place].is_root,
    ensures
        root_at(tree) == place,
    decreases tree.len(),
{
    if place > 0 {
        let others = tree.drop_first();
        assert(!tree[0].is_root);
        assert forall|i: int| 0 <= i < place - 1 implies !(#[trigger] others[i]).is_root by {
            assert(others[i] == tree[i + 1]);
        }
        if place < tree.len() {
            assert(others[place - 1] == tree[place]);
        }
        the_first_root_counts(others, place - 1);
    }
}

/// A server that no node hangs from is one leaf.
pub proof fn a_server_without_children_is_a_leaf(tree: Seq<NodeView>, server: Seq<char>, fuel: nat)
    requires
        forall|i: int| 0 <= i < tree.len() ==> (#[trigger] tree[i]).parent != Some(server),
    ensures
        leaves(tree, server, fuel) == 1,
{
    children_are_in_order(tree, server, tree.len());
    let list = kids(tree, server);
    if list.len() > 0 {
        assert(list.contains(list[0]));
        assert(tree[list[0]].parent == Some(server));
    }
}

/// Whether a server leads to another within so many steps down.
pub open spec fn reaches(
    tree: Seq<NodeView>,
    server: Seq<char>,
    other: Seq<char>,
    steps: nat,
) -> bool
    decreases steps,
{
    other == server || (steps > 0 && exists|k: int|
        0 <= k < kids(tree, server).len() && reaches(
            tree,
            tree[#[trigger] kids(tree, server)[k]].server,
            other,
            (steps - 1) as nat,
        ))
}

/// How wide the slices of the first `k` of some nodes are together.
pub open spec fn width(
    tree: Seq<NodeView>,
    given: Map<Seq<char>, Span>,
    list: Seq<int>,
    k: nat,
) -> nat
    decreases k,
{
    if k == 0 {
        0
    } else {
        width(tree, given, list, (k - 1) as nat) + given[tree[list[k - 1]].server].count
    }
}

/// Whether the slices of a server's children lie side by side in its own, in
/// the order of the children: each begins where those before it end, and all
/// together they fill it.
pub open spec fn is_filled(
    tree: Seq<NodeView>,
    given: Map<Seq<char>, Span>,
    server: Seq<char>,
) -> bool {
    let list = kids(tree, server);
    &&& given.contains_key(server)
    &&& given[server].count == width(tree, given, list, list.len())
    &&& forall|k: int|
        0 <= k < list.len() ==> {
            let child = tree[#[trigger] list[k]].server;
            given.contains_key(child) && given[child].first == given[server].first + width(
                tree,
                given,
                list,
                k as nat,
            )
        }
}

proof fn lemma_kid(tree: Seq<NodeView>, server: Seq<char>, k: int)
    requires
        0 <= k < kids(tree, server).len(),
    ensures
        0 <= kids(tree, server)[k] < tree.len(),
        tree[kids(tree, server)[k]].parent == Some(server),
{
    children_are_in_order(tree, server, tree.len());
    assert(kids(tree, server).contains(kids(tree, server)[k]));
    let i = kids(tree, server)[k];
    assert(tree[i].parent == Some(server));
}

/// What a node leads to is that node or has a greater rank.
proof fn lemma_reached_rank(
    tree: Seq<NodeView>,
    ranks: Seq<nat>,
    a: int,
    other: Seq<char>,
    steps: nat,
) -> (b: int)
    requires
        is_ranked_by(tree, ranks),
        0 <= a < tree.len(),
        reaches(tree, tree[a].server, other, steps),
    ensures
        0 <= b < tree.len(),
        tree[b].server == other,
        b == a || ranks[b] > ranks[a],
    decreases steps,
{
    if other == tree[a].server {
        a
    } else {
        let list = kids(tree, tree[a].server);
        let k = choose|k: int|
            0 <= k < list.len() && reaches(
                tree,
                tree[#[trigger] list[k]].server,
                other,
                (steps - 1) as nat,
            );
        lemma_kid(tree, tree[a].server, k);
        let c = list[k];
        assert(ranks[a] < ranks[c]);
        lemma_reached_rank(tree, ranks, c, other, (steps - 1) as nat)
    }
}

/// What leads to a node leads to its parent, unless it is the node itself.
proof fn lemma_parent_reached(
    tree: Seq<NodeView>,
    ranks: Seq<nat>,
    a: int,
    x: int,
    steps: nat,
) -> (q: int)
    requires
        is_ranked_by(tree, ranks),
        has_unique_names(tree),
        0 <= a < tree.len(),
        0 <= x < tree.len(),
        reaches(tree, tree[a].server, tree[x].server, steps),
        x != a,
    ensures
        0 <= q < tree.len(),
        tree[x].parent == Some(tree[q].server),
        reaches(tree, tree[a].server, tree[q].server, steps),
    decreases steps,
{
    assert(tree[x].server != tree[a].server) by {
        if x < a {
            assert(tree[x].server != tree[a].server);
        } else {
            assert(tree[a].server != tree[x].server);
        }
    }
    let list = kids(tree, tree[a].server);
    let k = choose|k: int|
        0 <= k < list.len() && reaches(
            tree,
            tree[#[trigger] list[k]].server,
            tree[x].server,
            (steps - 1) as nat,
        );
    lemma_kid(tree, tree[a].server, k);
    let c = list[k];
    if c == x {
        a
    } else {
        let q = lemma_parent_reached(tree, ranks, c, x, (steps - 1) as nat);
        assert(reaches(tree, tree[list[k]].server, tree[q].server, (steps - 1) as nat));
        q
    }
}

/// Two children of one server lead to nothing in common.
proof fn lemma_apart(
    tree: Seq<NodeView>,
    ranks: Seq<nat>,
    r: int,
    a: int,
    b: int,
    x: int,
    steps: nat,
    other: nat,
)
    requires
        is_ranked_by(tree, ranks),
        has_unique_names(tree),
        0 <= r < tree.len(),
        0 <= a < tree.len(),
        0 <= b < tree.len(),
        0 <= x < tree.len(),
        a != b,
        tree[a].parent == Some(tree[r].server),
        tree[b].parent == Some(tree[r].server),
        reaches(tree, tree[a].server, tree[x].server, steps),
    ensures
        !reaches(tree, tree[b].server, tree[x].server, other),
    decreases ranks[x],
{
    assert(ranks[r] < ranks[a] && ranks[r] < ranks[b]);
    if reaches(tree, tree[b].server, tree[x].server, other) {
        if x != a && x != b {
            let q = lemma_parent_reached(tree, ranks, a, x, steps);
            let p = lemma_parent_reached(tree, ranks, b, x, other);
            lemma_same_name(tree, p, q);
            assert(ranks[q] < ranks[x]);
            lemma_apart(tree, ranks, r, a, b, q, steps, other);
        } else {
            let (from, fuel) = if x == a {
                (b, other)
            } else {
                (a, steps)
            };
            let q = lemma_parent_reached(tree, ranks, from, x, fuel);
            lemma_same_name(tree, q, r);
            let c = lemma_reached_rank(tree, ranks, from, tree[q].server, fuel);
            lemma_same_name(tree, c, q);
        }
    }
}

proof fn lemma_same_name(tree: Seq<NodeView>, i: int, j: int)
    requires
        has_unique_names(tree),
        0 <= i < tree.len(),
        0 <= j < tree.len(),
        tree[i].server == tree[j].server,
    ensures
        i == j,
{
    if i < j {
        assert(tree[i].server != tree[j].server);
    } else if j < i {
        assert(tree[j].server != tree[i].server);
    }
}

/// Slices are given out only to what is reached.
proof fn lemma_others_stay(
    tree: Seq<NodeView>,
    server: Seq<char>,
    other: Seq<char>,
    first: nat,
    fuel: nat,
    given: Map<Seq<char>, Span>,
)
    requires
        !reaches(tree, server, other, fuel),
    ensures
        ({
            let all = sliced(tree, server, first, fuel, given);
            &&& all.contains_key(other) == given.contains_key(other)
            &&& all[other] == given[other]
        }),
    decreases fuel, 0nat,
{
    if fuel > 0 {
        let own = given.insert(server, Span { first, count: leaves(tree, server, fuel) });
        let list = kids(tree, server);
        assert forall|k: int| 0 <= k < list.len() implies !reaches(
            tree,
            tree[#[trigger] list[k]].server,
            other,
            (fuel - 1) as nat,
        ) by {}
        lemma_others_stay_all(tree, list, other, first, (fuel - 1) as nat, own);
    }
}

proof fn lemma_others_stay_all(
    tree: Seq<NodeView>,
    list: Seq<int>,
    other: Seq<char>,
    first: nat,
    fuel: nat,
    given: Map<Seq<char>, Span>,
)
    requires
        forall|k: int|
            0 <= k < list.len() ==> !reaches(tree, tree[#[trigger] list[k]].server, other, fuel),
    ensures
        ({
            let all = sliced_all(tree, list, first, fuel, given);
            &&& all.contains_key(other) == given.contains_key(other)
            &&& all[other] == given[other]
        }),
    decreases fuel, list.len() + 1,
{
    if list.len() > 0 {
        let before = list.drop_last();
        assert forall|k: int| 0 <= k < before.len() implies !reaches(
            tree,
            tree[#[trigger] before[k]].server,
            other,
            fuel,
        ) by {
            assert(before[k] == list[k]);
        }
        lemma_others_stay_all(tree, before, other, first, fuel, given);
        assert(!reaches(tree, tree[list[list.len() - 1]].server, other, fuel));
        lemma_others_stay(
            tree,
            tree[list.last()].server,
            other,
            first + leaves_of(tree, before, fuel),
            fuel,
            sliced_all(tree, before, first, fuel, given),
        );
    }
}

/// A server keeps the slice that it is given.
proof fn lemma_own_slice(
    tree: Seq<NodeView>,
    ranks: Seq<nat>,
    at: int,
    first: nat,
    fuel: nat,
    given: Map<Seq<char>, Span>,
)
    requires
        is_ranked_by(tree, ranks),
        has_unique_names(tree),
        0 <= at < tree.len(),
    ensures
        ({
            let all = sliced(tree, tree[at].server, first, fuel, given);
            &&& all.contains_key(tree[at].server)
            &&& all[tree[at].server] == (Span {
                first,
                count: leaves(tree, tree[at].server, fuel),
            })
        }),
{
    let server = tree[at].server;
    if fuel > 0 {
        let own = given.insert(server, Span { first, count: leaves(tree, server, fuel) });
        let list = kids(tree, server);
        assert forall|k: int| 0 <= k < list.len() implies !reaches(
            tree,
            tree[#[trigger] list[k]].server,
            server,
            (fuel - 1) as nat,
        ) by {
            lemma_kid(tree, server, k);
            if reaches(tree, tree[list[k]].server, server, (fuel - 1) as nat) {
                let b = lemma_reached_rank(tree, ranks, list[k], server, (fuel - 1) as nat);
                lemma_same_name(tree, b, at);
                assert(ranks[at] < ranks[list[k]]);
            }
        }
        lemma_others_stay_all(tree, list, server, first, (fuel - 1) as nat, own);
    }
}

/// What one child of a server leads to, a later one does not.
proof fn lemma_siblings_apart(
    tree: Seq<NodeView>,
    ranks: Seq<nat>,
    r: int,
    j: int,
    k: int,
    x: int,
    fuel: nat,
)
    requires
        is_ranked_by(tree, ranks),
        has_unique_names(tree),
        0 <= r < tree.len(),
        0 <= j < k < kids(tree, tree[r].server).len(),
        0 <= x < tree.len(),
        reaches(tree, tree[kids(tree, tree[r].server)[j]].server, tree[x].server, fuel),
    ensures
        !reaches(tree, tree[kids(tree, tree[r].server)[k]].server, tree[x].server, fuel),
{
    let list = kids(tree, tree[r].server);
    lemma_kid(tree, tree[r].server, j);
    lemma_kid(tree, tree[r].server, k);
    lemma_kids_differ(tree, tree[r].server, tree.len(), j, k);
    lemma_apart(tree, ranks, r, list[j], list[k], x, fuel, fuel);
}

/// No child comes twice.
proof fn lemma_kids_differ(tree: Seq<NodeView>, server: Seq<char>, n: nat, j: int, k: int)
    requires
        n <= tree.len(),
        0 <= j < k < children(tree, server, n).len(),
    ensures
        children(tree, server, n)[j] != children(tree, server, n)[k],
    decreases n,
{
    if n > 0 {
        let before = children(tree, server, (n - 1) as nat);
        let all = children(tree, server, n);
        children_are_in_order(tree, server, (n - 1) as nat);
        if tree[n - 1].parent == Some(server) {
            let s = spot(tree, before, n - 1);
            lemma_spot_within(tree, before, n - 1);
            assert(all =~= before.insert(s, n - 1));
            let jj = if j < s {
                j
            } else {
                j - 1
            };
            let kk = if k < s {
                k
            } else {
                k - 1
            };
            if j != s && k != s {
                assert(all[j] == before[jj] && all[k] == before[kk]);
                lemma_kids_differ(tree, server, (n - 1) as nat, jj, kk);
            } else if j == s {
                assert(all[k] == before[kk]);
                assert(before.contains(before[kk]));
                assert(tree[before[kk]].parent == Some(server));
                assert(before[kk] < n - 1);
            } else {
                assert(all[j] == before[jj]);
                assert(before.contains(before[jj]));
                assert(tree[before[jj]].parent == Some(server));
                assert(before[jj] < n - 1);
            }
        } else {
            lemma_kids_differ(tree, server, (n - 1) as nat, j, k);
        }
    }
}

proof fn lemma_spot_within(tree: Seq<NodeView>, list: Seq<int>, i: int)
    ensures
        0 <= spot(tree, list, i) <= list.len(),
    decreases list.len(),
{
    if !(list.len() == 0 || !precedes(tree[i].server, tree[list.last()].server)) {
        lemma_spot_within(tree, list.drop_last(), i);
    }
}

/// Each child gets the slice behind those of the children before it.
proof fn lemma_slice_of_child(
    tree: Seq<NodeView>,
    ranks: Seq<nat>,
    r: int,
    m: int,
    k: int,
    first: nat,
    fuel: nat,
    given: Map<Seq<char>, Span>,
)
    requires
        is_ranked_by(tree, ranks),
        has_unique_names(tree),
        0 <= r < tree.len(),
        0 <= k < m <= kids(tree, tree[r].server).len(),
    ensures
        ({
            let list = kids(tree, tree[r].server);
            let all = sliced_all(tree, list.take(m), first, fuel, given);
            let child = tree[list[k]].server;
            &&& all.contains_key(child)
            &&& all[child] == (Span {
                first: first + leaves_of(tree, list.take(k), fuel),
                count: leaves(tree, child, fuel),
            })
        }),
    decreases m,
{
    let list = kids(tree, tree[r].server);
    let here = list.take(m);
    assert(here.drop_last() =~= list.take(m - 1));
    assert(here.last() == list[m - 1]);
    let before = sliced_all(tree, list.take(m - 1), first, fuel, given);
    let from = first + leaves_of(tree, list.take(m - 1), fuel);
    lemma_kid(tree, tree[r].server, m - 1);
    lemma_kid(tree, tree[r].server, k);
    if k == m - 1 {
        lemma_own_slice(tree, ranks, list[k], from, fuel, before);
    } else {
        lemma_slice_of_child(tree, ranks, r, m - 1, k, first, fuel, given);
        lemma_siblings_apart(tree, ranks, r, k, m - 1, list[k], fuel);
        lemma_others_stay(tree, tree[list[m - 1]].server, tree[list[k]].server, from, fuel, before);
    }
}

proof fn lemma_filled_stays(
    tree: Seq<NodeView>,
    before: Map<Seq<char>, Span>,
    after: Map<Seq<char>, Span>,
    server: Seq<char>,
)
    requires
        is_filled(tree, before, server),
        after.contains_key(server),
        after[server] == before[server],
        forall|k: int|
            0 <= k < kids(tree, server).len() ==> {
                let child = tree[#[trigger] kids(tree, server)[k]].server;
                after.contains_key(child) && after[child] == before[child]
            },
    ensures
        is_filled(tree, after, server),
{
    let list = kids(tree, server);
    lemma_width_stays(tree, before, after, list, list.len());
    assert forall|k: int| 0 <= k < list.len() implies ({
        let child = tree[#[trigger] list[k]].server;
        after.contains_key(child) && after[child].first == after[server].first + width(
            tree,
            after,
            list,
            k as nat,
        )
    }) by {
        lemma_width_stays(tree, before, after, list, k as nat);
    }
}

proof fn lemma_width_stays(
    tree: Seq<NodeView>,
    before: Map<Seq<char>, Span>,
    after: Map<Seq<char>, Span>,
    list: Seq<int>,
    k: nat,
)
    requires
        k <= list.len(),
        forall|j: int|
            0 <= j < list.len() ==> after[tree[#[trigger] list[j]].server]
                == before[tree[list[j]].server],
    ensures
        width(tree, after, list, k) == width(tree, before, list, k),
    decreases k,
{
    if k > 0 {
        lemma_width_stays(tree, before, after, list, (k - 1) as nat);
        assert(after[tree[list[k - 1]].server] == before[tree[list[k - 1]].server]);
    }
}

proof fn lemma_width_is(
    tree: Seq<NodeView>,
    given: Map<Seq<char>, Span>,
    list: Seq<int>,
    k: nat,
    fuel: nat,
)
    requires
        k <= list.len(),
        forall|j: int|
            0 <= j < list.len() ==> given[tree[#[trigger] list[j]].server].count == leaves(
                tree,
                tree[list[j]].server,
                fuel,
            ),
    ensures
        width(tree, given, list, k) == leaves_of(tree, list.take(k as int), fuel),
    decreases k,
{
    if k > 0 {
        lemma_width_is(tree, given, list, (k - 1) as nat, fuel);
        let here = list.take(k as int);
        assert(here.drop_last() =~= list.take(k - 1));
        assert(here.last() == list[k - 1]);
        assert(given[tree[list[k - 1]].server].count == leaves(
            tree,
            tree[list[k - 1]].server,
            fuel,
        ));
    }
}

proof fn lemma_filled(
    tree: Seq<NodeView>,
    ranks: Seq<nat>,
    at: int,
    i: int,
    first: nat,
    fuel: nat,
    given: Map<Seq<char>, Span>,
)
    requires
        is_ranked_by(tree, ranks),
        has_unique_names(tree),
        0 <= at < tree.len(),
        0 <= i < tree.len(),
        fuel > 0,
        kids(tree, tree[i].server).len() > 0,
        reaches(tree, tree[at].server, tree[i].server, (fuel - 1) as nat),
    ensures
        is_filled(tree, sliced(tree, tree[at].server, first, fuel, given), tree[i].server),
    decreases fuel, 0nat,
{
    let server = tree[at].server;
    let list = kids(tree, server);
    let all = sliced(tree, server, first, fuel, given);
    let less = (fuel - 1) as nat;
    let own = given.insert(server, Span { first, count: leaves(tree, server, fuel) });
    assert(list.take(list.len() as int) =~= list);
    if tree[i].server == server {
        lemma_same_name(tree, i, at);
        lemma_own_slice(tree, ranks, at, first, fuel, given);
        assert forall|k: int| 0 <= k < list.len() implies ({
            let child = tree[#[trigger] list[k]].server;
            all.contains_key(child) && all[child] == (Span {
                first: first + leaves_of(tree, list.take(k), less),
                count: leaves(tree, child, less),
            })
        }) by {
            lemma_slice_of_child(tree, ranks, at, list.len() as int, k, first, less, own);
        }
        lemma_width_is(tree, all, list, list.len(), less);
        assert forall|k: int| 0 <= k < list.len() implies ({
            let child = tree[#[trigger] list[k]].server;
            all.contains_key(child) && all[child].first == all[server].first + width(
                tree,
                all,
                list,
                k as nat,
            )
        }) by {
            lemma_width_is(tree, all, list, k as nat, less);
        }
    } else {
        let k = choose|k: int|
            0 <= k < list.len() && reaches(
                tree,
                tree[#[trigger] list[k]].server,
                tree[i].server,
                (less - 1) as nat,
            );
        lemma_filled_below(tree, ranks, at, list.len() as int, k, i, first, less, own);
    }
}

proof fn lemma_filled_below(
    tree: Seq<NodeView>,
    ranks: Seq<nat>,
    r: int,
    m: int,
    k: int,
    i: int,
    first: nat,
    fuel: nat,
    given: Map<Seq<char>, Span>,
)
    requires
        is_ranked_by(tree, ranks),
        has_unique_names(tree),
        0 <= r < tree.len(),
        0 <= i < tree.len(),
        0 <= k < m <= kids(tree, tree[r].server).len(),
        fuel > 0,
        kids(tree, tree[i].server).len() > 0,
        reaches(
            tree,
            tree[kids(tree, tree[r].server)[k]].server,
            tree[i].server,
            (fuel - 1) as nat,
        ),
    ensures
        is_filled(
            tree,
            sliced_all(tree, kids(tree, tree[r].server).take(m), first, fuel, given),
            tree[i].server,
        ),
    decreases fuel, m + 1,
{
    let list = kids(tree, tree[r].server);
    let here = list.take(m);
    assert(here.drop_last() =~= list.take(m - 1));
    assert(here.last() == list[m - 1]);
    let before = sliced_all(tree, list.take(m - 1), first, fuel, given);
    let from = first + leaves_of(tree, list.take(m - 1), fuel);
    lemma_kid(tree, tree[r].server, m - 1);
    lemma_kid(tree, tree[r].server, k);
    let last = tree[list[m - 1]].server;
    if k == m - 1 {
        lemma_filled(tree, ranks, list[k], i, from, fuel, before);
    } else {
        lemma_filled_below(tree, ranks, r, m - 1, k, i, first, fuel, given);
        let start = tree[list[k]].server;
        let below = kids(tree, tree[i].server);
        let after = sliced(tree, last, from, fuel, before);
        lemma_one_more_step(tree, start, tree[i].server, (fuel - 1) as nat, -1);
        lemma_siblings_apart(tree, ranks, r, k, m - 1, i, fuel);
        lemma_others_stay(tree, last, tree[i].server, from, fuel, before);
        assert forall|j: int| 0 <= j < below.len() implies ({
            let child = tree[#[trigger] below[j]].server;
            after.contains_key(child) && after[child] == before[child]
        }) by {
            lemma_kid(tree, tree[i].server, j);
            lemma_one_more_step(tree, start, tree[i].server, (fuel - 1) as nat, j);
            lemma_siblings_apart(tree, ranks, r, k, m - 1, below[j], fuel);
            lemma_others_stay(tree, last, tree[below[j]].server, from, fuel, before);
        }
        lemma_filled_stays(tree, before, after, tree[i].server);
    }
}

/// What is reached is reached with a step more, and so are its children.
proof fn lemma_one_more_step(
    tree: Seq<NodeView>,
    server: Seq<char>,
    other: Seq<char>,
    steps: nat,
    j: int,
)
    requires
        reaches(tree, server, other, steps),
    ensures
        reaches(tree, server, other, steps + 1),
        0 <= j < kids(tree, other).len() ==> reaches(
            tree,
            server,
            tree[kids(tree, other)[j]].server,
            steps + 1,
        ),
    decreases steps,
{
    if other == server {
        if 0 <= j < kids(tree, other).len() {
            let child = tree[kids(tree, server)[j]].server;
            assert(reaches(tree, child, child, steps));
            assert(reaches(tree, tree[kids(tree, server)[j]].server, child, steps));
        }
    } else {
        let list = kids(tree, server);
        let k = choose|k: int|
            0 <= k < list.len() && reaches(
                tree,
                tree[#[trigger] list[k]].server,
                other,
                (steps - 1) as nat,
            );
        lemma_one_more_step(tree, tree[list[k]].server, other, (steps - 1) as nat, j);
        assert(reaches(tree, tree[list[k]].server, other, steps));
    }
}

/// The root has the whole round, and the slices of a server's children lie
/// side by side in its own, in the order of their names, and fill it. This
/// holds of every server with children that the root leads to, where no two
/// have one name and no way down runs in a circle.
pub proof fn children_fill_the_slice_of_their_parent(
    tree: Seq<NodeView>,
    ranks: Seq<nat>,
    i: int,
)
    requires
        is_ranked_by(tree, ranks),
        has_unique_names(tree),
        0 <= root_at(tree) < tree.len(),
        0 <= i < tree.len(),
        kids(tree, tree[i].server).len() > 0,
        reaches(tree, tree[root_at(tree)].server, tree[i].server, (tree.len() - 1) as nat),
    ensures
        is_filled(tree, all_slices(tree), tree[i].server),
        all_slices(tree)[tree[root_at(tree)].server] == (Span {
            first: 0,
            count: all_leaves(tree),
        }),
{
    let root = root_at(tree);
    lemma_filled(tree, ranks, root, i, 0, levels(tree), Map::empty());
    lemma_own_slice(tree, ranks, root, 0, levels(tree), Map::empty());
}

/// A server without children has a slice as wide as one leaf.
pub proof fn a_leaf_has_one_share(tree: Seq<NodeView>, ranks: Seq<nat>, i: int, k: int)
    requires
        is_ranked_by(tree, ranks),
        has_unique_names(tree),
        0 <= root_at(tree) < tree.len(),
        0 <= k < kids(tree, tree[root_at(tree)].server).len(),
        i == kids(tree, tree[root_at(tree)].server)[k],
        kids(tree, tree[i].server).len() == 0,
    ensures
        all_slices(tree)[tree[i].server].count == 1,
{
    let root = root_at(tree);
    let list = kids(tree, tree[root].server);
    let own = Map::<Seq<char>, Span>::empty().insert(
        tree[root].server,
        Span { first: 0, count: leaves(tree, tree[root].server, levels(tree)) },
    );
    assert(list.take(list.len() as int) =~= list);
    lemma_slice_of_child(
        tree,
        ranks,
        root,
        list.len() as int,
        k,
        0,
        (levels(tree) - 1) as nat,
        own,
    );
}

} // verus!
