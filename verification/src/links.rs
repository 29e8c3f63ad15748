//! Reconstruction of a network's topology from a `/links` reply.
//!
//! The reply is a flat list of `(server, linked_to)` edges: `linked_to` is
//! each server's uplink (its parent), and the root links to itself, at
//! `hopcount` zero. [`build_links_tree`] rebuilds the spanning tree from it,
//! also from a masked or partial reply.

use vstd::hash_map::StringHashMap;
use vstd::prelude::*;

use crate::split::same_text;
use crate::text::opt;

verus! {

/// One `(server, linked_to)` edge as it arrives on the wire.
#[derive(Debug, Clone, PartialEq)]
pub struct LinksEntry {
    pub server: String,
    pub linked_to: Option<String>,
    pub hopcount: Option<i64>,
    pub description: Option<String>,
}

/// One reconstructed tree node: `depth` is the reconstruction (it drives
/// indentation), `hopcount` is the reported value verbatim. The two are kept
/// distinct, since they can differ on a masked or partial reply.
#[derive(Debug, Clone, PartialEq)]
pub struct LinksNode {
    pub server: String,
    pub description: Option<String>,
    pub hopcount: Option<i64>,
    pub depth: u32,
    pub parent: Option<String>,
    pub is_root: bool,
}

/// Where a server stands in the tree.
pub struct Spot {
    pub depth: nat,
    pub parent: Option<Seq<char>>,
}

/// What a tree node says.
pub struct NodeView {
    pub server: Seq<char>,
    pub description: Option<Seq<char>>,
    pub hopcount: Option<i64>,
    pub depth: nat,
    pub parent: Option<Seq<char>>,
    pub is_root: bool,
}

impl View for LinksNode {
    type V = NodeView;

    open spec fn view(&self) -> NodeView {
        NodeView {
            server: self.server@,
            description: opt(self.description),
            hopcount: self.hopcount,
            depth: self.depth as nat,
            parent: opt(self.parent),
            is_root: self.is_root,
        }
    }
}

struct Place {
    depth: u32,
    parent: Option<String>,
}

impl View for Place {
    type V = Spot;

    closed spec fn view(&self) -> Spot {
        Spot { depth: self.depth as nat, parent: opt(self.parent) }
    }
}

pub open spec fn is_self_linked(entry: LinksEntry) -> bool {
    opt(entry.linked_to) == Some(entry.server@)
}

/// The hop count of an entry; one without counts as the farthest.
pub open spec fn hops(entry: LinksEntry) -> int {
    match entry.hopcount {
        Some(n) => n as int,
        None => i64::MAX as int,
    }
}

/// Whether entry `r` gives the root: the first that links to itself, or,
/// without such an entry, the first with the fewest hops.
pub open spec fn leads(entries: Seq<LinksEntry>, r: int) -> bool {
    &&& 0 <= r < entries.len()
    &&& if exists|i: int| 0 <= i < entries.len() && is_self_linked(#[trigger] entries[i]) {
        is_self_linked(entries[r]) && forall|i: int|
            0 <= i < r ==> !is_self_linked(#[trigger] entries[i])
    } else {
        &&& forall|i: int| 0 <= i < r ==> hops(entries[r]) < hops(#[trigger] entries[i])
        &&& forall|i: int|
            r <= i < entries.len() ==> hops(entries[r]) <= hops(#[trigger] entries[i])
    }
}

/// The server at the root.
pub open spec fn root_of(entries: Seq<LinksEntry>) -> Seq<char> {
    let r = choose|r: int| leads(entries, r);
    entries[r].server@
}

pub open spec fn is_listed(entries: Seq<LinksEntry>, server: Seq<char>) -> bool {
    exists|i: int| 0 <= i < entries.len() && #[trigger] entries[i].server@ == server
}

/// The uplink of an entry, where it is another server of the reply.
pub open spec fn uplink(entries: Seq<LinksEntry>, entry: LinksEntry) -> Option<Seq<char>> {
    match entry.linked_to {
        Some(parent) => if parent@ != entry.server@ && is_listed(entries, parent@) {
            Some(parent@)
        } else {
            None
        },
        None => None,
    }
}

/// The parent that an entry asks for: its uplink, else the root.
pub open spec fn parent_by(entries: Seq<LinksEntry>, entry: LinksEntry) -> Seq<char> {
    match uplink(entries, entry) {
        Some(parent) => parent,
        None => root_of(entries),
    }
}

/// The servers placed once `entry` has been looked at: it goes under its
/// uplink as soon as that is placed, and under the root when it has none.
pub open spec fn attach(
    entries: Seq<LinksEntry>,
    placed: Map<Seq<char>, Spot>,
    entry: LinksEntry,
) -> Map<Seq<char>, Spot> {
    if placed.contains_key(entry.server@) {
        placed
    } else {
        match uplink(entries, entry) {
            Some(parent) => if placed.contains_key(parent) {
                placed.insert(
                    entry.server@,
                    Spot { depth: placed[parent].depth + 1, parent: Some(parent) },
                )
            } else {
                placed
            },
            None => placed.insert(
                entry.server@,
                Spot { depth: 1, parent: Some(root_of(entries)) },
            ),
        }
    }
}

/// The servers placed once the first `k` entries have been looked at.
pub open spec fn pass(
    entries: Seq<LinksEntry>,
    placed: Map<Seq<char>, Spot>,
    k: nat,
) -> Map<Seq<char>, Spot>
    decreases k,
{
    if k == 0 {
        placed
    } else {
        attach(entries, pass(entries, placed, (k - 1) as nat), entries[k - 1])
    }
}

/// The servers placed by `n` passes over the whole reply, from the root alone.
pub open spec fn passes(entries: Seq<LinksEntry>, n: nat) -> Map<Seq<char>, Spot>
    decreases n,
{
    if n == 0 {
        Map::empty().insert(root_of(entries), Spot { depth: 0, parent: None })
    } else {
        pass(entries, passes(entries, (n - 1) as nat), entries.len())
    }
}

/// Every server that uplinks connect to the root, or to a server without a
/// usable uplink. Each pass but the last places a server more, so that as many
/// passes as there are entries suffice.
pub open spec fn connected(entries: Seq<LinksEntry>) -> Map<Seq<char>, Spot> {
    passes(entries, entries.len())
}

/// Where a server stands: under its uplink when that is connected, else (in
/// an isolated cycle) right under the root.
pub open spec fn spot_of(entries: Seq<LinksEntry>, server: Seq<char>) -> Spot {
    if connected(entries).contains_key(server) {
        connected(entries)[server]
    } else {
        Spot { depth: 1, parent: Some(root_of(entries)) }
    }
}

/// The node that an entry becomes.
pub open spec fn node_of(entries: Seq<LinksEntry>, entry: LinksEntry) -> NodeView {
    let spot = spot_of(entries, entry.server@);
    NodeView {
        server: entry.server@,
        description: opt(entry.description),
        hopcount: entry.hopcount,
        depth: spot.depth,
        parent: spot.parent,
        is_root: entry.server@ == root_of(entries),
    }
}

spec fn spots(places: Map<Seq<char>, Place>) -> Map<Seq<char>, Spot> {
    Map::new(|k: Seq<char>| places.contains_key(k), |k: Seq<char>| places[k]@)
}

/// How many of the first `k` entries name a server that is not placed.
spec fn missing(entries: Seq<LinksEntry>, placed: Map<Seq<char>, Spot>, k: nat) -> nat
    decreases k,
{
    if k == 0 {
        0
    } else {
        missing(entries, placed, (k - 1) as nat) + if placed.contains_key(entries[k - 1].server@) {
            0nat
        } else {
            1nat
        }
    }
}

proof fn lemma_root_is(entries: Seq<LinksEntry>, r: int)
    requires
        leads(entries, r),
    ensures
        root_of(entries) == entries[r].server@,
{
    let c = choose|c: int| leads(entries, c);
    assert(leads(entries, c));
    if c < r {
        assert(hops(entries[c]) == hops(entries[c]));
    } else if r < c {
        assert(hops(entries[r]) == hops(entries[r]));
    }
}

proof fn lemma_missing_shrinks(
    entries: Seq<LinksEntry>,
    placed: Map<Seq<char>, Spot>,
    more: Map<Seq<char>, Spot>,
    k: nat,
)
    requires
        k <= entries.len(),
        placed.submap_of(more),
    ensures
        missing(entries, more, k) <= missing(entries, placed, k) <= k,
        (exists|i: int|
            0 <= i < k && more.contains_key(#[trigger] entries[i].server@) && !placed.contains_key(
                entries[i].server@,
            )) ==> missing(entries, more, k) < missing(entries, placed, k),
    decreases k,
{
    if k > 0 {
        lemma_missing_shrinks(entries, placed, more, (k - 1) as nat);
    }
}

/// Where a pass changes nothing, no further one does.
proof fn lemma_settled(entries: Seq<LinksEntry>, k: nat, n: nat)
    requires
        passes(entries, k + 1) == passes(entries, k),
        k <= n,
    ensures
        passes(entries, n) == passes(entries, k),
    decreases n - k,
{
    if k < n {
        lemma_settled(entries, k, (n - 1) as nat);
    }
}

/// What every placed server keeps to.
pub open spec fn is_tree(entries: Seq<LinksEntry>, placed: Map<Seq<char>, Spot>) -> bool {
    let root = root_of(entries);
    &&& placed.contains_key(root) && placed[root] == (Spot { depth: 0, parent: None })
    &&& forall|s: Seq<char>| #[trigger]
        placed.contains_key(s) && s != root ==> {
            &&& placed[s].parent is Some
            &&& placed.contains_key(placed[s].parent->0)
            &&& placed[s].depth == placed[placed[s].parent->0].depth + 1
            &&& exists|i: int|
                0 <= i < entries.len() && #[trigger] entries[i].server@ == s && placed[s].parent
                    == Some(parent_by(entries, entries[i]))
        }
}

proof fn lemma_attach_keeps_tree(
    entries: Seq<LinksEntry>,
    placed: Map<Seq<char>, Spot>,
    i: int,
)
    requires
        0 <= i < entries.len(),
        is_tree(entries, placed),
    ensures
        is_tree(entries, attach(entries, placed, entries[i])),
{
    let after = attach(entries, placed, entries[i]);
    let root = root_of(entries);
    let server = entries[i].server@;
    if after != placed {
        assert(after.contains_key(server));
        assert forall|s: Seq<char>| #[trigger] after.contains_key(s) && s != root implies {
            &&& after[s].parent is Some
            &&& after.contains_key(after[s].parent->0)
            &&& after[s].depth == after[after[s].parent->0].depth + 1
            &&& exists|j: int|
                0 <= j < entries.len() && #[trigger] entries[j].server@ == s && after[s].parent
                    == Some(parent_by(entries, entries[j]))
        } by {
            if s == server {
                assert(entries[i].server@ == s);
            } else {
                assert(placed.contains_key(s));
            }
        }
    }
}

proof fn lemma_pass_keeps_tree(entries: Seq<LinksEntry>, placed: Map<Seq<char>, Spot>, k: nat)
    requires
        k <= entries.len(),
        is_tree(entries, placed),
    ensures
        is_tree(entries, pass(entries, placed, k)),
    decreases k,
{
    if k > 0 {
        lemma_pass_keeps_tree(entries, placed, (k - 1) as nat);
        lemma_attach_keeps_tree(entries, pass(entries, placed, (k - 1) as nat), k - 1);
    }
}

proof fn lemma_passes_are_tree(entries: Seq<LinksEntry>, n: nat)
    ensures
        is_tree(entries, passes(entries, n)),
    decreases n,
{
    if n > 0 {
        lemma_passes_are_tree(entries, (n - 1) as nat);
        lemma_pass_keeps_tree(entries, passes(entries, (n - 1) as nat), entries.len());
    }
}

fn hop_count(entry: &LinksEntry) -> (n: i64)
    ensures
        n == hops(*entry),
{
    match entry.hopcount {
        Some(n) => n,
        None => i64::MAX,
    }
}

fn links_itself(entry: &LinksEntry) -> (yes: bool)
    ensures
        yes == is_self_linked(*entry),
{
    match &entry.linked_to {
        Some(parent) => same_text(parent.as_str(), entry.server.as_str()),
        None => false,
    }
}

fn root_index(entries: &[LinksEntry]) -> (r: usize)
    requires
        entries@.len() > 0,
    ensures
        leads(entries@, r as int),
{
    let mut i: usize = 0;
    while i < entries.len()
        invariant
            i <= entries@.len(),
            forall|j: int| 0 <= j < i ==> !is_self_linked(#[trigger] entries@[j]),
        decreases entries@.len() - i,
    {
        if links_itself(&entries[i]) {
            assert(is_self_linked(entries@[i as int]));
            return i;
        }
        i += 1;
    }
    let mut best: usize = 0;
    let mut k: usize = 1;
    while k < entries.len()
        invariant
            best < k <= entries@.len(),
            forall|j: int| 0 <= j < best ==> hops(entries@[best as int]) < hops(
                #[trigger] entries@[j],
            ),
            forall|j: int| best <= j < k ==> hops(entries@[best as int]) <= hops(
                #[trigger] entries@[j],
            ),
        decreases entries@.len() - k,
    {
        if hop_count(&entries[k]) < hop_count(&entries[best]) {
            best = k;
        }
        k += 1;
    }
    best
}

fn copied(text: &Option<String>) -> (copy: Option<String>)
    ensures
        opt(copy) == opt(*text),
{
    match text {
        Some(text) => Some(text.clone()),
        None => None,
    }
}

/// Whether no server stands deeper than there are servers placed.
spec fn is_shallow(entries: Seq<LinksEntry>, placed: Map<Seq<char>, Spot>) -> bool {
    forall|s: Seq<char>| #[trigger]
        placed.contains_key(s) ==> placed[s].depth + missing(entries, placed, entries.len())
            <= entries.len()
}

proof fn lemma_attach_keeps_shallow(
    entries: Seq<LinksEntry>,
    placed: Map<Seq<char>, Spot>,
    i: int,
)
    requires
        0 <= i < entries.len(),
        is_shallow(entries, placed),
    ensures
        is_shallow(entries, attach(entries, placed, entries[i])),
        !placed.contains_key(entries[i].server@) ==> missing(entries, placed, entries.len()) > 0,
        attach(entries, placed, entries[i]) != placed ==> missing(
            entries,
            attach(entries, placed, entries[i]),
            entries.len(),
        ) < missing(entries, placed, entries.len()),
{
    let n = entries.len();
    let after = attach(entries, placed, entries[i]);
    let server = entries[i].server@;
    let full = placed.insert(server, Spot { depth: 0, parent: None });
    if !placed.contains_key(server) {
        assert(full.contains_key(entries[i].server@));
        lemma_missing_shrinks(entries, placed, full, n);
    }
    if after != placed {
        assert(after.contains_key(entries[i].server@));
        lemma_missing_shrinks(entries, placed, after, n);
        assert forall|s: Seq<char>| #[trigger] after.contains_key(s) implies after[s].depth
            + missing(entries, after, n) <= n by {
            if s != server {
                assert(placed.contains_key(s));
            }
        }
    }
}

/// Whether the depths of the tree can be counted. A reply of at most
/// `u32::MAX` entries has no others.
pub open spec fn depths_fit(entries: Seq<LinksEntry>) -> bool {
    entries.len() <= u32::MAX || forall|s: Seq<char>| #[trigger]
        connected(entries).contains_key(s) ==> connected(entries)[s].depth <= u32::MAX
}

/// Passes from the root on are no deeper than there are entries.
proof fn lemma_passes_are_shallow(entries: Seq<LinksEntry>, n: nat)
    ensures
        is_shallow(entries, passes(entries, n)),
    decreases n,
{
    if n == 0 {
        let start = passes(entries, 0);
        lemma_missing_shrinks(entries, start, start, entries.len());
    } else {
        lemma_passes_are_shallow(entries, (n - 1) as nat);
        lemma_pass_keeps_shallow(entries, passes(entries, (n - 1) as nat), entries.len());
    }
}

proof fn lemma_pass_keeps_shallow(entries: Seq<LinksEntry>, placed: Map<Seq<char>, Spot>, k: nat)
    requires
        k <= entries.len(),
        is_shallow(entries, placed),
    ensures
        is_shallow(entries, pass(entries, placed, k)),
    decreases k,
{
    if k > 0 {
        lemma_pass_keeps_shallow(entries, placed, (k - 1) as nat);
        lemma_attach_keeps_shallow(entries, pass(entries, placed, (k - 1) as nat), k - 1);
    }
}

proof fn lemma_depth_fits(entries: Seq<LinksEntry>, s: Seq<char>)
    requires
        depths_fit(entries),
        connected(entries).contains_key(s),
    ensures
        connected(entries)[s].depth <= u32::MAX,
{
    lemma_passes_are_shallow(entries, entries.len());
}

/// What some passes place, all of them place.
proof fn lemma_passes_keep(entries: Seq<LinksEntry>, k: nat, n: nat)
    requires
        k <= n,
    ensures
        passes(entries, k).submap_of(passes(entries, n)),
    decreases n,
{
    if k < n {
        lemma_passes_keep(entries, k, (n - 1) as nat);
        let a = passes(entries, k);
        let b = passes(entries, (n - 1) as nat);
        let c = passes(entries, n);
        lemma_pass_keeps(entries, b, 0, entries.len());
        assert forall|s: Seq<char>| #[trigger] a.dom().contains(s) implies c.dom().contains(s)
            && a[s] == c[s] by {
            assert(b.dom().contains(s));
            assert(c.dom().contains(s));
        }
    }
}

/// What stands within a pass is connected.
proof fn lemma_placed_is_connected(entries: Seq<LinksEntry>, done: nat, k: nat, s: Seq<char>)
    requires
        k <= entries.len(),
        pass(entries, passes(entries, done), k).contains_key(s),
    ensures
        connected(entries).contains_key(s),
        connected(entries)[s] == pass(entries, passes(entries, done), k)[s],
{
    let n = entries.len();
    let held = pass(entries, passes(entries, done), k);
    let after = passes(entries, done + 1);
    lemma_pass_keeps(entries, passes(entries, done), k, n);
    assert(held.dom().contains(s) && after.dom().contains(s));
    if done + 1 <= n {
        lemma_passes_keep(entries, done + 1, n);
    } else {
        lemma_connected_is_settled(entries);
        lemma_settled(entries, n, done + 1);
    }
    assert(connected(entries).dom().contains(s));
}

/// One pass over the reply, after `done` others; tells whether it placed a
/// server.
fn attach_all(
    entries: &[LinksEntry],
    listed: &StringHashMap<bool>,
    root: &String,
    places: &mut StringHashMap<Place>,
    Ghost(done): Ghost<nat>,
) -> (attached_any: bool)
    requires
        depths_fit(entries@),
        spots(old(places)@) == passes(entries@, done),
        forall|s: Seq<char>| #[trigger] listed@.contains_key(s) <==> is_listed(entries@, s),
        root@ == root_of(entries@),
        is_shallow(entries@, spots(old(places)@)),
    ensures
        spots(final(places)@) == pass(entries@, spots(old(places)@), entries@.len()),
        is_shallow(entries@, spots(final(places)@)),
        !attached_any ==> spots(final(places)@) == spots(old(places)@),
        attached_any ==> missing(entries@, spots(final(places)@), entries@.len()) < missing(
            entries@,
            spots(old(places)@),
            entries@.len(),
        ),
{
    let ghost n = entries@.len();
    let ghost before = spots(places@);
    let mut attached_any = false;
    let mut i: usize = 0;
    while i < entries.len()
        invariant
            i <= entries@.len(),
            n == entries@.len(),
            depths_fit(entries@),
            before == passes(entries@, done),
            forall|s: Seq<char>| #[trigger] listed@.contains_key(s) <==> is_listed(entries@, s),
            root@ == root_of(entries@),
            is_shallow(entries@, spots(places@)),
            spots(places@) == pass(entries@, before, i as nat),
            !attached_any ==> spots(places@) == before,
            attached_any ==> missing(entries@, spots(places@), n) < missing(entries@, before, n),
        decreases entries@.len() - i,
    {
        let entry = &entries[i];
        let ghost held = spots(places@);
        proof {
            lemma_attach_keeps_shallow(entries@, held, i as int);
        }
        if !places.contains_key(entry.server.as_str()) {
            let usable = match &entry.linked_to {
                Some(parent) => if !same_text(parent.as_str(), entry.server.as_str())
                    && listed.contains_key(parent.as_str()) {
                    Some(parent)
                } else {
                    None
                },
                None => None,
            };
            match usable {
                Some(parent) => {
                    let depth: Option<u32> = match places.get(parent.as_str()) {
                        Some(place) => Some(place.depth),
                        None => None,
                    };
                    match depth {
                        Some(depth) => {
                            assert(held.contains_key(parent@));
                            proof {
                                let next = attach(entries@, held, entries@[i as int]);
                                assert(next == pass(entries@, before, (i + 1) as nat));
                                assert(next.contains_key(entry.server@));
                                lemma_placed_is_connected(
                                    entries@,
                                    done,
                                    (i + 1) as nat,
                                    entry.server@,
                                );
                                lemma_depth_fits(entries@, entry.server@);
                            }
                            let place = Place { depth: depth + 1, parent: Some(parent.clone()) };
                            places.insert(entry.server.clone(), place);
                            assert(spots(places@) =~= held.insert(entry.server@, place@));
                            assert(spots(places@).contains_key(entry.server@));
                            attached_any = true;
                        },
                        None => {},
                    }
                },
                None => {
                    let place = Place { depth: 1, parent: Some(root.clone()) };
                    places.insert(entry.server.clone(), place);
                    assert(spots(places@) =~= held.insert(entry.server@, place@));
                    assert(spots(places@).contains_key(entry.server@));
                    attached_any = true;
                },
            }
        }
        assert(spots(places@) == attach(entries@, held, entries@[i as int]));
        i += 1;
    }
    attached_any
}

/// Reconstructs the spanning tree from a flat `/links` reply.
///
/// The root is a self-linked entry, else the one with the smallest
/// `hopcount`, else the first. Every entry ends up in the result: an uplink
/// missing from the reply, or a cycle, gets attached directly under the root
/// rather than dropped.
pub fn build_links_tree(entries: &[LinksEntry]) -> (tree: Vec<LinksNode>)
    requires
        depths_fit(entries@),
    ensures
        tree@.len() == entries@.len(),
        forall|i: int|
            0 <= i < entries@.len() ==> (#[trigger] tree@[i])@ == node_of(entries@, entries@[i]),
{
    let mut tree: Vec<LinksNode> = Vec::new();
    if entries.len() == 0 {
        return tree;
    }
    let ghost n = entries@.len();
    let r = root_index(entries);
    let root = entries[r].server.clone();
    proof {
        lemma_root_is(entries@, r as int);
    }

    let mut listed: StringHashMap<bool> = StringHashMap::new();
    let mut i: usize = 0;
    while i < entries.len()
        invariant
            i <= entries@.len(),
            forall|s: Seq<char>| #[trigger]
                listed@.contains_key(s) <==> exists|j: int|
                    0 <= j < i && #[trigger] entries@[j].server@ == s,
        decreases entries@.len() - i,
    {
        let ghost before = listed@;
        listed.insert(entries[i].server.clone(), true);
        assert forall|s: Seq<char>| #[trigger] listed@.contains_key(s) <==> exists|j: int|
            0 <= j < i + 1 && #[trigger] entries@[j].server@ == s by {
            if listed@.contains_key(s) {
                if s == entries@[i as int].server@ {
                } else {
                    assert(before.contains_key(s));
                }
            }
            if exists|j: int| 0 <= j < i + 1 && #[trigger] entries@[j].server@ == s {
                let j = choose|j: int| 0 <= j < i + 1 && #[trigger] entries@[j].server@ == s;
                if j < i {
                    assert(before.contains_key(s));
                }
            }
        }
        i += 1;
    }

    let mut places: StringHashMap<Place> = StringHashMap::new();
    let start = Place { depth: 0, parent: None };
    places.insert(root.clone(), start);
    proof {
        assert(spots(places@) =~= passes(entries@, 0));
        lemma_missing_shrinks(entries@, spots(places@), spots(places@), n);
    }
    let ghost mut done: nat = 0;
    loop
        invariant_except_break
            n == entries@.len(),
            depths_fit(entries@),
            forall|s: Seq<char>| #[trigger] listed@.contains_key(s) <==> is_listed(entries@, s),
            root@ == root_of(entries@),
            is_shallow(entries@, spots(places@)),
            spots(places@) == passes(entries@, done),
            done + missing(entries@, spots(places@), n) <= n,
        ensures
            spots(places@) == passes(entries@, done),
            passes(entries@, done + 1) == passes(entries@, done),
            done <= n,
        decreases missing(entries@, spots(places@), n),
    {
        let attached_any = attach_all(entries, &listed, &root, &mut places, Ghost(done));
        if !attached_any {
            break;
        }
        proof {
            done = done + 1;
        }
    }
    proof {
        lemma_settled(entries@, done, n);
    }

    let mut k: usize = 0;
    while k < entries.len()
        invariant
            k <= entries@.len(),
            root@ == root_of(entries@),
            spots(places@) == connected(entries@),
            tree@.len() == k,
            forall|j: int| 0 <= j < k ==> (#[trigger] tree@[j])@ == node_of(entries@, entries@[j]),
        decreases entries@.len() - k,
    {
        let entry = &entries[k];
        let (depth, parent) = match places.get(entry.server.as_str()) {
            Some(place) => {
                assert(spots(places@).contains_key(entry.server@));
                (place.depth, copied(&place.parent))
            },
            None => {
                assert(!spots(places@).contains_key(entry.server@));
                (1, Some(root.clone()))
            },
        };
        let node = LinksNode {
            server: entry.server.clone(),
            description: copied(&entry.description),
            hopcount: entry.hopcount,
            depth,
            parent,
            is_root: same_text(entry.server.as_str(), root.as_str()),
        };
        assert(node@ == node_of(entries@, entries@[k as int]));
        tree.push(node);
        k += 1;
    }
    tree
}

proof fn lemma_first_self_linked(entries: Seq<LinksEntry>, i: int)
    requires
        0 <= i < entries.len(),
        is_self_linked(entries[i]),
    ensures
        exists|r: int| leads(entries, r),
    decreases i,
{
    if exists|j: int| 0 <= j < i && is_self_linked(#[trigger] entries[j]) {
        let j = choose|j: int| 0 <= j < i && is_self_linked(#[trigger] entries[j]);
        lemma_first_self_linked(entries, j);
    } else {
        assert(leads(entries, i));
    }
}

proof fn lemma_fewest_hops(entries: Seq<LinksEntry>, k: nat) -> (r: int)
    requires
        0 < k <= entries.len(),
    ensures
        0 <= r < k,
        forall|i: int| 0 <= i < r ==> hops(entries[r]) < hops(#[trigger] entries[i]),
        forall|i: int| r <= i < k ==> hops(entries[r]) <= hops(#[trigger] entries[i]),
    decreases k,
{
    if k == 1 {
        0
    } else {
        let r = lemma_fewest_hops(entries, (k - 1) as nat);
        if hops(entries[k - 1]) < hops(entries[r]) {
            k - 1
        } else {
            r
        }
    }
}

/// A reply that is not empty has a root, and lists it.
pub proof fn a_reply_has_a_root(entries: Seq<LinksEntry>)
    requires
        entries.len() > 0,
    ensures
        exists|r: int| leads(entries, r) && #[trigger] entries[r].server@ == root_of(entries),
        is_listed(entries, root_of(entries)),
{
    if exists|i: int| 0 <= i < entries.len() && is_self_linked(#[trigger] entries[i]) {
        let i = choose|i: int| 0 <= i < entries.len() && is_self_linked(#[trigger] entries[i]);
        lemma_first_self_linked(entries, i);
    } else {
        let r = lemma_fewest_hops(entries, entries.len());
        assert(leads(entries, r));
    }
    let r = choose|r: int| leads(entries, r);
    lemma_root_is(entries, r);
    assert(entries[r].server@ == root_of(entries));
}

/// The tree is one: its root has no parent and depth zero, and every other
/// node hangs, one level deeper, from a parent that is in the tree too. So
/// following the parents from any node leads to the root.
pub proof fn every_node_hangs_from_its_parent(entries: Seq<LinksEntry>, i: int)
    requires
        0 <= i < entries.len(),
    ensures
        ({
            let node = node_of(entries, entries[i]);
            if node.is_root {
                node.depth == 0 && node.parent is None
            } else {
                node.parent is Some && exists|j: int|
                    0 <= j < entries.len() && (#[trigger] node_of(entries, entries[j])).server
                        == node.parent->0 && node.depth == node_of(entries, entries[j]).depth + 1
            }
        }),
{
    a_reply_has_a_root(entries);
    lemma_passes_are_tree(entries, entries.len());
    let all = connected(entries);
    let root = root_of(entries);
    let server = entries[i].server@;
    if server != root {
        let parent = spot_of(entries, server).parent->0;
        if all.contains_key(server) {
            let k = choose|k: int|
                0 <= k < entries.len() && #[trigger] entries[k].server@ == server
                    && all[server].parent == Some(parent_by(entries, entries[k]));
            assert(is_listed(entries, parent));
        }
        let j = choose|j: int| 0 <= j < entries.len() && #[trigger] entries[j].server@ == parent;
        assert(node_of(entries, entries[j]).server == parent);
    }
}

proof fn lemma_pass_keeps(entries: Seq<LinksEntry>, placed: Map<Seq<char>, Spot>, j: nat, k: nat)
    requires
        j <= k <= entries.len(),
    ensures
        pass(entries, placed, j).submap_of(pass(entries, placed, k)),
    decreases k,
{
    if j < k {
        lemma_pass_keeps(entries, placed, j, (k - 1) as nat);
        let a = pass(entries, placed, j);
        let b = pass(entries, placed, (k - 1) as nat);
        let c = pass(entries, placed, k);
        assert(b.submap_of(c));
        assert(a.submap_of(c)) by {
            assert forall|s: Seq<char>| #[trigger] a.contains_key(s) implies c.contains_key(s)
                && a[s] == c[s] by {
                assert(b.contains_key(s));
            }
        }
    }
}

/// Where a whole pass changes nothing, none of its steps does.
proof fn lemma_idle_pass(entries: Seq<LinksEntry>, placed: Map<Seq<char>, Spot>, k: nat)
    requires
        k <= entries.len(),
        pass(entries, placed, entries.len()) == placed,
    ensures
        pass(entries, placed, k) == placed,
{
    lemma_pass_keeps(entries, placed, 0, k);
    lemma_pass_keeps(entries, placed, k, entries.len());
    let mid = pass(entries, placed, k);
    assert(placed.submap_of(mid) && mid.submap_of(placed));
    assert(mid.dom() =~= placed.dom());
    assert forall|s: Seq<char>| placed.contains_key(s) implies #[trigger] mid[s] == placed[s] by {
        assert(placed.dom().contains(s));
    }
    assert(mid =~= placed);
}

proof fn lemma_pass_places(entries: Seq<LinksEntry>, placed: Map<Seq<char>, Spot>, k: nat)
    requires
        k <= entries.len(),
        pass(entries, placed, k) != placed,
    ensures
        missing(entries, pass(entries, placed, k), entries.len()) < missing(
            entries,
            placed,
            entries.len(),
        ),
    decreases k,
{
    if k > 0 {
        let before = pass(entries, placed, (k - 1) as nat);
        let after = pass(entries, placed, k);
        lemma_pass_keeps(entries, placed, (k - 1) as nat, k);
        lemma_missing_shrinks(entries, before, after, entries.len());
        if before != placed {
            lemma_pass_places(entries, placed, (k - 1) as nat);
        } else {
            assert(after.contains_key(entries[k - 1].server@));
        }
    }
}

proof fn lemma_passes_settle(entries: Seq<LinksEntry>, k: nat)
    ensures
        passes(entries, k + 1) == passes(entries, k) || k + missing(
            entries,
            passes(entries, k),
            entries.len(),
        ) <= entries.len(),
    decreases k,
{
    if k == 0 {
        lemma_missing_shrinks(entries, passes(entries, 0), passes(entries, 0), entries.len());
    } else {
        lemma_passes_settle(entries, (k - 1) as nat);
        if passes(entries, k) != passes(entries, (k - 1) as nat) {
            lemma_pass_places(entries, passes(entries, (k - 1) as nat), entries.len());
        }
    }
}

/// No further pass connects another server.
proof fn lemma_connected_is_settled(entries: Seq<LinksEntry>)
    ensures
        pass(entries, connected(entries), entries.len()) == connected(entries),
{
    let n = entries.len();
    lemma_passes_settle(entries, n);
    if passes(entries, n + 1) != passes(entries, n) {
        lemma_pass_places(entries, passes(entries, n), n);
    }
}

pub open spec fn lists_no_server_twice(entries: Seq<LinksEntry>) -> bool {
    forall|i: int, j: int|
        0 <= i < j < entries.len() ==> #[trigger] entries[i].server@
            != #[trigger] entries[j].server@
}

/// In a reply that lists no server twice, a node hangs from its uplink when
/// that is connected, and from the root when the reply lacks its uplink.
pub proof fn a_connected_uplink_is_the_parent(entries: Seq<LinksEntry>, i: int)
    requires
        0 <= i < entries.len(),
        lists_no_server_twice(entries),
        entries[i].server@ != root_of(entries),
    ensures
        match uplink(entries, entries[i]) {
            Some(parent) => connected(entries).contains_key(parent) ==> node_of(
                entries,
                entries[i],
            ).parent == Some(parent),
            None => node_of(entries, entries[i]).parent == Some(root_of(entries)),
        },
{
    let all = connected(entries);
    let server = entries[i].server@;
    lemma_connected_is_settled(entries);
    lemma_passes_are_tree(entries, entries.len());
    lemma_idle_pass(entries, all, i as nat);
    lemma_idle_pass(entries, all, (i + 1) as nat);
    assert(attach(entries, all, entries[i]) == all);
    if !all.contains_key(server) {
        match uplink(entries, entries[i]) {
            Some(parent) => {
                if all.contains_key(parent) {
                    assert(attach(entries, all, entries[i]).contains_key(server));
                }
            },
            None => {
                assert(attach(entries, all, entries[i]).contains_key(server));
            },
        }
    } else {
        let k = choose|k: int|
            0 <= k < entries.len() && #[trigger] entries[k].server@ == server
                && all[server].parent == Some(parent_by(entries, entries[k]));
        assert(k == i);
    }
}

/// Whether two entries say the same.
pub open spec fn says_alike(a: LinksEntry, b: LinksEntry) -> bool {
    &&& a.server@ == b.server@
    &&& opt(a.linked_to) == opt(b.linked_to)
    &&& a.hopcount == b.hopcount
    &&& opt(a.description) == opt(b.description)
}

/// Whether every entry of a reply stands in another one too.
pub open spec fn is_within(entries: Seq<LinksEntry>, other: Seq<LinksEntry>) -> bool {
    forall|i: int|
        0 <= i < entries.len() ==> exists|j: int|
            0 <= j < other.len() && says_alike(#[trigger] entries[i], #[trigger] other[j])
}

/// Whether two replies that list no server twice hold the same entries, in
/// whatever order.
pub open spec fn is_reordered(entries: Seq<LinksEntry>, other: Seq<LinksEntry>) -> bool {
    &&& lists_no_server_twice(entries)
    &&& lists_no_server_twice(other)
    &&& is_within(entries, other)
    &&& is_within(other, entries)
}

/// Whether one entry, and no more, links to itself.
pub open spec fn has_one_root(entries: Seq<LinksEntry>) -> bool {
    &&& exists|i: int| 0 <= i < entries.len() && is_self_linked(#[trigger] entries[i])
    &&& forall|i: int, j: int|
        0 <= i < entries.len() && 0 <= j < entries.len() && is_self_linked(#[trigger] entries[i])
            && is_self_linked(#[trigger] entries[j]) ==> i == j
}

proof fn lemma_same_root(entries: Seq<LinksEntry>, other: Seq<LinksEntry>)
    requires
        is_reordered(entries, other),
        has_one_root(entries),
    ensures
        root_of(entries) == root_of(other),
{
    let i = choose|i: int| 0 <= i < entries.len() && is_self_linked(#[trigger] entries[i]);
    assert(leads(entries, i));
    lemma_root_is(entries, i);
    let j = choose|j: int|
        0 <= j < other.len() && says_alike(#[trigger] entries[i], #[trigger] other[j]);
    assert(is_self_linked(other[j]));
    assert forall|k: int| 0 <= k < j implies !is_self_linked(#[trigger] other[k]) by {
        if is_self_linked(other[k]) {
            let m = choose|m: int|
                0 <= m < entries.len() && says_alike(#[trigger] other[k], #[trigger] entries[m]);
            assert(is_self_linked(entries[m]));
            assert(other[k].server@ == other[j].server@);
        }
    }
    assert(leads(other, j));
    lemma_root_is(other, j);
}

proof fn lemma_same_uplink(
    entries: Seq<LinksEntry>,
    other: Seq<LinksEntry>,
    a: LinksEntry,
    b: LinksEntry,
)
    requires
        is_reordered(entries, other),
        says_alike(a, b),
    ensures
        uplink(entries, a) == uplink(other, b),
{
    if let Some(parent) = a.linked_to {
        if is_listed(entries, parent@) {
            let i = choose|i: int|
                0 <= i < entries.len() && #[trigger] entries[i].server@ == parent@;
            let j = choose|j: int|
                0 <= j < other.len() && says_alike(#[trigger] entries[i], #[trigger] other[j]);
            assert(other[j].server@ == parent@);
        }
        if is_listed(other, parent@) {
            let j = choose|j: int| 0 <= j < other.len() && #[trigger] other[j].server@ == parent@;
            let i = choose|i: int|
                0 <= i < entries.len() && says_alike(#[trigger] other[j], #[trigger] entries[i]);
            assert(entries[i].server@ == parent@);
        }
    }
}

/// An entry of another order goes where the settled tree has it.
proof fn lemma_attach_agrees(
    entries: Seq<LinksEntry>,
    other: Seq<LinksEntry>,
    placed: Map<Seq<char>, Spot>,
    j: int,
)
    requires
        is_reordered(entries, other),
        root_of(entries) == root_of(other),
        0 <= j < other.len(),
        placed.contains_key(root_of(other)),
        placed.submap_of(connected(entries)),
    ensures
        attach(other, placed, other[j]).contains_key(root_of(other)),
        attach(other, placed, other[j]).submap_of(connected(entries)),
{
    let all = connected(entries);
    let server = other[j].server@;
    let i = choose|i: int|
        0 <= i < entries.len() && says_alike(#[trigger] other[j], #[trigger] entries[i]);
    lemma_same_uplink(entries, other, entries[i], other[j]);
    lemma_connected_is_settled(entries);
    lemma_passes_are_tree(entries, entries.len());
    lemma_idle_pass(entries, all, i as nat);
    lemma_idle_pass(entries, all, (i + 1) as nat);
    assert(attach(entries, all, entries[i]) == all);
    let after = attach(other, placed, other[j]);
    if after != placed {
        assert(!placed.contains_key(server));
        assert(server != root_of(entries));
        if let Some(parent) = uplink(other, other[j]) {
            assert(placed.contains_key(parent));
            assert(all.contains_key(parent) && all[parent] == placed[parent]);
        }
        if !all.contains_key(server) {
            assert(attach(entries, all, entries[i]).contains_key(server));
        }
        let k = choose|k: int|
            0 <= k < entries.len() && #[trigger] entries[k].server@ == server
                && all[server].parent == Some(parent_by(entries, entries[k]));
        assert(k == i);
        assert(all.contains_key(server));
        assert(after[server] == all[server]);
        assert forall|s: Seq<char>| #[trigger] after.contains_key(s) implies all.contains_key(s)
            && after[s] == all[s] by {
            if s != server {
                assert(placed.dom().contains(s));
                assert(all.dom().contains(s));
                assert(after[s] == placed[s]);
                assert(all[s] == placed[s]);
            }
        }
    }
}

proof fn lemma_pass_agrees(
    entries: Seq<LinksEntry>,
    other: Seq<LinksEntry>,
    placed: Map<Seq<char>, Spot>,
    k: nat,
)
    requires
        is_reordered(entries, other),
        root_of(entries) == root_of(other),
        k <= other.len(),
        placed.contains_key(root_of(other)),
        placed.submap_of(connected(entries)),
    ensures
        pass(other, placed, k).contains_key(root_of(other)),
        pass(other, placed, k).submap_of(connected(entries)),
    decreases k,
{
    if k > 0 {
        lemma_pass_agrees(entries, other, placed, (k - 1) as nat);
        lemma_attach_agrees(entries, other, pass(other, placed, (k - 1) as nat), k - 1);
    }
}

proof fn lemma_passes_agree(entries: Seq<LinksEntry>, other: Seq<LinksEntry>, n: nat)
    requires
        is_reordered(entries, other),
        root_of(entries) == root_of(other),
    ensures
        passes(other, n).contains_key(root_of(other)),
        passes(other, n).submap_of(connected(entries)),
    decreases n,
{
    if n == 0 {
        lemma_passes_are_tree(entries, entries.len());
    } else {
        lemma_passes_agree(entries, other, (n - 1) as nat);
        lemma_pass_agrees(entries, other, passes(other, (n - 1) as nat), other.len());
    }
}

/// The tree does not depend on the order of the reply: where no server is
/// listed twice and one entry links to itself, a server becomes the same node
/// from the same entries in any other order, and the depths can be counted in
/// one order when they can in the other.
pub proof fn the_order_of_a_reply_does_not_matter(
    entries: Seq<LinksEntry>,
    other: Seq<LinksEntry>,
    i: int,
    j: int,
)
    requires
        is_reordered(entries, other),
        has_one_root(entries),
        0 <= i < entries.len(),
        0 <= j < other.len(),
        entries[i].server@ == other[j].server@,
    ensures
        node_of(entries, entries[i]) == node_of(other, other[j]),
        depths_fit(entries) == depths_fit(other),
{
    lemma_same_root(entries, other);
    lemma_passes_agree(entries, other, other.len());
    lemma_passes_agree(other, entries, entries.len());
    let server = entries[i].server@;
    let a = connected(entries);
    let b = connected(other);
    assert(a.contains_key(server) == b.contains_key(server));
    if depths_fit(entries) {
        assert forall|s: Seq<char>| #[trigger] b.contains_key(s) implies b[s].depth
            <= u32::MAX by {
            assert(b.dom().contains(s) && a.dom().contains(s));
            lemma_depth_fits(entries, s);
        }
    }
    if depths_fit(other) {
        assert forall|s: Seq<char>| #[trigger] a.contains_key(s) implies a[s].depth
            <= u32::MAX by {
            assert(a.dom().contains(s) && b.dom().contains(s));
            lemma_depth_fits(other, s);
        }
    }
    let m = choose|m: int|
        0 <= m < other.len() && says_alike(#[trigger] entries[i], #[trigger] other[m]);
    assert(other[m].server@ == other[j].server@);
    assert(m == j);
}

/// The root is the first server that is linked to itself; without such a one
/// it is the first with the fewest hops, those without a count coming last.
pub proof fn the_root_links_to_itself_or_is_nearest(entries: Seq<LinksEntry>, r: int)
    requires
        0 <= r < entries.len(),
    ensures
        opt(entries[r].linked_to) == Some(entries[r].server@) && (forall|i: int|
            0 <= i < r ==> opt((#[trigger] entries[i]).linked_to) != Some(entries[i].server@))
            ==> root_of(entries) == entries[r].server@,
        (forall|i: int|
            0 <= i < entries.len() ==> opt((#[trigger] entries[i]).linked_to) != Some(
                entries[i].server@,
            )) && entries[r].hopcount is Some && (forall|i: int|
            0 <= i < entries.len() && i != r && (#[trigger] entries[i]).hopcount is Some
                ==> entries[r].hopcount->0 < entries[i].hopcount->0) && entries[r].hopcount->0
            < i64::MAX ==> root_of(entries) == entries[r].server@,
{
    if opt(entries[r].linked_to) == Some(entries[r].server@) && (forall|i: int|
        0 <= i < r ==> opt((#[trigger] entries[i]).linked_to) != Some(entries[i].server@)) {
        assert(is_self_linked(entries[r]));
        assert(leads(entries, r));
        lemma_root_is(entries, r);
    }
    if (forall|i: int|
        0 <= i < entries.len() ==> opt((#[trigger] entries[i]).linked_to) != Some(
            entries[i].server@,
        )) && entries[r].hopcount is Some && (forall|i: int|
        0 <= i < entries.len() && i != r && (#[trigger] entries[i]).hopcount is Some
            ==> entries[r].hopcount->0 < entries[i].hopcount->0) && entries[r].hopcount->0
        < i64::MAX {
        assert(leads(entries, r));
        lemma_root_is(entries, r);
    }
}

/// A node keeps the name, the description and the hop count of its entry as
/// they were reported, and is the root exactly where it has the root's name.
pub proof fn nodes_keep_what_was_reported(entries: Seq<LinksEntry>, i: int)
    requires
        0 <= i < entries.len(),
    ensures
        ({
            let node = node_of(entries, entries[i]);
            &&& node.server == entries[i].server@
            &&& node.description == opt(entries[i].description)
            &&& node.hopcount == entries[i].hopcount
            &&& node.is_root == (entries[i].server@ == root_of(entries))
        }),
{
}

/// Whether each entry of a path is linked to the one before it, from the root
/// on.
pub open spec fn is_path(entries: Seq<LinksEntry>, path: Seq<int>) -> bool {
    &&& path.len() > 0
    &&& forall|k: int| 0 <= k < path.len() ==> 0 <= #[trigger] path[k] < entries.len()
    &&& entries[path[0]].server@ == root_of(entries)
    &&& forall|j: int, k: int|
        0 <= j && k == j + 1 && k < path.len() ==> opt(entries[#[trigger] path[k]].linked_to)
            == Some(entries[#[trigger] path[j]].server@)
    &&& forall|j: int, k: int|
        0 <= j < k < path.len() ==> entries[#[trigger] path[j]].server@
            != entries[#[trigger] path[k]].server@
}

/// Uplinks are followed: a server to which a path of so many links leads from
/// the root stands that deep in the tree, under the last server of the path
/// before it.
pub proof fn a_path_of_uplinks_is_followed(entries: Seq<LinksEntry>, path: Seq<int>)
    requires
        lists_no_server_twice(entries),
        is_path(entries, path),
    ensures
        ({
            let node = node_of(entries, entries[path.last()]);
            &&& node.depth == path.len() - 1
            &&& path.len() > 1 ==> node.parent == Some(entries[path[path.len() - 2]].server@)
            &&& path.len() == 1 ==> node.parent is None
        }),
        connected(entries).contains_key(entries[path.last()].server@),
    decreases path.len(),
{
    let all = connected(entries);
    lemma_connected_is_settled(entries);
    lemma_passes_are_tree(entries, entries.len());
    if path.len() > 1 {
        let less = path.drop_last();
        assert forall|j: int, k: int| 0 <= j && k == j + 1 && k < less.len() implies opt(
            entries[#[trigger] less[k]].linked_to,
        ) == Some(entries[#[trigger] less[j]].server@) by {
            assert(less[j] == path[j] && less[k] == path[k]);
        }
        assert forall|k: int| 0 <= k < less.len() implies 0 <= #[trigger] less[k]
            < entries.len() by {
            assert(less[k] == path[k]);
        }
        a_path_of_uplinks_is_followed(entries, less);
        let n = path.len() - 1;
        let i = path[n];
        let above = path[n - 1];
        let parent = entries[above].server@;
        let server = entries[i].server@;
        assert(path[0] != path[n] || n == 0);
        assert(entries[path[0]].server@ != entries[path[n]].server@);
        assert(parent != server);
        assert(opt(entries[i].linked_to) == Some(parent));
        assert(is_listed(entries, parent)) by {
            assert(entries[above].server@ == parent);
        }
        assert(uplink(entries, entries[i]) == Some(parent));
        assert(less.last() == above);
        assert(all.contains_key(parent));
        lemma_idle_pass(entries, all, i as nat);
        lemma_idle_pass(entries, all, (i + 1) as nat);
        assert(attach(entries, all, entries[i]) == all);
        assert(all.contains_key(server));
        a_connected_uplink_is_the_parent(entries, i);
        assert(all[server].depth == all[parent].depth + 1);
    }
}

} // verus!
