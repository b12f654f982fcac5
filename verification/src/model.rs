//! The scene graph: a forest of named transform nodes.
//!
//! A [`Model`] owns a set of [`ModelNode`]s linked by id through `sibling` and
//! `child` fields (a first-child / next-sibling encoding). Construction
//! validates the links: ids must be unique, every referenced id must exist,
//! no node may be the target of two links, and the link graph must be acyclic.
//! The validated model carries a traversal order that strictly increases
//! along links, which is what makes the transform propagation walk terminate.
//!
//! [`Model::update_transform`] recomputes world matrices exactly as the walk
//! specifies: the visited node composes its local transform with the parent
//! matrix (when one is given), then its sibling subtree is updated with the
//! same parent matrix, then its child subtree with the freshly computed world
//! matrix.

use vstd::prelude::*;
use vstd::string::*;

use crate::error::RuntimeError;
use crate::mat4::{spec_mul, Mat4x4};

verus! {

/// A transform node. Links (`parent`, `sibling`, `child`) refer to other
/// nodes of the same model by id. `mesh` and `shader` are handles to
/// resources owned outside the library.
#[derive(Debug, Clone, Copy, PartialEq, Eq)]
pub struct ModelNode {
    pub id: u64,
    pub transform: Mat4x4,
    pub world_matrix: Mat4x4,
    pub mesh: Option<u64>,
    pub shader: Option<u64>,
    pub parent: Option<u64>,
    pub sibling: Option<u64>,
    pub child: Option<u64>,
}

/// Index links of one node slot; `-1` marks the absence of a link.
pub struct Link {
    pub sib: int,
    pub child: int,
}

/// Some node in `nodes` carries `id`.
pub open spec fn has_id(nodes: Seq<ModelNode>, id: u64) -> bool {
    exists|j: int| 0 <= j < nodes.len() && #[trigger] nodes[j].id == id
}

/// The slot of the node carrying `id` (meaningful when ids are unique and
/// `id` is present).
pub open spec fn slot_of(nodes: Seq<ModelNode>, id: u64) -> int {
    choose|j: int| 0 <= j < nodes.len() && #[trigger] nodes[j].id == id
}

/// No two nodes share an id.
pub open spec fn unique_ids(nodes: Seq<ModelNode>) -> bool {
    forall|a: int, b: int|
        0 <= a < nodes.len() && 0 <= b < nodes.len() && a != b ==> #[trigger] nodes[a].id
            != #[trigger] nodes[b].id
}

/// The slot an optional id link resolves to, `-1` if absent or dangling.
pub open spec fn link_tgt(nodes: Seq<ModelNode>, link: Option<u64>) -> int {
    match link {
        Some(id) => if has_id(nodes, id) {
            slot_of(nodes, id)
        } else {
            -1
        },
        None => -1,
    }
}

/// The resolved sibling and child slots of every node.
pub open spec fn links_of(nodes: Seq<ModelNode>) -> Seq<Link> {
    Seq::new(
        nodes.len(),
        |i: int| Link { sib: link_tgt(nodes, nodes[i].sibling), child: link_tgt(nodes, nodes[i].child) },
    )
}

/// The local transforms of every node.
pub open spec fn locals_of(nodes: Seq<ModelNode>) -> Seq<Mat4x4> {
    Seq::new(nodes.len(), |i: int| nodes[i].transform)
}

/// The world matrices of every node.
pub open spec fn worlds_of(nodes: Seq<ModelNode>) -> Seq<Mat4x4> {
    Seq::new(nodes.len(), |i: int| nodes[i].world_matrix)
}

/// Every id referenced by a `parent`, `sibling` or `child` link exists.
pub open spec fn refs_exist(nodes: Seq<ModelNode>) -> bool {
    forall|i: int| 0 <= i < nodes.len() ==> {
        let n = #[trigger] nodes[i];
        &&& match n.parent {
            Some(pid) => has_id(nodes, pid),
            None => true,
        }
        &&& match n.sibling {
            Some(sid) => has_id(nodes, sid),
            None => true,
        }
        &&& match n.child {
            Some(cid) => has_id(nodes, cid),
            None => true,
        }
    }
}

/// `ord` assigns every slot a non-negative rank that strictly increases along
/// sibling and child links. Such an assignment exists exactly when the link
/// graph is acyclic.
pub open spec fn increasing(ln: Seq<Link>, ord: Seq<int>) -> bool {
    &&& ord.len() == ln.len()
    &&& forall|i: int| 0 <= i < ln.len() ==> 0 <= #[trigger] ord[i]
    &&& forall|i: int|
        #![trigger ln[i]]
        0 <= i < ln.len() ==> {
            &&& (ln[i].sib >= 0 ==> ln[i].sib < ln.len() && ord[ln[i].sib] > ord[i])
            &&& (ln[i].child >= 0 ==> ln[i].child < ln.len() && ord[ln[i].child] > ord[i])
        }
}

/// An increasing rank assignment whose ranks are bounded by the node count;
/// the bound keeps the traversal measure non-negative.
pub open spec fn links_wf(ln: Seq<Link>, ord: Seq<int>) -> bool {
    &&& increasing(ln, ord)
    &&& forall|i: int| 0 <= i < ln.len() ==> #[trigger] ord[i] <= ln.len()
}

/// The world matrices after a propagation pass starting at slot `i`.
///
/// The visited node composes its local transform with the parent matrix when
/// one is given (and keeps its stored world matrix otherwise), the sibling
/// subtree is updated with the same parent matrix, and the child subtree with
/// this node's own freshly computed world matrix.
pub open spec fn spec_update(
    ln: Seq<Link>,
    ord: Seq<int>,
    loc: Seq<Mat4x4>,
    w: Seq<Mat4x4>,
    i: int,
    pm: Option<Mat4x4>,
) -> Seq<Mat4x4>
    decreases ln.len() - ord[i]
        when links_wf(ln, ord) && 0 <= i < ln.len()
{
    let w0 = match pm {
        Some(p) => w.update(i, spec_mul(loc[i], p)),
        None => w,
    };
    let own = w0[i];
    let w1 = if ln[i].sib >= 0 {
        spec_update(ln, ord, loc, w0, ln[i].sib, pm)
    } else {
        w0
    };
    if ln[i].child >= 0 {
        spec_update(ln, ord, loc, w1, ln[i].child, Some(own))
    } else {
        w1
    }
}

/// Slot `k` is visited by a propagation pass starting at slot `i`.
pub open spec fn touches(ln: Seq<Link>, ord: Seq<int>, i: int, k: int) -> bool
    decreases ln.len() - ord[i]
        when links_wf(ln, ord) && 0 <= i < ln.len()
{
    ||| k == i
    ||| (ln[i].sib >= 0 && touches(ln, ord, ln[i].sib, k))
    ||| (ln[i].child >= 0 && touches(ln, ord, ln[i].child, k))
}

/// A propagation pass never changes the length of the world sequence.
pub proof fn lemma_update_len(
    ln: Seq<Link>,
    ord: Seq<int>,
    loc: Seq<Mat4x4>,
    w: Seq<Mat4x4>,
    i: int,
    pm: Option<Mat4x4>,
)
    requires
        links_wf(ln, ord),
        0 <= i < ln.len(),
        w.len() == ln.len(),
    ensures
        spec_update(ln, ord, loc, w, i, pm).len() == w.len(),
    decreases ln.len() - ord[i],
{
    let w0 = match pm {
        Some(p) => w.update(i, spec_mul(loc[i], p)),
        None => w,
    };
    let own = w0[i];
    let w1 = if ln[i].sib >= 0 {
        spec_update(ln, ord, loc, w0, ln[i].sib, pm)
    } else {
        w0
    };
    if ln[i].sib >= 0 {
        lemma_update_len(ln, ord, loc, w0, ln[i].sib, pm);
    }
    if ln[i].child >= 0 {
        lemma_update_len(ln, ord, loc, w1, ln[i].child, Some(own));
    }
}

/// Every slot a pass visits ranks at least as high as the slot the pass
/// started at.
pub proof fn lemma_touches_order(ln: Seq<Link>, ord: Seq<int>, i: int, k: int)
    requires
        links_wf(ln, ord),
        0 <= i < ln.len(),
        touches(ln, ord, i, k),
    ensures
        0 <= k < ln.len(),
        ord[k] >= ord[i],
    decreases ln.len() - ord[i],
{
    if k == i {
    } else if ln[i].sib >= 0 && touches(ln, ord, ln[i].sib, k) {
        lemma_touches_order(ln, ord, ln[i].sib, k);
    } else {
        lemma_touches_order(ln, ord, ln[i].child, k);
    }
}

/// A pass leaves every slot it does not visit unchanged.
pub proof fn lemma_update_untouched(
    ln: Seq<Link>,
    ord: Seq<int>,
    loc: Seq<Mat4x4>,
    w: Seq<Mat4x4>,
    i: int,
    pm: Option<Mat4x4>,
    k: int,
)
    requires
        links_wf(ln, ord),
        0 <= i < ln.len(),
        w.len() == ln.len(),
        0 <= k < w.len(),
        !touches(ln, ord, i, k),
    ensures
        spec_update(ln, ord, loc, w, i, pm)[k] == w[k],
    decreases ln.len() - ord[i],
{
    let w0 = match pm {
        Some(p) => w.update(i, spec_mul(loc[i], p)),
        None => w,
    };
    let own = w0[i];
    let w1 = if ln[i].sib >= 0 {
        spec_update(ln, ord, loc, w0, ln[i].sib, pm)
    } else {
        w0
    };
    if ln[i].sib >= 0 {
        lemma_update_len(ln, ord, loc, w0, ln[i].sib, pm);
        lemma_update_untouched(ln, ord, loc, w0, ln[i].sib, pm, k);
    }
    if ln[i].child >= 0 {
        lemma_update_untouched(ln, ord, loc, w1, ln[i].child, Some(own), k);
    }
}

/// A pass leaves every slot ranked strictly below its start unchanged.
pub proof fn lemma_update_preserves_low(
    ln: Seq<Link>,
    ord: Seq<int>,
    loc: Seq<Mat4x4>,
    w: Seq<Mat4x4>,
    i: int,
    pm: Option<Mat4x4>,
    k: int,
)
    requires
        links_wf(ln, ord),
        0 <= i < ln.len(),
        w.len() == ln.len(),
        0 <= k < w.len(),
        ord[k] < ord[i],
    ensures
        spec_update(ln, ord, loc, w, i, pm)[k] == w[k],
{
    if touches(ln, ord, i, k) {
        lemma_touches_order(ln, ord, i, k);
    }
    lemma_update_untouched(ln, ord, loc, w, i, pm, k);
}

/// `b` is `a` with only world matrices possibly changed.
pub open spec fn same_structure(a: Seq<ModelNode>, b: Seq<ModelNode>) -> bool {
    &&& a.len() == b.len()
    &&& forall|i: int|
        0 <= i < a.len() ==> #[trigger] b[i] == (ModelNode { world_matrix: b[i].world_matrix, ..a[i] })
}

/// Structure preservation composes.
pub proof fn lemma_same_structure_trans(a: Seq<ModelNode>, b: Seq<ModelNode>, c: Seq<ModelNode>)
    requires
        same_structure(a, b),
        same_structure(b, c),
    ensures
        same_structure(a, c),
{
    assert forall|i: int| 0 <= i < a.len() implies #[trigger] c[i] == (ModelNode {
        world_matrix: c[i].world_matrix,
        ..a[i]
    }) by {
        assert(b[i] == (ModelNode { world_matrix: b[i].world_matrix, ..a[i] }));
        assert(c[i] == (ModelNode { world_matrix: c[i].world_matrix, ..b[i] }));
    }
}

/// `b` is `a` with only local transforms and world matrices possibly
/// changed: ids, links and resource handles agree.
pub open spec fn same_links(a: Seq<ModelNode>, b: Seq<ModelNode>) -> bool {
    &&& a.len() == b.len()
    &&& forall|i: int|
        #![trigger b[i]]
        0 <= i < a.len() ==> {
            &&& b[i].id == a[i].id
            &&& b[i].sibling == a[i].sibling
            &&& b[i].child == a[i].child
            &&& b[i].parent == a[i].parent
            &&& b[i].mesh == a[i].mesh
            &&& b[i].shader == a[i].shader
        }
}

/// Everything a model derives from its nodes except the local transforms and
/// world matrices is unchanged when only those change.
pub proof fn lemma_same_links(a: Seq<ModelNode>, b: Seq<ModelNode>)
    requires
        same_links(a, b),
        unique_ids(a),
    ensures
        unique_ids(b),
        forall|id: u64| has_id(b, id) == has_id(a, id),
        forall|id: u64| has_id(a, id) ==> slot_of(b, id) == slot_of(a, id),
        links_of(b) == links_of(a),
        refs_exist(b) == refs_exist(a),
{
    assert(forall|i: int| 0 <= i < a.len() ==> #[trigger] b[i].id == a[i].id);
    assert(forall|id: u64| has_id(b, id) == has_id(a, id)) by {
        assert forall|id: u64| has_id(a, id) implies has_id(b, id) by {
            let j = choose|j: int| 0 <= j < a.len() && #[trigger] a[j].id == id;
            assert(b[j].id == id);
        }
        assert forall|id: u64| has_id(b, id) implies has_id(a, id) by {
            let j = choose|j: int| 0 <= j < b.len() && #[trigger] b[j].id == id;
            assert(a[j].id == id);
        }
    }
    assert forall|id: u64| has_id(a, id) implies slot_of(b, id) == slot_of(a, id) by {
        let ja = slot_of(a, id);
        assert(0 <= ja < a.len() && a[ja].id == id);
        assert(b[ja].id == id);
        let jb = slot_of(b, id);
        assert(0 <= jb < b.len() && b[jb].id == id);
        if ja != jb {
            assert(b[ja].id == b[jb].id);
            assert(false);
        }
    }
    assert forall|i: int| 0 <= i < a.len() implies link_tgt(b, b[i].sibling) == link_tgt(
        a,
        a[i].sibling,
    ) && link_tgt(b, b[i].child) == link_tgt(a, a[i].child) by {
        assert(b[i].sibling == a[i].sibling);
        assert(b[i].child == a[i].child);
    }
    assert(links_of(b) =~= links_of(a));
    assert(refs_exist(b) == refs_exist(a)) by {
        if refs_exist(a) {
            assert forall|i: int| 0 <= i < b.len() implies {
                let n = #[trigger] b[i];
                &&& match n.parent {
                    Some(pid) => has_id(b, pid),
                    None => true,
                }
                &&& match n.sibling {
                    Some(sid) => has_id(b, sid),
                    None => true,
                }
                &&& match n.child {
                    Some(cid) => has_id(b, cid),
                    None => true,
                }
            } by {
                assert(b[i].parent == a[i].parent);
                assert(b[i].sibling == a[i].sibling);
                assert(b[i].child == a[i].child);
            }
        }
        if refs_exist(b) {
            assert forall|i: int| 0 <= i < a.len() implies {
                let n = #[trigger] a[i];
                &&& match n.parent {
                    Some(pid) => has_id(a, pid),
                    None => true,
                }
                &&& match n.sibling {
                    Some(sid) => has_id(a, sid),
                    None => true,
                }
                &&& match n.child {
                    Some(cid) => has_id(a, cid),
                    None => true,
                }
            } by {
                assert(b[i].parent == a[i].parent);
                assert(b[i].sibling == a[i].sibling);
                assert(b[i].child == a[i].child);
            }
        }
    }
}

/// Everything a model derives from its nodes except the world matrices is
/// unchanged when only world matrices change.
pub proof fn lemma_same_structure(a: Seq<ModelNode>, b: Seq<ModelNode>)
    requires
        same_structure(a, b),
        unique_ids(a),
    ensures
        unique_ids(b),
        forall|id: u64| has_id(b, id) == has_id(a, id),
        forall|id: u64| has_id(a, id) ==> slot_of(b, id) == slot_of(a, id),
        links_of(b) == links_of(a),
        locals_of(b) == locals_of(a),
        refs_exist(b) == refs_exist(a),
{
    assert(same_links(a, b)) by {
        assert forall|i: int| #![trigger b[i]] 0 <= i < a.len() implies {
            &&& b[i].id == a[i].id
            &&& b[i].sibling == a[i].sibling
            &&& b[i].child == a[i].child
            &&& b[i].parent == a[i].parent
            &&& b[i].mesh == a[i].mesh
            &&& b[i].shader == a[i].shader
        } by {
            assert(b[i] == (ModelNode { world_matrix: b[i].world_matrix, ..a[i] }));
        }
    }
    lemma_same_links(a, b);
    assert(forall|i: int|
        0 <= i < a.len() ==> #[trigger] b[i] == (ModelNode {
            world_matrix: b[i].world_matrix,
            ..a[i]
        }));
    assert(locals_of(b) =~= locals_of(a));
}

/// Number of `true` entries.
pub open spec fn count_true(s: Seq<bool>) -> int
    decreases s.len(),
{
    if s.len() == 0 {
        0
    } else {
        count_true(s.drop_last()) + if s.last() {
            1int
        } else {
            0int
        }
    }
}

proof fn lemma_count_true_none(s: Seq<bool>)
    requires
        forall|i: int| 0 <= i < s.len() ==> !s[i],
    ensures
        count_true(s) == 0,
    decreases s.len(),
{
    if s.len() > 0 {
        assert(forall|i: int| 0 <= i < s.drop_last().len() ==> !s.drop_last()[i]);
        lemma_count_true_none(s.drop_last());
    }
}

proof fn lemma_count_true_le(s: Seq<bool>)
    ensures
        count_true(s) <= s.len(),
    decreases s.len(),
{
    if s.len() > 0 {
        lemma_count_true_le(s.drop_last());
    }
}

proof fn lemma_count_true_update(s: Seq<bool>, i: int)
    requires
        0 <= i < s.len(),
        !s[i],
    ensures
        count_true(s.update(i, true)) == count_true(s) + 1,
    decreases s.len(),
{
    let t = s.update(i, true);
    if i == s.len() - 1 {
        assert(t.drop_last() =~= s.drop_last());
    } else {
        lemma_count_true_update(s.drop_last(), i);
        assert(t.drop_last() =~= s.drop_last().update(i, true));
    }
}

proof fn lemma_count_true_all(s: Seq<bool>)
    requires
        forall|i: int| 0 <= i < s.len() ==> s[i],
    ensures
        count_true(s) == s.len(),
    decreases s.len(),
{
    if s.len() > 0 {
        assert(forall|i: int| 0 <= i < s.drop_last().len() ==> s.drop_last()[i]);
        lemma_count_true_all(s.drop_last());
    }
}

proof fn lemma_count_true_full(s: Seq<bool>)
    requires
        count_true(s) == s.len(),
    ensures
        forall|i: int| 0 <= i < s.len() ==> s[i],
    decreases s.len(),
{
    if s.len() > 0 {
        lemma_count_true_le(s.drop_last());
        lemma_count_true_full(s.drop_last());
        assert forall|i: int| 0 <= i < s.len() implies s[i] by {
            if i < s.len() - 1 {
                assert(s.drop_last()[i]);
            }
        }
    }
}

/// Slot `p` links to slot `t`.
pub open spec fn edge(ln: Seq<Link>, p: int, t: int) -> bool {
    0 <= p < ln.len() && (ln[p].sib == t || ln[p].child == t)
}

/// Some slot links to `j`.
pub open spec fn has_pred(ln: Seq<Link>, j: int) -> bool {
    exists|p: int| edge(ln, p, j)
}

/// The pair `(a, b)` exhibits no shared link target.
pub open spec fn pair_ok(ln: Seq<Link>, a: int, b: int) -> bool {
    &&& (ln[a].sib >= 0 && ln[b].sib >= 0 && ln[a].sib == ln[b].sib ==> a == b)
    &&& (ln[a].child >= 0 && ln[b].child >= 0 && ln[a].child == ln[b].child ==> a == b)
    &&& (ln[a].sib >= 0 && ln[b].child >= 0 ==> ln[a].sib != ln[b].child)
}

/// No slot is the target of two links.
pub open spec fn single_parent(ln: Seq<Link>) -> bool {
    forall|a: int, b: int|
        0 <= a < ln.len() && 0 <= b < ln.len() ==> #[trigger] pair_ok(ln, a, b)
}

/// The link graph has no cycle: some rank assignment strictly increases along
/// every link.
pub open spec fn acyclic(ln: Seq<Link>) -> bool {
    exists|ord: Seq<int>| increasing(ln, ord)
}

/// What the model builder accepts: unique ids, a present root, no dangling
/// link, no slot targeted by two links, and no cycle.
pub open spec fn valid_forest(nodes: Seq<ModelNode>, root_id: u64) -> bool {
    &&& unique_ids(nodes)
    &&& has_id(nodes, root_id)
    &&& refs_exist(nodes)
    &&& single_parent(links_of(nodes))
    &&& acyclic(links_of(nodes))
}

/// `si` and `ci` hold the slots the sibling and child links resolve to.
pub open spec fn resolved(ln: Seq<Link>, si: Seq<Option<usize>>, ci: Seq<Option<usize>>) -> bool {
    &&& si.len() == ln.len()
    &&& ci.len() == ln.len()
    &&& forall|i: int|
        0 <= i < ln.len() ==> {
            &&& match #[trigger] si[i] {
                Some(s) => ln[i].sib == s as int && (s as int) < ln.len(),
                None => ln[i].sib == -1,
            }
            &&& match #[trigger] ci[i] {
                Some(c) => ln[i].child == c as int && (c as int) < ln.len(),
                None => ln[i].child == -1,
            }
        }
}

/// In a graph with an increasing rank assignment, every slot that is not the
/// target of any link is visited, and visits are closed under links, then
/// every slot is visited.
proof fn lemma_forest_visited(ln: Seq<Link>, ordw: Seq<int>, visited: Seq<bool>, k: int)
    requires
        increasing(ln, ordw),
        visited.len() == ln.len(),
        0 <= k < ln.len(),
        forall|j: int| 0 <= j < ln.len() && !has_pred(ln, j) ==> visited[j],
        forall|v: int|
            #![trigger ln[v]]
            0 <= v < ln.len() && visited[v] ==> {
                &&& (ln[v].sib >= 0 ==> visited[ln[v].sib])
                &&& (ln[v].child >= 0 ==> visited[ln[v].child])
            },
    ensures
        visited[k],
    decreases ordw[k],
{
    if has_pred(ln, k) {
        let p = choose|p: int| edge(ln, p, k);
        assert(edge(ln, p, k));
        assert(ordw[k] > ordw[p]);
        lemma_forest_visited(ln, ordw, visited, p);
    }
}

/// Finds the slot carrying `id`.
fn find_index(nodes: &Vec<ModelNode>, id: u64) -> (r: usize)
    requires
        unique_ids(nodes@),
        has_id(nodes@, id),
    ensures
        r < nodes@.len(),
        nodes@[r as int].id == id,
        r as int == slot_of(nodes@, id),
{
    let n = nodes.len();
    for i in 0..n
        invariant
            n == nodes@.len(),
            unique_ids(nodes@),
            has_id(nodes@, id),
            forall|j: int| 0 <= j < i ==> #[trigger] nodes@[j].id != id,
    {
        if nodes[i].id == id {
            proof {
                let js = slot_of(nodes@, id);
                assert(0 <= js < nodes@.len() && nodes@[js].id == id);
                if js != i as int {
                    assert(false);
                }
            }
            return i;
        }
    }
    proof {
        let js = slot_of(nodes@, id);
        assert(0 <= js < nodes@.len() && nodes@[js].id == id);
        assert(false);
    }
    0
}

/// Whether some node carries `id`.
fn id_exists(nodes: &Vec<ModelNode>, id: u64) -> (r: bool)
    ensures
        r == has_id(nodes@, id),
{
    let n = nodes.len();
    for i in 0..n
        invariant
            n == nodes@.len(),
            forall|j: int| 0 <= j < i ==> #[trigger] nodes@[j].id != id,
    {
        if nodes[i].id == id {
            return true;
        }
    }
    false
}

/// Whether all node ids are pairwise distinct.
fn check_unique(nodes: &Vec<ModelNode>) -> (r: bool)
    ensures
        r == unique_ids(nodes@),
{
    let n = nodes.len();
    for a in 0..n
        invariant
            n == nodes@.len(),
            forall|x: int, y: int|
                0 <= x < a && x < y < n ==> #[trigger] nodes@[x].id != #[trigger] nodes@[y].id,
    {
        for b in (a + 1)..n
            invariant
                n == nodes@.len(),
                a < n,
                forall|x: int, y: int|
                    0 <= x < a && x < y < n ==> #[trigger] nodes@[x].id != #[trigger] nodes@[y].id,
                forall|y: int| a < y < b ==> #[trigger] nodes@[y].id != nodes@[a as int].id,
        {
            if nodes[a].id == nodes[b].id {
                return false;
            }
        }
    }
    assert forall|x: int, y: int|
        0 <= x < nodes@.len() && 0 <= y < nodes@.len() && x != y implies #[trigger] nodes@[x].id
        != #[trigger] nodes@[y].id by {
        if x < y {
        } else {
        }
    }
    true
}

/// Whether every id referenced by a link exists.
fn check_refs(nodes: &Vec<ModelNode>) -> (r: bool)
    ensures
        r == refs_exist(nodes@),
{
    let n = nodes.len();
    for i in 0..n
        invariant
            n == nodes@.len(),
            forall|j: int| 0 <= j < i ==> {
                let nd = #[trigger] nodes@[j];
                &&& match nd.parent {
                    Some(pid) => has_id(nodes@, pid),
                    None => true,
                }
                &&& match nd.sibling {
                    Some(sid) => has_id(nodes@, sid),
                    None => true,
                }
                &&& match nd.child {
                    Some(cid) => has_id(nodes@, cid),
                    None => true,
                }
            },
    {
        let nd = nodes[i];
        if let Some(pid) = nd.parent {
            if !id_exists(nodes, pid) {
                return false;
            }
        }
        if let Some(sid) = nd.sibling {
            if !id_exists(nodes, sid) {
                return false;
            }
        }
        if let Some(cid) = nd.child {
            if !id_exists(nodes, cid) {
                return false;
            }
        }
    }
    true
}

/// Resolves the sibling and child id links of every node to slots.
fn resolve_links(nodes: &Vec<ModelNode>) -> (r: (Vec<Option<usize>>, Vec<Option<usize>>))
    requires
        unique_ids(nodes@),
        refs_exist(nodes@),
    ensures
        resolved(links_of(nodes@), r.0@, r.1@),
{
    let ghost ln = links_of(nodes@);
    let n = nodes.len();
    let mut si: Vec<Option<usize>> = Vec::new();
    let mut ci: Vec<Option<usize>> = Vec::new();
    for i in 0..n
        invariant
            n == nodes@.len(),
            unique_ids(nodes@),
            refs_exist(nodes@),
            ln == links_of(nodes@),
            si@.len() == i,
            ci@.len() == i,
            forall|j: int|
                0 <= j < i ==> match #[trigger] si@[j] {
                    Some(s) => ln[j].sib == s as int && (s as int) < n,
                    None => ln[j].sib == -1,
                },
            forall|j: int|
                0 <= j < i ==> match #[trigger] ci@[j] {
                    Some(c) => ln[j].child == c as int && (c as int) < n,
                    None => ln[j].child == -1,
                },
    {
        let nd = nodes[i];
        proof {
            assert(ln[i as int] == (Link {
                sib: link_tgt(nodes@, nodes@[i as int].sibling),
                child: link_tgt(nodes@, nodes@[i as int].child),
            }));
        }
        match nd.sibling {
            Some(sid) => {
                let s = find_index(nodes, sid);
                si.push(Some(s));
            },
            None => {
                si.push(None);
            },
        }
        match nd.child {
            Some(cid) => {
                let c = find_index(nodes, cid);
                ci.push(Some(c));
            },
            None => {
                ci.push(None);
            },
        }
    }
    (si, ci)
}

/// Whether no slot is the target of two links.
fn check_single_parent(
    Ghost(ln): Ghost<Seq<Link>>,
    si: &Vec<Option<usize>>,
    ci: &Vec<Option<usize>>,
) -> (r: bool)
    requires
        resolved(ln, si@, ci@),
    ensures
        r == single_parent(ln),
{
    let n = si.len();
    for a in 0..n
        invariant
            n == ln.len(),
            n == si@.len(),
            n == ci@.len(),
            resolved(ln, si@, ci@),
            forall|x: int, y: int| 0 <= x < a && 0 <= y < n ==> #[trigger] pair_ok(ln, x, y),
    {
        for b in 0..n
            invariant
                n == ln.len(),
                n == si@.len(),
                n == ci@.len(),
                a < n,
                resolved(ln, si@, ci@),
                forall|x: int, y: int| 0 <= x < a && 0 <= y < n ==> #[trigger] pair_ok(ln, x, y),
                forall|y: int| 0 <= y < b ==> #[trigger] pair_ok(ln, a as int, y),
        {
            let sa = si[a];
            let sb = si[b];
            let ca = ci[a];
            let cb = ci[b];
            if a != b {
                if let (Some(x), Some(y)) = (sa, sb) {
                    if x == y {
                        proof {
                            assert(!pair_ok(ln, a as int, b as int));
                            assert(!single_parent(ln));
                        }
                        return false;
                    }
                }
                if let (Some(x), Some(y)) = (ca, cb) {
                    if x == y {
                        proof {
                            assert(!pair_ok(ln, a as int, b as int));
                            assert(!single_parent(ln));
                        }
                        return false;
                    }
                }
            }
            if let (Some(x), Some(y)) = (sa, cb) {
                if x == y {
                    proof {
                        assert(!pair_ok(ln, a as int, b as int));
                        assert(!single_parent(ln));
                    }
                    return false;
                }
            }
            proof {
                assert(pair_ok(ln, a as int, b as int));
            }
        }
    }
    true
}

/// `v` occurs in `st`.
pub open spec fn in_stack(st: Seq<usize>, v: int) -> bool {
    exists|t: int| 0 <= t < st.len() && #[trigger] st[t] as int == v
}

/// Walks the forest from its roots, assigning each slot its visiting rank.
/// Returns `None` when some slot is never reached, which under the other
/// validity checks means the link graph has a cycle.
fn compute_order(
    sib_idx: &Vec<Option<usize>>,
    child_idx: &Vec<Option<usize>>,
    Ghost(ln): Ghost<Seq<Link>>,
) -> (r: Option<Vec<usize>>)
    requires
        resolved(ln, sib_idx@, child_idx@),
        single_parent(ln),
    ensures
        match r {
            Some(ord) => {
                &&& ord@.len() == ln.len()
                &&& links_wf(ln, ord@.map_values(|x: usize| x as int))
            },
            None => !acyclic(ln),
        },
{
    let n = sib_idx.len();
    let mut visited: Vec<bool> = Vec::new();
    let mut order: Vec<usize> = Vec::new();
    let mut has_p: Vec<bool> = Vec::new();
    for k in 0..n
        invariant
            visited@.len() == k,
            order@.len() == k,
            has_p@.len() == k,
            forall|j: int| 0 <= j < k ==> !visited@[j],
            forall|j: int| 0 <= j < k ==> !has_p@[j],
    {
        visited.push(false);
        order.push(0);
        has_p.push(false);
    }

    // Mark every slot that is the target of a link.
    for a in 0..n
        invariant
            n == ln.len(),
            n == sib_idx@.len(),
            n == child_idx@.len(),
            visited@.len() == n,
            order@.len() == n,
            has_p@.len() == n,
            resolved(ln, sib_idx@, child_idx@),
            forall|j: int| 0 <= j < n ==> !visited@[j],
            forall|j: int|
                0 <= j < n ==> (has_p@[j] <==> exists|p: int|
                    #![trigger ln[p]]
                    0 <= p < a && (ln[p].sib == j || ln[p].child == j)),
    {
        let ghost hp0 = has_p@;
        let sa = sib_idx[a];
        let ca = child_idx[a];
        if let Some(s) = sa {
            has_p.set(s, true);
        }
        if let Some(c) = ca {
            has_p.set(c, true);
        }
        proof {
            assert(match sa {
                Some(s) => ln[a as int].sib == s as int,
                None => ln[a as int].sib == -1,
            });
            assert(match ca {
                Some(c) => ln[a as int].child == c as int,
                None => ln[a as int].child == -1,
            });
            assert forall|j: int| 0 <= j < n implies (has_p@[j] <==> exists|p: int|
                #![trigger ln[p]]
                0 <= p < a + 1 && (ln[p].sib == j || ln[p].child == j)) by {
                if has_p@[j] {
                    if hp0[j] {
                        let p = choose|p: int|
                            #![trigger ln[p]]
                            0 <= p < a && (ln[p].sib == j || ln[p].child == j);
                        assert(0 <= p < a + 1 && (ln[p].sib == j || ln[p].child == j));
                    } else {
                        assert(ln[a as int].sib == j || ln[a as int].child == j);
                    }
                } else {
                    assert(!hp0[j]);
                    assert(ln[a as int].sib != j && ln[a as int].child != j);
                }
            }
        }
    }
    proof {
        assert forall|j: int| 0 <= j < n implies (has_p@[j] <==> has_pred(ln, j)) by {
            if has_p@[j] {
                let p = choose|p: int|
                    #![trigger ln[p]]
                    0 <= p < n && (ln[p].sib == j || ln[p].child == j);
                assert(edge(ln, p, j));
            }
            if has_pred(ln, j) {
                let p = choose|p: int| edge(ln, p, j);
                assert(0 <= p < n && (ln[p].sib == j || ln[p].child == j));
            }
        }
    }

    let mut stack: Vec<usize> = Vec::new();
    let mut counter: usize = 0;
    proof {
        lemma_count_true_none(visited@);
    }

    // Seed the walk with every root (slot no link points to).
    for rt in 0..n
        invariant
            n == ln.len(),
            n == sib_idx@.len(),
            n == child_idx@.len(),
            visited@.len() == n,
            order@.len() == n,
            has_p@.len() == n,
            resolved(ln, sib_idx@, child_idx@),
            single_parent(ln),
            forall|j: int| 0 <= j < n ==> (has_p@[j] <==> has_pred(ln, j)),
            counter == count_true(visited@),
            counter <= n,
            forall|t: int|
                0 <= t < stack@.len() ==> (#[trigger] stack@[t] as int) < n
                    && visited@[stack@[t] as int],
            forall|t1: int, t2: int|
                0 <= t1 < t2 < stack@.len() ==> stack@[t1] as int != stack@[t2] as int,
            forall|v: int| 0 <= v < n ==> (#[trigger] visited@[v] <==> in_stack(stack@, v)),
            forall|v: int| 0 <= v < n && #[trigger] visited@[v] ==> (order@[v] as int) < counter,
            forall|v: int| 0 <= v < n && #[trigger] visited@[v] ==> v < rt,
            forall|v: int| 0 <= v < rt && !has_p@[v] ==> #[trigger] visited@[v],
            forall|v: int| 0 <= v < n && #[trigger] visited@[v] ==> !has_pred(ln, v),
    {
        if !has_p[rt] {
            proof {
                assert(!visited@[rt as int]);
                lemma_count_true_update(visited@, rt as int);
                lemma_count_true_le(visited@.update(rt as int, true));
            }
            let ghost stack0 = stack@;
            visited.set(rt, true);
            order.set(rt, counter);
            counter += 1;
            stack.push(rt);
            proof {
                assert forall|v: int| 0 <= v < n implies (#[trigger] visited@[v] <==> in_stack(
                    stack@,
                    v,
                )) by {
                    if v == rt as int {
                        assert(stack@[stack@.len() - 1] as int == v);
                    } else {
                        if in_stack(stack@, v) {
                            let t = choose|t: int|
                                0 <= t < stack@.len() && #[trigger] stack@[t] as int == v;
                            assert(t < stack0.len());
                            assert(stack0[t] as int == v);
                        }
                        if in_stack(stack0, v) {
                            let t = choose|t: int|
                                0 <= t < stack0.len() && #[trigger] stack0[t] as int == v;
                            assert(stack@[t] as int == v);
                        }
                    }
                }
            }
        }
    }

    // Expand every stacked slot; each link target is visited exactly once.
    while stack.len() > 0
        invariant
            n == ln.len(),
            n == sib_idx@.len(),
            n == child_idx@.len(),
            visited@.len() == n,
            order@.len() == n,
            has_p@.len() == n,
            resolved(ln, sib_idx@, child_idx@),
            single_parent(ln),
            forall|j: int| 0 <= j < n ==> (has_p@[j] <==> has_pred(ln, j)),
            counter == count_true(visited@),
            counter <= n,
            forall|t: int|
                0 <= t < stack@.len() ==> (#[trigger] stack@[t] as int) < n
                    && visited@[stack@[t] as int],
            forall|t1: int, t2: int|
                0 <= t1 < t2 < stack@.len() ==> stack@[t1] as int != stack@[t2] as int,
            forall|v: int| 0 <= v < n && #[trigger] visited@[v] ==> (order@[v] as int) < counter,
            forall|v: int| 0 <= v < n && !has_p@[v] ==> #[trigger] visited@[v],
            forall|v: int|
                #![trigger ln[v]]
                0 <= v < n && visited@[v] && !in_stack(stack@, v) ==> {
                    &&& (ln[v].sib >= 0 ==> visited@[ln[v].sib] && (order@[ln[v].sib] as int)
                        > (order@[v] as int))
                    &&& (ln[v].child >= 0 ==> visited@[ln[v].child] && (order@[ln[v].child] as int)
                        > (order@[v] as int))
                },
            forall|v: int|
                0 <= v < n && #[trigger] visited@[v] && has_pred(ln, v) ==> exists|p: int|
                    #![trigger ln[p]]
                    edge(ln, p, v) && visited@[p] && !in_stack(stack@, p),
        decreases 2 * (n - counter) + stack@.len(),
    {
        let ghost head_stack = stack@;
        let ghost head_visited = visited@;
        let ghost head_order = order@;
        let ghost head_counter = counter as int;
        let i = stack.pop().unwrap();
        proof {
            assert(head_stack[head_stack.len() - 1] == i);
            assert(stack@ == head_stack.subrange(0, head_stack.len() - 1));
            assert(in_stack(head_stack, i as int));
            assert(!in_stack(stack@, i as int)) by {
                if in_stack(stack@, i as int) {
                    let t = choose|t: int|
                        0 <= t < stack@.len() && #[trigger] stack@[t] as int == i as int;
                    assert(head_stack[t] as int == i as int);
                    assert(head_stack[t] as int != head_stack[head_stack.len() - 1] as int);
                }
            }
            assert(visited@[i as int]);
        }

        let st = sib_idx[i];
        let ct = child_idx[i];
        proof {
            assert(match st {
                Some(s) => ln[i as int].sib == s as int,
                None => ln[i as int].sib == -1,
            });
            assert(match ct {
                Some(c) => ln[i as int].child == c as int,
                None => ln[i as int].child == -1,
            });
        }

        if let Some(t) = st {
            proof {
                assert(ln[i as int].sib == t as int);
                if visited@[t as int] {
                    assert(edge(ln, i as int, t as int));
                    assert(has_pred(ln, t as int));
                    let p = choose|p: int|
                        #![trigger ln[p]]
                        edge(ln, p, t as int) && head_visited[p] && !in_stack(head_stack, p);
                    assert(p != i as int);
                    assert(pair_ok(ln, i as int, p));
                    assert(false);
                }
                lemma_count_true_update(visited@, t as int);
                lemma_count_true_le(visited@.update(t as int, true));
            }
            visited.set(t, true);
            order.set(t, counter);
            counter += 1;
            stack.push(t);
        }
        let ghost mid_stack = stack@;
        let ghost mid_visited = visited@;
        let ghost mid_order = order@;
        let ghost mid_counter = counter as int;

        if let Some(t) = ct {
            proof {
                assert(ln[i as int].child == t as int);
                if mid_visited[t as int] {
                    if head_visited[t as int] {
                        assert(edge(ln, i as int, t as int));
                        assert(has_pred(ln, t as int));
                        let p = choose|p: int|
                            #![trigger ln[p]]
                            edge(ln, p, t as int) && head_visited[p] && !in_stack(head_stack, p);
                        assert(p != i as int);
                        assert(pair_ok(ln, i as int, p));
                        assert(pair_ok(ln, p, i as int));
                        assert(false);
                    } else {
                        // freshly visited in the sibling step: the two targets
                        // of one node are distinct
                        assert(ln[i as int].sib == t as int);
                        assert(pair_ok(ln, i as int, i as int));
                        assert(false);
                    }
                }
                lemma_count_true_update(visited@, t as int);
                lemma_count_true_le(visited@.update(t as int, true));
            }
            visited.set(t, true);
            order.set(t, counter);
            counter += 1;
            stack.push(t);
        }

        proof {
            // Expanded slots keep their processed shape: both link targets
            // are visited and rank strictly higher.
            assert forall|v: int|
                #![trigger ln[v]]
                0 <= v < n && visited@[v] && !in_stack(stack@, v) implies {
                &&& (ln[v].sib >= 0 ==> visited@[ln[v].sib] && (order@[ln[v].sib] as int)
                    > (order@[v] as int))
                &&& (ln[v].child >= 0 ==> visited@[ln[v].child] && (order@[ln[v].child] as int)
                    > (order@[v] as int))
            } by {
                if v == i as int {
                    assert(order@[v] == head_order[v]);
                    assert((head_order[v] as int) < head_counter);
                    match st {
                        Some(t1) => {
                            assert(ln[v].sib == t1 as int);
                            assert(visited@[t1 as int]);
                            match ct {
                                Some(t2) => {
                                    assert(t2 as int != t1 as int);
                                    assert(order@[t1 as int] as int == head_counter);
                                },
                                None => {
                                    assert(order@[t1 as int] as int == head_counter);
                                },
                            }
                        },
                        None => {
                            assert(ln[v].sib == -1);
                        },
                    }
                    match ct {
                        Some(t2) => {
                            assert(ln[v].child == t2 as int);
                            assert(visited@[t2 as int]);
                            assert(order@[t2 as int] as int >= head_counter);
                        },
                        None => {
                            assert(ln[v].child == -1);
                        },
                    }
                } else {
                    assert(!in_stack(head_stack, v)) by {
                        if in_stack(head_stack, v) {
                            let tt = choose|tt: int|
                                0 <= tt < head_stack.len() && #[trigger] head_stack[tt] as int
                                    == v;
                            if tt < head_stack.len() - 1 {
                                assert(stack@[tt] as int == v);
                                assert(in_stack(stack@, v));
                            } else {
                                assert(v == i as int);
                            }
                        }
                    }
                    assert(head_visited[v]) by {
                        if !head_visited[v] {
                            match (st, ct) {
                                (Some(t1), Some(t2)) => {
                                    assert(stack@[stack@.len() - 2] as int == t1 as int);
                                    assert(stack@[stack@.len() - 1] as int == t2 as int);
                                    assert(v == t1 as int || v == t2 as int);
                                    assert(in_stack(stack@, v));
                                },
                                (Some(t1), None) => {
                                    assert(stack@[stack@.len() - 1] as int == t1 as int);
                                    assert(v == t1 as int);
                                    assert(in_stack(stack@, v));
                                },
                                (None, Some(t2)) => {
                                    assert(stack@[stack@.len() - 1] as int == t2 as int);
                                    assert(v == t2 as int);
                                    assert(in_stack(stack@, v));
                                },
                                (None, None) => {},
                            }
                            assert(false);
                        }
                    }
                    assert(order@[v] == head_order[v]);
                    match st {
                        Some(t1) => {
                            assert(!head_visited[t1 as int]);
                        },
                        None => {},
                    }
                    match ct {
                        Some(t2) => {
                            assert(!head_visited[t2 as int]);
                        },
                        None => {},
                    }
                    assert(match sib_idx@[v] {
                        Some(s) => ln[v].sib == s as int && (s as int) < n,
                        None => ln[v].sib == -1,
                    });
                    assert(match child_idx@[v] {
                        Some(c) => ln[v].child == c as int && (c as int) < n,
                        None => ln[v].child == -1,
                    });
                    if ln[v].sib >= 0 {
                        assert(0 <= ln[v].sib < n);
                        assert(head_visited[ln[v].sib]);
                        assert(order@[ln[v].sib] == head_order[ln[v].sib]);
                    }
                    if ln[v].child >= 0 {
                        assert(0 <= ln[v].child < n);
                        assert(head_visited[ln[v].child]);
                        assert(order@[ln[v].child] == head_order[ln[v].child]);
                    }
                }
            }
            // Freshly pushed slots sit on top of the remaining stack.
            assert forall|v: int|
                0 <= v < n && #[trigger] visited@[v] && has_pred(ln, v) implies exists|p: int|
                #![trigger ln[p]]
                edge(ln, p, v) && visited@[p] && !in_stack(stack@, p) by {
                if head_visited[v] {
                    if has_pred(ln, v) {
                        let p = choose|p: int|
                            #![trigger ln[p]]
                            edge(ln, p, v) && head_visited[p] && !in_stack(head_stack, p);
                        assert(visited@[p]);
                        assert(!in_stack(stack@, p)) by {
                            if in_stack(stack@, p) {
                                let t = choose|t: int|
                                    0 <= t < stack@.len() && #[trigger] stack@[t] as int == p;
                                if t < head_stack.len() - 1 {
                                    assert(head_stack[t] as int == p);
                                } else {
                                    // p is one of the freshly pushed targets,
                                    // which were unvisited at the head
                                    assert(!head_visited[stack@[t] as int]);
                                }
                            }
                        }
                        assert(edge(ln, p, v) && visited@[p] && !in_stack(stack@, p));
                    }
                } else {
                    // v was pushed in this iteration; its predecessor is i
                    match (st, ct) {
                        (Some(t1), Some(t2)) => {
                            assert(v == t1 as int || v == t2 as int);
                        },
                        (Some(t1), None) => {
                            assert(v == t1 as int);
                        },
                        (None, Some(t2)) => {
                            assert(v == t2 as int);
                        },
                        (None, None) => {
                            assert(false);
                        },
                    }
                    assert(edge(ln, i as int, v));
                    assert(visited@[i as int]);
                    assert(!in_stack(stack@, i as int)) by {
                        if in_stack(stack@, i as int) {
                            let t = choose|t: int|
                                0 <= t < stack@.len() && #[trigger] stack@[t] as int == i as int;
                            if t < head_stack.len() - 1 {
                                assert(head_stack[t] as int == i as int);
                            } else {
                                assert(!head_visited[stack@[t] as int]);
                            }
                        }
                    }
                    assert(edge(ln, i as int, v) && visited@[i as int] && !in_stack(
                        stack@,
                        i as int,
                    ));
                }
            }
        }
    }

    if counter == n {
        proof {
            lemma_count_true_full(visited@);
            let ord = order@.map_values(|x: usize| x as int);
            assert(stack@.len() == 0);
            assert(forall|v: int| !in_stack(stack@, v));
            assert(ord.len() == ln.len());
            assert(forall|v: int| 0 <= v < n ==> #[trigger] ord[v] == order@[v] as int);
            assert(forall|v: int| 0 <= v < n ==> 0 <= #[trigger] ord[v]);
            assert forall|v: int| 0 <= v < n implies #[trigger] ord[v] <= ln.len() by {
                assert(visited@[v]);
                assert((order@[v] as int) < counter);
            }
            assert(links_wf(ln, ord)) by {
                assert forall|v: int|
                    #![trigger ln[v]]
                    0 <= v < n implies {
                    &&& (ln[v].sib >= 0 ==> ln[v].sib < ln.len() && ord[ln[v].sib] > ord[v])
                    &&& (ln[v].child >= 0 ==> ln[v].child < ln.len() && ord[ln[v].child] > ord[v])
                } by {
                    assert(visited@[v] && !in_stack(stack@, v));
                    assert(match sib_idx@[v] {
                        Some(s) => ln[v].sib == s as int && (s as int) < ln.len(),
                        None => ln[v].sib == -1,
                    });
                    assert(match child_idx@[v] {
                        Some(c) => ln[v].child == c as int && (c as int) < ln.len(),
                        None => ln[v].child == -1,
                    });
                }
            }
        }
        Some(order)
    } else {
        proof {
            if acyclic(ln) {
                let ordw = choose|o: Seq<int>| increasing(ln, o);
                assert(stack@.len() == 0);
                assert(forall|v: int| !in_stack(stack@, v));
                assert forall|k: int| 0 <= k < n implies visited@[k] by {
                    lemma_forest_visited(ln, ordw, visited@, k);
                }
                lemma_count_true_all(visited@);
                assert(false);
            }
        }
        None
    }
}

/// One propagation step: updates the node at `idx`, then its sibling subtree
/// with the same parent matrix, then its child subtree with the node's new
/// world matrix.
fn update_rec(nodes: &mut Vec<ModelNode>, order: &Vec<usize>, idx: usize, pm: Option<Mat4x4>)
    requires
        links_wf(links_of(old(nodes)@), order@.map_values(|x: usize| x as int)),
        unique_ids(old(nodes)@),
        refs_exist(old(nodes)@),
        order@.len() == old(nodes)@.len(),
        idx < old(nodes)@.len(),
    ensures
        same_structure(old(nodes)@, final(nodes)@),
        worlds_of(final(nodes)@) == spec_update(
            links_of(old(nodes)@),
            order@.map_values(|x: usize| x as int),
            locals_of(old(nodes)@),
            worlds_of(old(nodes)@),
            idx as int,
            pm,
        ),
    decreases order@.len() - order@[idx as int],
{
    let ghost orig = nodes@;
    let ghost ln = links_of(orig);
    let ghost ord = order@.map_values(|x: usize| x as int);
    let ghost loc = locals_of(orig);
    let ghost w = worlds_of(orig);

    let m: Mat4x4 = match pm {
        Some(p) => {
            let mut node = nodes[idx];
            let mm = node.transform.mul_matrix4x4(p);
            node.world_matrix = mm;
            nodes.set(idx, node);
            mm
        },
        None => nodes[idx].world_matrix,
    };
    let ghost w0 = match pm {
        Some(p) => w.update(idx as int, spec_mul(loc[idx as int], p)),
        None => w,
    };
    proof {
        assert(same_structure(orig, nodes@));
        assert(worlds_of(nodes@) =~= w0);
        assert(w0[idx as int] == m);
        lemma_same_structure(orig, nodes@);
    }

    let ghost w1 = if ln[idx as int].sib >= 0 {
        spec_update(ln, ord, loc, w0, ln[idx as int].sib, pm)
    } else {
        w0
    };
    let sib = nodes[idx].sibling;
    proof {
        assert(nodes@[idx as int].sibling == orig[idx as int].sibling);
    }
    if let Some(sid) = sib {
        proof {
            assert(orig[idx as int] == orig[idx as int]);
            assert(has_id(orig, sid));
            assert(has_id(nodes@, sid));
            assert(ln[idx as int] == (Link {
                sib: link_tgt(orig, orig[idx as int].sibling),
                child: link_tgt(orig, orig[idx as int].child),
            }));
        }
        let s = find_index(nodes, sid);
        let ghost mid = nodes@;
        proof {
            assert(s as int == slot_of(mid, sid));
            assert(slot_of(mid, sid) == slot_of(orig, sid));
            assert(ln[idx as int].sib == s as int);
            assert(ord[s as int] > ord[idx as int]);
        }
        update_rec(nodes, order, s, pm);
        proof {
            lemma_same_structure(orig, mid);
            assert(links_of(mid) == ln);
            assert(locals_of(mid) == loc);
            assert(worlds_of(mid) == w0);
            lemma_same_structure_trans(orig, mid, nodes@);
            lemma_same_structure(orig, nodes@);
            assert(worlds_of(nodes@) == w1);
        }
    } else {
        proof {
            assert(ln[idx as int] == (Link {
                sib: link_tgt(orig, orig[idx as int].sibling),
                child: link_tgt(orig, orig[idx as int].child),
            }));
            assert(ln[idx as int].sib == -1);
            assert(worlds_of(nodes@) == w1);
        }
    }

    let child = nodes[idx].child;
    proof {
        assert(nodes@[idx as int].child == orig[idx as int].child);
    }
    if let Some(cid) = child {
        proof {
            assert(has_id(orig, cid));
            assert(has_id(nodes@, cid));
            assert(ln[idx as int] == (Link {
                sib: link_tgt(orig, orig[idx as int].sibling),
                child: link_tgt(orig, orig[idx as int].child),
            }));
        }
        let c = find_index(nodes, cid);
        let ghost mid2 = nodes@;
        proof {
            assert(c as int == slot_of(mid2, cid));
            assert(slot_of(mid2, cid) == slot_of(orig, cid));
            assert(ln[idx as int].child == c as int);
            assert(ord[c as int] > ord[idx as int]);
        }
        update_rec(nodes, order, c, Some(m));
        proof {
            lemma_same_structure(orig, mid2);
            assert(links_of(mid2) == ln);
            assert(locals_of(mid2) == loc);
            assert(worlds_of(mid2) == w1);
            lemma_same_structure_trans(orig, mid2, nodes@);
            assert(worlds_of(nodes@) == spec_update(ln, ord, loc, w1, c as int, Some(m)));
        }
    } else {
        proof {
            assert(ln[idx as int] == (Link {
                sib: link_tgt(orig, orig[idx as int].sibling),
                child: link_tgt(orig, orig[idx as int].child),
            }));
            assert(ln[idx as int].child == -1);
        }
    }
    proof {
        assert(worlds_of(nodes@) == spec_update(ln, ord, loc, w, idx as int, pm));
        assert(same_structure(orig, nodes@));
    }
}

/// The nodes of a pre-order traversal starting at slot `i`: the node itself,
/// then its sibling subtree, then its child subtree.
pub open spec fn spec_collect(
    ln: Seq<Link>,
    ord: Seq<int>,
    nodes: Seq<ModelNode>,
    i: int,
) -> Seq<ModelNode>
    decreases ln.len() - ord[i]
        when links_wf(ln, ord) && 0 <= i < ln.len()
{
    let acc0 = seq![nodes[i]];
    let acc1 = if ln[i].sib >= 0 {
        acc0 + spec_collect(ln, ord, nodes, ln[i].sib)
    } else {
        acc0
    };
    if ln[i].child >= 0 {
        acc1 + spec_collect(ln, ord, nodes, ln[i].child)
    } else {
        acc1
    }
}

/// Appends the traversal starting at `idx` to `out`.
fn collect_rec(nodes: &Vec<ModelNode>, order: &Vec<usize>, idx: usize, out: &mut Vec<ModelNode>)
    requires
        links_wf(links_of(nodes@), order@.map_values(|x: usize| x as int)),
        unique_ids(nodes@),
        refs_exist(nodes@),
        order@.len() == nodes@.len(),
        idx < nodes@.len(),
    ensures
        final(out)@ == old(out)@ + spec_collect(
            links_of(nodes@),
            order@.map_values(|x: usize| x as int),
            nodes@,
            idx as int,
        ),
    decreases order@.len() - order@[idx as int],
{
    let ghost ln = links_of(nodes@);
    let ghost ord = order@.map_values(|x: usize| x as int);
    let ghost out0 = out@;
    out.push(nodes[idx]);
    let nd = nodes[idx];
    proof {
        assert(ln[idx as int] == (Link {
            sib: link_tgt(nodes@, nodes@[idx as int].sibling),
            child: link_tgt(nodes@, nodes@[idx as int].child),
        }));
    }
    if let Some(sid) = nd.sibling {
        proof {
            assert(has_id(nodes@, sid));
        }
        let s = find_index(nodes, sid);
        proof {
            assert(ln[idx as int].sib == s as int);
            assert(ord[s as int] > ord[idx as int]);
        }
        collect_rec(nodes, order, s, out);
    }
    let ghost out1 = out@;
    if let Some(cid) = nd.child {
        proof {
            assert(has_id(nodes@, cid));
        }
        let c = find_index(nodes, cid);
        proof {
            assert(ln[idx as int].child == c as int);
            assert(ord[c as int] > ord[idx as int]);
        }
        collect_rec(nodes, order, c, out);
    }
    proof {
        assert(out@ =~= out0 + spec_collect(ln, ord, nodes@, idx as int));
    }
}

/// An error raised by the model builder.
fn model_error(message: &str) -> (r: RuntimeError)
    ensures
        r.spec_message() == message@,
{
    RuntimeError::new("src/model.rs", 0, 0, String::from_str(message))
}

/// A model: a named set of nodes whose links form a validated forest, plus
/// the traversal rank the validation derived for every slot.
pub struct Model {
    name: String,
    root_id: u64,
    nodes: Vec<ModelNode>,
    order: Vec<usize>,
}

impl Model {
    /// The nodes of this model, by slot.
    pub closed spec fn spec_nodes(&self) -> Seq<ModelNode> {
        self.nodes@
    }

    /// The traversal rank of every slot.
    pub closed spec fn spec_order(&self) -> Seq<int> {
        self.order@.map_values(|x: usize| x as int)
    }

    /// The id of the root node.
    pub closed spec fn spec_root_id(&self) -> u64 {
        self.root_id
    }

    /// The name of this model.
    pub closed spec fn spec_name(&self) -> Seq<char> {
        self.name@
    }

    /// The model invariant: ids unique, links total and forest-shaped, and
    /// the stored rank increases along links.
    pub closed spec fn wf(&self) -> bool {
        &&& self.order@.len() == self.nodes@.len()
        &&& unique_ids(self.nodes@)
        &&& refs_exist(self.nodes@)
        &&& has_id(self.nodes@, self.root_id)
        &&& single_parent(links_of(self.nodes@))
        &&& links_wf(links_of(self.nodes@), self.spec_order())
    }

    /// Builds a model from a flat node list.
    ///
    /// Construction succeeds exactly when the nodes form a well-linked
    /// forest: ids are unique, the root id and every id referenced by a
    /// `parent`, `sibling` or `child` link exist, no node is the target of
    /// two links, and following links never loops. A node list with a cycle
    /// (or a diamond) is rejected here, so the traversal walks always
    /// terminate.
    pub fn from_nodes(name: &str, root_id: u64, nodes: Vec<ModelNode>) -> (r: Result<
        Model,
        RuntimeError,
    >)
        ensures
            match r {
                Ok(m) => {
                    &&& valid_forest(nodes@, root_id)
                    &&& m.wf()
                    &&& m.spec_nodes() == nodes@
                    &&& m.spec_root_id() == root_id
                    &&& m.spec_name() == name@
                },
                Err(_) => !valid_forest(nodes@, root_id),
            },
    {
        if !check_unique(&nodes) {
            return Err(model_error("Duplicate node ID."));
        }
        if !id_exists(&nodes, root_id) {
            return Err(model_error("Invalid root ID."));
        }
        if !check_refs(&nodes) {
            return Err(model_error("Unknown node ID in a link."));
        }
        let (si, ci) = resolve_links(&nodes);
        if !check_single_parent(Ghost(links_of(nodes@)), &si, &ci) {
            return Err(model_error("A node is linked from two places."));
        }
        match compute_order(&si, &ci, Ghost(links_of(nodes@))) {
            Some(order) => Ok(Model { name: String::from_str(name), root_id, nodes, order }),
            None => Err(model_error("Cycle in the node links.")),
        }
    }

    /// Whether a node with `id` exists in this model.
    pub fn contains(&self, id: u64) -> (r: bool)
        ensures
            r == has_id(self.spec_nodes(), id),
    {
        id_exists(&self.nodes, id)
    }

    /// The nodes in traversal order, root first: each node is followed by
    /// its sibling subtree and then its child subtree.
    pub fn ref_nodes(&self) -> (r: Vec<ModelNode>)
        requires
            self.wf(),
        ensures
            r@ == spec_collect(
                links_of(self.spec_nodes()),
                self.spec_order(),
                self.spec_nodes(),
                slot_of(self.spec_nodes(), self.spec_root_id()),
            ),
    {
        let mut out: Vec<ModelNode> = Vec::new();
        let idx = find_index(&self.nodes, self.root_id);
        collect_rec(&self.nodes, &self.order, idx, &mut out);
        out
    }

    /// The translation row of the node's local transform.
    pub fn get_position(&self, id: u64) -> (r: (i64, i64, i64))
        requires
            self.wf(),
            has_id(self.spec_nodes(), id),
        ensures
            ({
                let t = self.spec_nodes()[slot_of(self.spec_nodes(), id)].transform;
                r == (t.r4c1, t.r4c2, t.r4c3)
            }),
    {
        let idx = find_index(&self.nodes, id);
        let t = self.nodes[idx].transform;
        (t.r4c1, t.r4c2, t.r4c3)
    }

    /// The translation row of the node's world matrix, as of the last
    /// propagation that visited it.
    pub fn get_world_position(&self, id: u64) -> (r: (i64, i64, i64))
        requires
            self.wf(),
            has_id(self.spec_nodes(), id),
        ensures
            ({
                let wm = self.spec_nodes()[slot_of(self.spec_nodes(), id)].world_matrix;
                r == (wm.r4c1, wm.r4c2, wm.r4c3)
            }),
    {
        let idx = find_index(&self.nodes, id);
        let wm = self.nodes[idx].world_matrix;
        (wm.r4c1, wm.r4c2, wm.r4c3)
    }

    /// The first row of the node's local transform: its right vector.
    pub fn get_local_right_vector(&self, id: u64) -> (r: (i64, i64, i64))
        requires
            self.wf(),
            has_id(self.spec_nodes(), id),
        ensures
            ({
                let t = self.spec_nodes()[slot_of(self.spec_nodes(), id)].transform;
                r == (t.r1c1, t.r1c2, t.r1c3)
            }),
    {
        let idx = find_index(&self.nodes, id);
        let t = self.nodes[idx].transform;
        (t.r1c1, t.r1c2, t.r1c3)
    }

    /// The second row of the node's local transform: its up vector.
    pub fn get_local_up_vector(&self, id: u64) -> (r: (i64, i64, i64))
        requires
            self.wf(),
            has_id(self.spec_nodes(), id),
        ensures
            ({
                let t = self.spec_nodes()[slot_of(self.spec_nodes(), id)].transform;
                r == (t.r2c1, t.r2c2, t.r2c3)
            }),
    {
        let idx = find_index(&self.nodes, id);
        let t = self.nodes[idx].transform;
        (t.r2c1, t.r2c2, t.r2c3)
    }

    /// The third row of the node's local transform: its look vector.
    pub fn get_local_look_vector(&self, id: u64) -> (r: (i64, i64, i64))
        requires
            self.wf(),
            has_id(self.spec_nodes(), id),
        ensures
            ({
                let t = self.spec_nodes()[slot_of(self.spec_nodes(), id)].transform;
                r == (t.r3c1, t.r3c2, t.r3c3)
            }),
    {
        let idx = find_index(&self.nodes, id);
        let t = self.nodes[idx].transform;
        (t.r3c1, t.r3c2, t.r3c3)
    }

    /// Replaces the node's local transform and repropagates from it, with the
    /// stored world matrix as the composition base.
    fn set_local_transform(&mut self, id: u64, tr: Mat4x4)
        requires
            old(self).wf(),
            has_id(old(self).spec_nodes(), id),
        ensures
            final(self).wf(),
            final(self).spec_order() == old(self).spec_order(),
            final(self).spec_root_id() == old(self).spec_root_id(),
            final(self).spec_name() == old(self).spec_name(),
            same_links(old(self).spec_nodes(), final(self).spec_nodes()),
            locals_of(final(self).spec_nodes()) == locals_of(old(self).spec_nodes()).update(
                slot_of(old(self).spec_nodes(), id),
                tr,
            ),
            worlds_of(final(self).spec_nodes()) == spec_update(
                links_of(old(self).spec_nodes()),
                old(self).spec_order(),
                locals_of(old(self).spec_nodes()).update(slot_of(old(self).spec_nodes(), id), tr),
                worlds_of(old(self).spec_nodes()),
                slot_of(old(self).spec_nodes(), id),
                None,
            ),
    {
        let ghost orig = self.nodes@;
        let idx = find_index(&self.nodes, id);
        let mut node = self.nodes[idx];
        node.transform = tr;
        self.nodes.set(idx, node);
        let ghost mid = self.nodes@;
        proof {
            assert(same_links(orig, mid));
            lemma_same_links(orig, mid);
            assert(locals_of(mid) =~= locals_of(orig).update(idx as int, tr));
            assert(worlds_of(mid) =~= worlds_of(orig));
            assert(self.wf());
            assert(has_id(mid, id));
            assert(slot_of(mid, id) == idx as int);
        }
        self.update_transform(id, None);
        proof {
            let fin = self.nodes@;
            assert(same_links(mid, fin)) by {
                assert forall|i: int| #![trigger fin[i]] 0 <= i < mid.len() implies {
                    &&& fin[i].id == mid[i].id
                    &&& fin[i].sibling == mid[i].sibling
                    &&& fin[i].child == mid[i].child
                    &&& fin[i].parent == mid[i].parent
                    &&& fin[i].mesh == mid[i].mesh
                    &&& fin[i].shader == mid[i].shader
                } by {
                    assert(fin[i] == (ModelNode { world_matrix: fin[i].world_matrix, ..mid[i] }));
                }
            }
            assert(same_links(orig, fin));
            lemma_same_structure(mid, fin);
        }
    }

    /// Sets the translation row of the node's local transform and
    /// repropagates from it.
    pub fn set_position(&mut self, id: u64, position: (i64, i64, i64))
        requires
            old(self).wf(),
            has_id(old(self).spec_nodes(), id),
        ensures
            final(self).wf(),
            final(self).spec_order() == old(self).spec_order(),
            final(self).spec_root_id() == old(self).spec_root_id(),
            final(self).spec_name() == old(self).spec_name(),
            same_links(old(self).spec_nodes(), final(self).spec_nodes()),
            ({
                let s = slot_of(old(self).spec_nodes(), id);
                let tr = (Mat4x4 {
                    r4c1: position.0,
                    r4c2: position.1,
                    r4c3: position.2,
                    ..old(self).spec_nodes()[s].transform
                });
                &&& locals_of(final(self).spec_nodes()) == locals_of(
                    old(self).spec_nodes(),
                ).update(s, tr)
                &&& worlds_of(final(self).spec_nodes()) == spec_update(
                    links_of(old(self).spec_nodes()),
                    old(self).spec_order(),
                    locals_of(old(self).spec_nodes()).update(s, tr),
                    worlds_of(old(self).spec_nodes()),
                    s,
                    None,
                )
            }),
    {
        let idx = find_index(&self.nodes, id);
        let t = self.nodes[idx].transform;
        let tr = Mat4x4 { r4c1: position.0, r4c2: position.1, r4c3: position.2, ..t };
        self.set_local_transform(id, tr);
    }

    /// Moves the node by `distance` in world coordinates (wrapping addition)
    /// and repropagates from it.
    pub fn translate_world(&mut self, id: u64, distance: (i64, i64, i64))
        requires
            old(self).wf(),
            has_id(old(self).spec_nodes(), id),
        ensures
            final(self).wf(),
            final(self).spec_order() == old(self).spec_order(),
            final(self).spec_root_id() == old(self).spec_root_id(),
            final(self).spec_name() == old(self).spec_name(),
            same_links(old(self).spec_nodes(), final(self).spec_nodes()),
            ({
                let s = slot_of(old(self).spec_nodes(), id);
                let t = old(self).spec_nodes()[s].transform;
                let tr = (Mat4x4 {
                    r4c1: crate::mat4::wadd(t.r4c1, distance.0),
                    r4c2: crate::mat4::wadd(t.r4c2, distance.1),
                    r4c3: crate::mat4::wadd(t.r4c3, distance.2),
                    ..t
                });
                &&& locals_of(final(self).spec_nodes()) == locals_of(
                    old(self).spec_nodes(),
                ).update(s, tr)
                &&& worlds_of(final(self).spec_nodes()) == spec_update(
                    links_of(old(self).spec_nodes()),
                    old(self).spec_order(),
                    locals_of(old(self).spec_nodes()).update(s, tr),
                    worlds_of(old(self).spec_nodes()),
                    s,
                    None,
                )
            }),
    {
        let idx = find_index(&self.nodes, id);
        let t = self.nodes[idx].transform;
        let tr = Mat4x4 {
            r4c1: t.r4c1.wrapping_add(distance.0),
            r4c2: t.r4c2.wrapping_add(distance.1),
            r4c3: t.r4c3.wrapping_add(distance.2),
            ..t
        };
        self.set_local_transform(id, tr);
    }

    /// Replaces the rotation rows of the node's local transform (as computed
    /// from an orientation outside the library) and repropagates from it.
    pub fn set_basis(
        &mut self,
        id: u64,
        right: (i64, i64, i64),
        up: (i64, i64, i64),
        look: (i64, i64, i64),
    )
        requires
            old(self).wf(),
            has_id(old(self).spec_nodes(), id),
        ensures
            final(self).wf(),
            final(self).spec_order() == old(self).spec_order(),
            final(self).spec_root_id() == old(self).spec_root_id(),
            final(self).spec_name() == old(self).spec_name(),
            same_links(old(self).spec_nodes(), final(self).spec_nodes()),
            ({
                let s = slot_of(old(self).spec_nodes(), id);
                let tr = (Mat4x4 {
                    r1c1: right.0,
                    r1c2: right.1,
                    r1c3: right.2,
                    r2c1: up.0,
                    r2c2: up.1,
                    r2c3: up.2,
                    r3c1: look.0,
                    r3c2: look.1,
                    r3c3: look.2,
                    ..old(self).spec_nodes()[s].transform
                });
                &&& locals_of(final(self).spec_nodes()) == locals_of(
                    old(self).spec_nodes(),
                ).update(s, tr)
                &&& worlds_of(final(self).spec_nodes()) == spec_update(
                    links_of(old(self).spec_nodes()),
                    old(self).spec_order(),
                    locals_of(old(self).spec_nodes()).update(s, tr),
                    worlds_of(old(self).spec_nodes()),
                    s,
                    None,
                )
            }),
    {
        let idx = find_index(&self.nodes, id);
        let t = self.nodes[idx].transform;
        let tr = Mat4x4 {
            r1c1: right.0,
            r1c2: right.1,
            r1c3: right.2,
            r2c1: up.0,
            r2c2: up.1,
            r2c3: up.2,
            r3c1: look.0,
            r3c2: look.1,
            r3c3: look.2,
            ..t
        };
        self.set_local_transform(id, tr);
    }

    /// Multiplies the node's local transform by `rot` on the left (the
    /// orientation change acts first) and repropagates from it.
    pub fn rotate_from_matrix(&mut self, id: u64, rot: Mat4x4)
        requires
            old(self).wf(),
            has_id(old(self).spec_nodes(), id),
        ensures
            final(self).wf(),
            final(self).spec_order() == old(self).spec_order(),
            final(self).spec_root_id() == old(self).spec_root_id(),
            final(self).spec_name() == old(self).spec_name(),
            same_links(old(self).spec_nodes(), final(self).spec_nodes()),
            ({
                let s = slot_of(old(self).spec_nodes(), id);
                let tr = spec_mul(rot, old(self).spec_nodes()[s].transform);
                &&& locals_of(final(self).spec_nodes()) == locals_of(
                    old(self).spec_nodes(),
                ).update(s, tr)
                &&& worlds_of(final(self).spec_nodes()) == spec_update(
                    links_of(old(self).spec_nodes()),
                    old(self).spec_order(),
                    locals_of(old(self).spec_nodes()).update(s, tr),
                    worlds_of(old(self).spec_nodes()),
                    s,
                    None,
                )
            }),
    {
        let idx = find_index(&self.nodes, id);
        let t = self.nodes[idx].transform;
        let tr = rot.mul_matrix4x4(t);
        self.set_local_transform(id, tr);
    }

    /// Recomputes world matrices from `id` downward.
    ///
    /// When `parent_matrix` is given, the node's world matrix becomes its
    /// local transform composed with it (local times parent, row-vector
    /// convention); otherwise the stored world matrix is kept as the
    /// composition base. Siblings are then updated with the same parent
    /// matrix, children with this node's new world matrix.
    pub fn update_transform(&mut self, id: u64, parent_matrix: Option<Mat4x4>)
        requires
            old(self).wf(),
            has_id(old(self).spec_nodes(), id),
        ensures
            final(self).wf(),
            final(self).spec_order() == old(self).spec_order(),
            final(self).spec_root_id() == old(self).spec_root_id(),
            final(self).spec_name() == old(self).spec_name(),
            same_structure(old(self).spec_nodes(), final(self).spec_nodes()),
            worlds_of(final(self).spec_nodes()) == spec_update(
                links_of(old(self).spec_nodes()),
                old(self).spec_order(),
                locals_of(old(self).spec_nodes()),
                worlds_of(old(self).spec_nodes()),
                slot_of(old(self).spec_nodes(), id),
                parent_matrix,
            ),
            // the transform composition law, at the updated node and across
            // its whole visited subtree
            match parent_matrix {
                Some(p) => ({
                    let s = slot_of(old(self).spec_nodes(), id);
                    let ln = links_of(old(self).spec_nodes());
                    let ord = old(self).spec_order();
                    let loc = locals_of(old(self).spec_nodes());
                    let wnew = worlds_of(final(self).spec_nodes());
                    &&& wnew[s] == spec_mul(loc[s], p)
                    &&& forall|k: int|
                        #![trigger ln[k]]
                        touches(ln, ord, s, k) && ln[k].child >= 0 ==> wnew[ln[k].child]
                            == spec_mul(loc[ln[k].child], wnew[k])
                }),
                None => true,
            },
    {
        let ghost orig = self.nodes@;
        let ghost ln = links_of(orig);
        let ghost ord = self.spec_order();
        let ghost loc = locals_of(orig);
        let ghost w = worlds_of(orig);
        let idx = find_index(&self.nodes, id);
        update_rec(&mut self.nodes, &self.order, idx, parent_matrix);
        proof {
            lemma_same_structure(orig, self.nodes@);
            if let Some(p) = parent_matrix {
                lemma_pass_composes(ln, ord, loc, w, idx as int, p);
            }
        }
    }
}

/// The worlds a pass assigns to the slots it visits depend only on the local
/// transforms and the parent matrix, never on the worlds it starts from.
pub proof fn lemma_update_insensitive(
    ln: Seq<Link>,
    ord: Seq<int>,
    loc: Seq<Mat4x4>,
    x: Seq<Mat4x4>,
    y: Seq<Mat4x4>,
    i: int,
    q: Mat4x4,
    k: int,
)
    requires
        links_wf(ln, ord),
        0 <= i < ln.len(),
        x.len() == ln.len(),
        y.len() == ln.len(),
        touches(ln, ord, i, k),
    ensures
        spec_update(ln, ord, loc, x, i, Some(q))[k] == spec_update(ln, ord, loc, y, i, Some(q))[k],
    decreases ln.len() - ord[i],
{
    lemma_touches_order(ln, ord, i, k);
    let m = spec_mul(loc[i], q);
    let x0 = x.update(i, m);
    let y0 = y.update(i, m);
    let x1 = if ln[i].sib >= 0 {
        spec_update(ln, ord, loc, x0, ln[i].sib, Some(q))
    } else {
        x0
    };
    let y1 = if ln[i].sib >= 0 {
        spec_update(ln, ord, loc, y0, ln[i].sib, Some(q))
    } else {
        y0
    };
    if ln[i].sib >= 0 {
        lemma_update_len(ln, ord, loc, x0, ln[i].sib, Some(q));
        lemma_update_len(ln, ord, loc, y0, ln[i].sib, Some(q));
        lemma_update_preserves_low(ln, ord, loc, x0, ln[i].sib, Some(q), i);
        lemma_update_preserves_low(ln, ord, loc, y0, ln[i].sib, Some(q), i);
    }
    assert(x1[i] == m);
    assert(y1[i] == m);
    if ln[i].child >= 0 && touches(ln, ord, ln[i].child, k) {
        lemma_update_insensitive(ln, ord, loc, x1, y1, ln[i].child, m, k);
    } else {
        if ln[i].child >= 0 {
            lemma_update_untouched(ln, ord, loc, x1, ln[i].child, Some(m), k);
            lemma_update_untouched(ln, ord, loc, y1, ln[i].child, Some(m), k);
        }
        if k == i {
        } else {
            assert(ln[i].sib >= 0 && touches(ln, ord, ln[i].sib, k));
            lemma_update_insensitive(ln, ord, loc, x0, y0, ln[i].sib, q, k);
        }
    }
}

/// A pass reaches every slot its visited slots reach.
pub proof fn lemma_touches_trans(ln: Seq<Link>, ord: Seq<int>, a: int, b: int, d: int)
    requires
        links_wf(ln, ord),
        0 <= a < ln.len(),
        touches(ln, ord, a, b),
        touches(ln, ord, b, d),
    ensures
        touches(ln, ord, a, d),
    decreases ln.len() - ord[a],
{
    lemma_touches_order(ln, ord, a, b);
    if b == a {
    } else if ln[a].sib >= 0 && touches(ln, ord, ln[a].sib, b) {
        lemma_touches_trans(ln, ord, ln[a].sib, b, d);
    } else {
        lemma_touches_trans(ln, ord, ln[a].child, b, d);
    }
}

/// Every slot a pass visits beyond its start is entered through a link from
/// another visited slot.
pub proof fn lemma_touch_has_pred(ln: Seq<Link>, ord: Seq<int>, a: int, x: int)
    requires
        links_wf(ln, ord),
        0 <= a < ln.len(),
        touches(ln, ord, a, x),
        x != a,
    ensures
        exists|p: int| #[trigger] edge(ln, p, x) && touches(ln, ord, a, p),
    decreases ln.len() - ord[a],
{
    if ln[a].sib >= 0 && touches(ln, ord, ln[a].sib, x) {
        if x == ln[a].sib {
            assert(edge(ln, a, x));
            assert(touches(ln, ord, a, a));
        } else {
            lemma_touch_has_pred(ln, ord, ln[a].sib, x);
            let p = choose|p: int| #[trigger] edge(ln, p, x) && touches(ln, ord, ln[a].sib, p);
            assert(edge(ln, p, x) && touches(ln, ord, a, p));
        }
    } else {
        assert(ln[a].child >= 0 && touches(ln, ord, ln[a].child, x));
        if x == ln[a].child {
            assert(edge(ln, a, x));
            assert(touches(ln, ord, a, a));
        } else {
            lemma_touch_has_pred(ln, ord, ln[a].child, x);
            let p = choose|p: int| #[trigger] edge(ln, p, x) && touches(ln, ord, ln[a].child, p);
            assert(edge(ln, p, x) && touches(ln, ord, a, p));
        }
    }
}

/// In a forest, the sibling subtree and the child subtree of one slot never
/// share a slot.
pub proof fn lemma_subtrees_disjoint(ln: Seq<Link>, ord: Seq<int>, j: int, x: int)
    requires
        links_wf(ln, ord),
        single_parent(ln),
        0 <= j < ln.len(),
        ln[j].sib >= 0,
        ln[j].child >= 0,
        touches(ln, ord, ln[j].sib, x),
    ensures
        !touches(ln, ord, ln[j].child, x),
    decreases ord[x],
{
    let s = ln[j].sib;
    let c = ln[j].child;
    lemma_touches_order(ln, ord, s, x);
    assert(pair_ok(ln, j, j));
    assert(s != c);
    if touches(ln, ord, c, x) {
        lemma_touches_order(ln, ord, c, x);
        if x == s {
            lemma_touch_has_pred(ln, ord, c, x);
            let p = choose|p: int| #[trigger] edge(ln, p, x) && touches(ln, ord, c, p);
            assert(pair_ok(ln, j, p));
            assert(pair_ok(ln, p, j));
            assert(p == j);
            lemma_touches_order(ln, ord, c, j);
            assert(false);
        } else if x == c {
            lemma_touch_has_pred(ln, ord, s, x);
            let p = choose|p: int| #[trigger] edge(ln, p, x) && touches(ln, ord, s, p);
            assert(pair_ok(ln, j, p));
            assert(pair_ok(ln, p, j));
            assert(p == j);
            lemma_touches_order(ln, ord, s, j);
            assert(false);
        } else {
            lemma_touch_has_pred(ln, ord, s, x);
            let p1 = choose|p: int| #[trigger] edge(ln, p, x) && touches(ln, ord, s, p);
            lemma_touch_has_pred(ln, ord, c, x);
            let p2 = choose|p: int| #[trigger] edge(ln, p, x) && touches(ln, ord, c, p);
            assert(pair_ok(ln, p1, p2));
            assert(pair_ok(ln, p2, p1));
            assert(p1 == p2);
            assert(ord[p1] < ord[x]);
            lemma_subtrees_disjoint(ln, ord, j, p1);
            assert(false);
        }
    }
}

/// The transform composition law across the whole visited subtree: after a
/// pass from `j` with parent matrix `q`, the start holds its local
/// transform composed with `q`, and the child of every visited slot holds
/// its local transform composed with the visited slot's new world matrix.
pub proof fn lemma_pass_composes(
    ln: Seq<Link>,
    ord: Seq<int>,
    loc: Seq<Mat4x4>,
    w: Seq<Mat4x4>,
    j: int,
    q: Mat4x4,
)
    requires
        links_wf(ln, ord),
        single_parent(ln),
        0 <= j < ln.len(),
        w.len() == ln.len(),
    ensures
        ({
            let r = spec_update(ln, ord, loc, w, j, Some(q));
            &&& r[j] == spec_mul(loc[j], q)
            &&& forall|k: int|
                #![trigger ln[k]]
                touches(ln, ord, j, k) && ln[k].child >= 0 ==> r[ln[k].child] == spec_mul(
                    loc[ln[k].child],
                    r[k],
                )
        }),
    decreases ln.len() - ord[j],
{
    let r = spec_update(ln, ord, loc, w, j, Some(q));
    let m = spec_mul(loc[j], q);
    let w0 = w.update(j, m);
    let s = ln[j].sib;
    let c = ln[j].child;
    let w1 = if s >= 0 {
        spec_update(ln, ord, loc, w0, s, Some(q))
    } else {
        w0
    };
    if s >= 0 {
        lemma_update_len(ln, ord, loc, w0, s, Some(q));
        lemma_update_preserves_low(ln, ord, loc, w0, s, Some(q), j);
        lemma_pass_composes(ln, ord, loc, w0, s, q);
    }
    assert(w1[j] == m);
    if c >= 0 {
        lemma_update_len(ln, ord, loc, w1, c, Some(m));
        lemma_update_preserves_low(ln, ord, loc, w1, c, Some(m), j);
        lemma_pass_composes(ln, ord, loc, w1, c, m);
    }
    assert(r[j] == m);
    assert forall|k: int|
        #![trigger ln[k]]
        touches(ln, ord, j, k) && ln[k].child >= 0 implies r[ln[k].child] == spec_mul(
        loc[ln[k].child],
        r[k],
    ) by {
        let ck = ln[k].child;
        lemma_touches_order(ln, ord, j, k);
        if k == j {
            assert(ck == c);
            assert(r[ck] == spec_mul(loc[ck], m));
        } else if c >= 0 && touches(ln, ord, c, k) {
            assert(r[ck] == spec_mul(loc[ck], r[k]));
        } else {
            assert(s >= 0 && touches(ln, ord, s, k));
            assert(touches(ln, ord, ck, ck));
            assert(touches(ln, ord, k, ck));
            lemma_touches_trans(ln, ord, s, k, ck);
            if c >= 0 {
                lemma_subtrees_disjoint(ln, ord, j, ck);
                lemma_update_untouched(ln, ord, loc, w1, c, Some(m), k);
                lemma_update_untouched(ln, ord, loc, w1, c, Some(m), ck);
            }
            assert(w1[ck] == spec_mul(loc[ck], w1[k]));
            assert(r[k] == w1[k]);
            assert(r[ck] == w1[ck]);
        }
    }
}

/// Idempotence of transform propagation: running the same pass twice with
/// the same parent matrix, with no local mutation in between, leaves exactly
/// the worlds the first pass produced.
pub proof fn lemma_update_idempotent(
    ln: Seq<Link>,
    ord: Seq<int>,
    loc: Seq<Mat4x4>,
    w: Seq<Mat4x4>,
    i: int,
    q: Mat4x4,
)
    requires
        links_wf(ln, ord),
        0 <= i < ln.len(),
        w.len() == ln.len(),
    ensures
        spec_update(ln, ord, loc, spec_update(ln, ord, loc, w, i, Some(q)), i, Some(q))
            == spec_update(ln, ord, loc, w, i, Some(q)),
{
    let r1 = spec_update(ln, ord, loc, w, i, Some(q));
    let r2 = spec_update(ln, ord, loc, r1, i, Some(q));
    lemma_update_len(ln, ord, loc, w, i, Some(q));
    lemma_update_len(ln, ord, loc, r1, i, Some(q));
    assert forall|k: int| 0 <= k < w.len() implies r2[k] == r1[k] by {
        if touches(ln, ord, i, k) {
            lemma_update_insensitive(ln, ord, loc, r1, w, i, q, k);
        } else {
            lemma_update_untouched(ln, ord, loc, r1, i, Some(q), k);
        }
    }
    assert(r2 =~= r1);
}

} // verus!
