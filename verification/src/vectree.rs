//! A rooted tree with any number of children per node, and the ghost model
//! of coordinate trees built by the range finder.
use vstd::prelude::*;
use crate::coords::CellCoord;
use crate::coords::GridCoord;

verus! {

/// Simple tree that can have any amount of children.
pub struct VecTree<T> {
    pub value: T,
    pub children: Vec<VecTree<T>>,
}

impl<T> VecTree<T> {
    pub fn new(value: T, children: Vec<VecTree<T>>) -> (r: VecTree<T>)
        ensures
            r.value == value,
            r.children == children,
    {
        VecTree { value, children }
    }
}

/// Mathematical model of a coordinate tree: a rooted tree whose nodes are
/// grid coordinates and whose children stand in traversal order.
pub ghost struct SpecTree {
    pub value: GridCoord,
    pub children: Seq<SpecTree>,
}

/// The model of an executable coordinate tree.
pub open spec fn tree_view(t: VecTree<CellCoord>) -> SpecTree
    decreases t,
{
    SpecTree { value: t.value@, children: forest_view(t.children@) }
}

/// The models of a sequence of executable coordinate trees, in order.
pub open spec fn forest_view(f: Seq<VecTree<CellCoord>>) -> Seq<SpecTree>
    decreases f,
{
    if f.len() == 0 {
        Seq::empty()
    } else {
        seq![tree_view(f[0])] + forest_view(f.drop_first())
    }
}

impl View for VecTree<CellCoord> {
    type V = SpecTree;

    open spec fn view(&self) -> SpecTree {
        tree_view(*self)
    }
}

pub proof fn lemma_forest_view_index(f: Seq<VecTree<CellCoord>>)
    ensures
        forest_view(f).len() == f.len(),
        forall|i: int| 0 <= i < f.len() ==> forest_view(f)[i] == tree_view(f[i]),
    decreases f.len(),
{
    if f.len() > 0 {
        lemma_forest_view_index(f.drop_first());
        assert forall|i: int| 0 <= i < f.len() implies forest_view(f)[i] == tree_view(f[i]) by {
            if i > 0 {
                assert(forest_view(f)[i] == forest_view(f.drop_first())[i - 1]);
                assert(f.drop_first()[i - 1] == f[i]);
            }
        }
    }
}

pub proof fn lemma_forest_view_push(f: Seq<VecTree<CellCoord>>, t: VecTree<CellCoord>)
    ensures
        forest_view(f.push(t)) == forest_view(f).push(tree_view(t)),
    decreases f.len(),
{
    if f.len() == 0 {
        assert(f.push(t)[0] == t);
        assert(f.push(t).drop_first() =~= Seq::<VecTree<CellCoord>>::empty());
        assert(forest_view(Seq::<VecTree<CellCoord>>::empty()) == Seq::<SpecTree>::empty());
        assert(forest_view(f.push(t)) == seq![tree_view(t)] + Seq::<SpecTree>::empty());
        assert(forest_view(f) == Seq::<SpecTree>::empty());
        assert(forest_view(f.push(t)) =~= forest_view(f).push(tree_view(t)));
    } else {
        assert(f.push(t).drop_first() =~= f.drop_first().push(t));
        lemma_forest_view_push(f.drop_first(), t);
        assert(forest_view(f.push(t)) == seq![tree_view(f[0])] + forest_view(
            f.drop_first(),
        ).push(tree_view(t)));
        assert(forest_view(f) == seq![tree_view(f[0])] + forest_view(f.drop_first()));
        assert(seq![tree_view(f[0])] + forest_view(f.drop_first()).push(tree_view(t)) =~= (seq![
            tree_view(f[0]),
        ] + forest_view(f.drop_first())).push(tree_view(t)));
    }
}

/// All coordinates that stand at the nodes of a tree, root included.
pub open spec fn tree_coords(t: SpecTree) -> Set<GridCoord>
    decreases t,
{
    set![t.value].union(forest_coords(t.children))
}

/// All coordinates that stand at the nodes of a sequence of trees.
pub open spec fn forest_coords(f: Seq<SpecTree>) -> Set<GridCoord>
    decreases f,
{
    if f.len() == 0 {
        Set::empty()
    } else {
        tree_coords(f[0]).union(forest_coords(f.drop_first()))
    }
}

pub proof fn lemma_forest_coords_index(f: Seq<SpecTree>)
    ensures
        forall|c: GridCoord|
            #[trigger] forest_coords(f).contains(c) <==> exists|i: int|
                0 <= i < f.len() && #[trigger] tree_coords(f[i]).contains(c),
    decreases f.len(),
{
    if f.len() > 0 {
        lemma_forest_coords_index(f.drop_first());
        assert forall|c: GridCoord| #[trigger] forest_coords(f).contains(c) implies exists|i: int|
            0 <= i < f.len() && #[trigger] tree_coords(f[i]).contains(c) by {
            if tree_coords(f[0]).contains(c) {
                assert(tree_coords(f[0]).contains(c));
            } else {
                assert(forest_coords(f.drop_first()).contains(c));
                let j = choose|j: int|
                    0 <= j < f.drop_first().len() && #[trigger] tree_coords(
                        f.drop_first()[j],
                    ).contains(c);
                assert(f.drop_first()[j] == f[j + 1]);
                assert(tree_coords(f[j + 1]).contains(c));
            }
        }
        assert forall|c: GridCoord|
            exists|i: int|
                0 <= i < f.len() && #[trigger] tree_coords(f[i]).contains(c) implies forest_coords(
            f,
        ).contains(c) by {
            let i = choose|i: int| 0 <= i < f.len() && #[trigger] tree_coords(f[i]).contains(c);
            if i > 0 {
                assert(f.drop_first()[i - 1] == f[i]);
                assert(forest_coords(f.drop_first()).contains(c));
            }
        }
    }
}

pub proof fn lemma_forest_coords_concat(a: Seq<SpecTree>, b: Seq<SpecTree>)
    ensures
        forest_coords(a + b) == forest_coords(a).union(forest_coords(b)),
    decreases a.len(),
{
    if a.len() == 0 {
        assert(a + b =~= b);
        assert(forest_coords(a) =~= Set::<GridCoord>::empty());
        assert(forest_coords(a).union(forest_coords(b)) =~= forest_coords(b));
    } else {
        assert((a + b)[0] == a[0]);
        assert((a + b).drop_first() =~= a.drop_first() + b);
        lemma_forest_coords_concat(a.drop_first(), b);
        assert(forest_coords(a + b) == tree_coords(a[0]).union(
            forest_coords(a.drop_first() + b),
        ));
        assert(tree_coords(a[0]).union(forest_coords(a.drop_first()).union(forest_coords(b)))
            =~= forest_coords(a).union(forest_coords(b)));
    }
}

/// The depth of a tree: the length of its longest root-to-leaf path, a
/// leaf having depth zero.
pub open spec fn tree_depth(t: SpecTree) -> nat
    decreases t,
{
    if t.children.len() == 0 {
        0
    } else {
        1 + forest_depth(t.children)
    }
}

/// The largest depth among a sequence of trees.
pub open spec fn forest_depth(f: Seq<SpecTree>) -> nat
    decreases f,
{
    if f.len() == 0 {
        0
    } else {
        let head = tree_depth(f[0]);
        let rest = forest_depth(f.drop_first());
        if head >= rest {
            head
        } else {
            rest
        }
    }
}

pub proof fn lemma_forest_depth_concat(a: Seq<SpecTree>, b: Seq<SpecTree>)
    ensures
        forest_depth(a + b) == if forest_depth(a) >= forest_depth(b) {
            forest_depth(a)
        } else {
            forest_depth(b)
        },
    decreases a.len(),
{
    if a.len() == 0 {
        assert(a + b =~= b);
    } else {
        assert((a + b)[0] == a[0]);
        assert((a + b).drop_first() =~= a.drop_first() + b);
        lemma_forest_depth_concat(a.drop_first(), b);
    }
}

pub proof fn lemma_forest_depth_singleton(t: SpecTree)
    ensures
        forest_depth(seq![t]) == tree_depth(t),
{
    assert(seq![t][0] == t);
    assert(seq![t].drop_first() =~= Seq::<SpecTree>::empty());
    assert(forest_depth(Seq::<SpecTree>::empty()) == 0);
}

pub proof fn lemma_forest_coords_singleton(t: SpecTree)
    ensures
        forest_coords(seq![t]) == tree_coords(t),
{
    assert(seq![t][0] == t);
    assert(seq![t].drop_first() =~= Seq::<SpecTree>::empty());
    assert(forest_coords(Seq::<SpecTree>::empty()) =~= Set::<GridCoord>::empty());
    assert(forest_coords(seq![t]) =~= tree_coords(t));
}

/// The positions one flattening of the whole subtree under `t` highlights,
/// in the order they are written: children before the node itself, and every
/// coordinate adjusted one level down, onto the supporting block.
pub open spec fn node_flat(t: SpecTree) -> Seq<GridCoord>
    decreases t,
{
    forest_flat(t.children) + seq![t.value.down()]
}

/// The positions flattening writes for a sequence of subtrees, in order.
pub open spec fn forest_flat(f: Seq<SpecTree>) -> Seq<GridCoord>
    decreases f,
{
    if f.len() == 0 {
        Seq::empty()
    } else {
        node_flat(f[0]) + forest_flat(f.drop_first())
    }
}

/// The positions flattening a range tree writes, in order.  Only expanded
/// children are marked: the root itself is left out.
pub open spec fn flat_seq(t: SpecTree) -> Seq<GridCoord> {
    forest_flat(t.children)
}

pub proof fn lemma_forest_flat_push(f: Seq<SpecTree>, t: SpecTree)
    ensures
        forest_flat(f.push(t)) == forest_flat(f) + node_flat(t),
    decreases f.len(),
{
    if f.len() == 0 {
        assert(f.push(t)[0] == t);
        assert(f.push(t).drop_first() =~= Seq::<SpecTree>::empty());
        assert(forest_flat(Seq::<SpecTree>::empty()) == Seq::<GridCoord>::empty());
        assert(forest_flat(f.push(t)) == node_flat(t) + Seq::<GridCoord>::empty());
        assert(forest_flat(f) == Seq::<GridCoord>::empty());
        assert(forest_flat(f.push(t)) =~= forest_flat(f) + node_flat(t));
    } else {
        assert(f.push(t).drop_first() =~= f.drop_first().push(t));
        lemma_forest_flat_push(f.drop_first(), t);
        assert(forest_flat(f.push(t)) == node_flat(f[0]) + (forest_flat(f.drop_first())
            + node_flat(t)));
        assert(forest_flat(f) == node_flat(f[0]) + forest_flat(f.drop_first()));
        assert(node_flat(f[0]) + (forest_flat(f.drop_first()) + node_flat(t)) =~= (node_flat(f[0])
            + forest_flat(f.drop_first())) + node_flat(t));
    }
}

/// Every node of the tree sits strictly above the lowest representable
/// level, so the block beneath each node has a representable coordinate.
pub open spec fn tree_above_floor(t: SpecTree) -> bool {
    forall|c: GridCoord| #[trigger] tree_coords(t).contains(c) ==> c.y > i32::MIN as int
}

/// Every node of every tree in the sequence sits strictly above the lowest
/// representable level.
pub open spec fn forest_above_floor(f: Seq<SpecTree>) -> bool {
    forall|c: GridCoord| #[trigger] forest_coords(f).contains(c) ==> c.y > i32::MIN as int
}

pub proof fn lemma_concat_to_set(a: Seq<GridCoord>, b: Seq<GridCoord>)
    ensures
        (a + b).to_set() == a.to_set().union(b.to_set()),
{
    assert forall|x: GridCoord| #[trigger] (a + b).to_set().contains(x) implies a.to_set().union(
        b.to_set(),
    ).contains(x) by {
        let i = choose|i: int| 0 <= i < (a + b).len() && (a + b)[i] == x;
        if i < a.len() {
            assert(a[i] == x);
        } else {
            assert(b[i - a.len()] == x);
        }
    }
    assert forall|x: GridCoord| a.to_set().union(b.to_set()).contains(x) implies #[trigger] (a
        + b).to_set().contains(x) by {
        if a.to_set().contains(x) {
            let i = choose|i: int| 0 <= i < a.len() && a[i] == x;
            assert((a + b)[i] == x);
        } else {
            let i = choose|i: int| 0 <= i < b.len() && b[i] == x;
            assert((a + b)[a.len() + i] == x);
        }
    }
    assert((a + b).to_set() =~= a.to_set().union(b.to_set()));
}

/// What flattening highlights is exactly the coordinates of the expanded
/// children, each moved onto the block beneath it.
pub proof fn lemma_flat_seq_is_coords_below(t: SpecTree)
    ensures
        flat_seq(t).to_set() == forest_coords(t.children).map(|c: GridCoord| c.down()),
{
    lemma_forest_flat_to_set(t.children);
}

pub proof fn lemma_forest_flat_to_set(f: Seq<SpecTree>)
    ensures
        forest_flat(f).to_set() == forest_coords(f).map(|c: GridCoord| c.down()),
    decreases f,
{
    let down = |c: GridCoord| c.down();
    if f.len() == 0 {
        assert forall|x: GridCoord| !(#[trigger] forest_coords(f).map(down).contains(x)) by {
            assert(forall|c: GridCoord| !(#[trigger] forest_coords(f).contains(c)));
        }
        assert(forest_flat(f).to_set() =~= forest_coords(f).map(down));
    } else {
        lemma_node_flat_to_set(f[0]);
        lemma_forest_flat_to_set(f.drop_first());
        lemma_concat_to_set(node_flat(f[0]), forest_flat(f.drop_first()));
        let lhs = tree_coords(f[0]).map(down).union(forest_coords(f.drop_first()).map(down));
        assert(forest_flat(f).to_set() == lhs);
        assert forall|x: GridCoord| #[trigger] lhs.contains(x) implies forest_coords(f).map(
            down,
        ).contains(x) by {
            if tree_coords(f[0]).map(down).contains(x) {
                let c = choose|c: GridCoord| tree_coords(f[0]).contains(c) && x == down(c);
                assert(forest_coords(f).contains(c));
            } else {
                let c = choose|c: GridCoord|
                    forest_coords(f.drop_first()).contains(c) && x == down(c);
                assert(forest_coords(f).contains(c));
            }
        }
        assert forall|x: GridCoord| #[trigger] forest_coords(f).map(down).contains(x) implies lhs
            .contains(x) by {
            let c = choose|c: GridCoord| forest_coords(f).contains(c) && x == down(c);
            if tree_coords(f[0]).contains(c) {
                assert(tree_coords(f[0]).map(down).contains(x));
            } else {
                assert(forest_coords(f.drop_first()).map(down).contains(x));
            }
        }
        assert(forest_flat(f).to_set() =~= forest_coords(f).map(down));
    }
}

pub proof fn lemma_node_flat_to_set(t: SpecTree)
    ensures
        node_flat(t).to_set() == tree_coords(t).map(|c: GridCoord| c.down()),
    decreases t,
{
    let down = |c: GridCoord| c.down();
    lemma_forest_flat_to_set(t.children);
    lemma_concat_to_set(forest_flat(t.children), seq![t.value.down()]);
    assert(seq![t.value.down()].to_set() =~= set![t.value.down()]) by {
        assert(seq![t.value.down()][0] == t.value.down());
    }
    let lhs = forest_coords(t.children).map(down).union(set![t.value.down()]);
    assert(node_flat(t).to_set() == lhs);
    assert forall|x: GridCoord| #[trigger] lhs.contains(x) implies tree_coords(t).map(
        down,
    ).contains(x) by {
        if forest_coords(t.children).map(down).contains(x) {
            let c = choose|c: GridCoord| forest_coords(t.children).contains(c) && x == down(c);
            assert(tree_coords(t).contains(c));
        } else {
            assert(tree_coords(t).contains(t.value));
            assert(x == down(t.value));
        }
    }
    assert forall|x: GridCoord| #[trigger] tree_coords(t).map(down).contains(x) implies lhs
        .contains(x) by {
        let c = choose|c: GridCoord| tree_coords(t).contains(c) && x == down(c);
        if c == t.value {
            assert(lhs.contains(down(t.value)));
        } else {
            assert(forest_coords(t.children).contains(c));
            assert(forest_coords(t.children).map(down).contains(x));
        }
    }
    assert(node_flat(t).to_set() =~= tree_coords(t).map(down));
}

} // verus!
