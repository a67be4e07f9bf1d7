//! Which package pulled a vulnerable one in: the leaf at the end of the
//! longest chain of dependents, the first such leaf where several chains are
//! equally long.

use crate::deny::output::Graph;
use vstd::prelude::*;

verus! {

/// Length of the longest chain of parents that starts at `tree`. A node
/// without parents has depth 0.
pub open spec fn depth(tree: Graph) -> nat
    decreases tree,
{
    if tree.parents@.len() == 0 {
        0
    } else {
        1 + max_depth(tree.parents@)
    }
}

/// The largest depth among the trees of `forest`, 0 for an empty forest.
pub open spec fn max_depth(forest: Seq<Graph>) -> nat
    decreases forest,
{
    if forest.len() == 0 {
        0
    } else {
        let before = max_depth(forest.drop_last());
        let last = depth(forest.last());
        if last > before {
            last
        } else {
            before
        }
    }
}

/// Name of the leaf that ends the longest chain of parents from `tree`: the
/// node itself where it has no parents, else the deepest leaf of its parents.
pub open spec fn deepest_leaf(tree: Graph) -> Seq<char>
    decreases tree,
{
    if tree.parents@.len() == 0 {
        tree.name@
    } else {
        forest_leaf(tree.parents@)
    }
}

/// Name of the deepest leaf of the first tree of `forest` that is as deep as
/// any: a later tree is chosen only where it is strictly deeper than all the
/// trees before it. Meant for a forest that is not empty.
pub open spec fn forest_leaf(forest: Seq<Graph>) -> Seq<char>
    decreases forest,
{
    if forest.len() == 0 {
        Seq::empty()
    } else if forest.len() == 1 || depth(forest.last()) > max_depth(forest.drop_last()) {
        deepest_leaf(forest.last())
    } else {
        forest_leaf(forest.drop_last())
    }
}

/// The progenitor of a forest of dependency paths: nothing for an empty
/// forest, else the name of its deepest leaf.
pub open spec fn progenitor(forest: Seq<Graph>) -> Option<Seq<char>> {
    if forest.len() == 0 {
        None
    } else {
        Some(forest_leaf(forest))
    }
}

/// The parents of all the trees of `forest`, in order: the next level of the
/// forest.
pub open spec fn next_level(forest: Seq<Graph>) -> Seq<Graph>
    decreases forest.len(),
{
    if forest.len() == 0 {
        Seq::empty()
    } else {
        next_level(forest.drop_last()) + forest.last().parents@
    }
}

/// No tree is deeper than the forest's largest depth.
pub proof fn lemma_max_depth_bounds(forest: Seq<Graph>, i: int)
    requires
        0 <= i < forest.len(),
    ensures
        depth(forest[i]) <= max_depth(forest),
    decreases forest.len(),
{
    if i < forest.len() - 1 {
        lemma_max_depth_bounds(forest.drop_last(), i);
    }
}

/// Ties go to the first. The deepest leaf of a forest is that of the first
/// of its trees that is as deep as any: all the trees before it are less
/// deep, and none is deeper. The same holds of the parents of a node, since
/// its deepest leaf is that of the forest of its parents.
pub proof fn lemma_first_of_the_deepest(forest: Seq<Graph>)
    requires
        forest.len() > 0,
    ensures
        exists|i: int|
            {
                &&& 0 <= i < forest.len()
                &&& depth(#[trigger] forest[i]) == max_depth(forest)
                &&& forall|j: int| 0 <= j < i ==> depth(#[trigger] forest[j]) < max_depth(forest)
                &&& forest_leaf(forest) == deepest_leaf(forest[i])
            },
    decreases forest.len(),
{
    let before = forest.drop_last();
    if forest.len() == 1 || depth(forest.last()) > max_depth(before) {
        let i = forest.len() - 1;
        assert forall|j: int| 0 <= j < i implies depth(#[trigger] forest[j]) < max_depth(
            forest,
        ) by {
            lemma_max_depth_bounds(before, j);
            assert(before[j] == forest[j]);
        }
        assert(depth(forest[i]) == max_depth(forest));
    } else {
        lemma_first_of_the_deepest(before);
        let i = choose|i: int|
            {
                &&& 0 <= i < before.len()
                &&& depth(#[trigger] before[i]) == max_depth(before)
                &&& forall|j: int| 0 <= j < i ==> depth(#[trigger] before[j]) < max_depth(before)
                &&& forest_leaf(before) == deepest_leaf(before[i])
            };
        assert(before[i] == forest[i]);
        assert forall|j: int| 0 <= j < i implies depth(#[trigger] forest[j]) < max_depth(
            forest,
        ) by {
            assert(before[j] == forest[j]);
        }
        assert(depth(forest[i]) == max_depth(forest));
    }
}

/// The largest depth of two forests joined is the larger of their largest
/// depths.
pub proof fn lemma_max_depth_concat(a: Seq<Graph>, b: Seq<Graph>)
    ensures
        max_depth(a + b) == if max_depth(a) >= max_depth(b) {
            max_depth(a)
        } else {
            max_depth(b)
        },
    decreases b.len(),
{
    if b.len() == 0 {
        assert(a + b =~= a);
    } else {
        assert((a + b).drop_last() =~= a + b.drop_last());
        assert((a + b).last() == b.last());
        lemma_max_depth_concat(a, b.drop_last());
    }
}

/// The deepest leaf of two forests joined is that of the second only where
/// the second is strictly deeper, or the first is empty.
pub proof fn lemma_forest_leaf_concat(a: Seq<Graph>, b: Seq<Graph>)
    requires
        a.len() + b.len() > 0,
    ensures
        forest_leaf(a + b) == if a.len() == 0 || (b.len() > 0 && max_depth(b) > max_depth(a)) {
            forest_leaf(b)
        } else {
            forest_leaf(a)
        },
    decreases b.len(),
{
    if b.len() == 0 {
        assert(a + b =~= a);
    } else if a.len() == 0 {
        assert(a + b =~= b);
    } else {
        assert((a + b).drop_last() =~= a + b.drop_last());
        assert((a + b).last() == b.last());
        lemma_max_depth_concat(a, b.drop_last());
        lemma_forest_leaf_concat(a, b.drop_last());
    }
}

/// The next level of a forest is one less deep, and is empty exactly where
/// every tree of the forest is a leaf.
pub proof fn lemma_next_level_depth(forest: Seq<Graph>)
    ensures
        next_level(forest).len() == 0 <==> max_depth(forest) == 0,
        max_depth(forest) > 0 ==> max_depth(next_level(forest)) + 1 == max_depth(forest),
    decreases forest.len(),
{
    if forest.len() > 0 {
        let before = forest.drop_last();
        let last = forest.last();
        lemma_next_level_depth(before);
        lemma_max_depth_concat(next_level(before), last.parents@);
        assert(max_depth(last.parents@) == 0 <== last.parents@.len() == 0);
        assert(depth(last) == if last.parents@.len() == 0 {
            0
        } else {
            1 + max_depth(last.parents@)
        });
    }
}

/// In a forest of leaves the first one is chosen.
pub proof fn lemma_forest_of_leaves(forest: Seq<Graph>)
    requires
        forest.len() > 0,
        max_depth(forest) == 0,
    ensures
        forest_leaf(forest) == forest[0].name@,
    decreases forest.len(),
{
    let last = forest.last();
    assert(depth(last) == 0);
    if forest.len() > 1 {
        lemma_forest_of_leaves(forest.drop_last());
    } else {
        assert(last.parents@.len() == 0);
        assert(deepest_leaf(last) == last.name@);
    }
}

/// The deepest leaf of a forest is the deepest leaf of its next level, where
/// there is one.
pub proof fn lemma_forest_leaf_descends(forest: Seq<Graph>)
    requires
        next_level(forest).len() > 0,
    ensures
        forest_leaf(forest) == forest_leaf(next_level(forest)),
    decreases forest.len(),
{
    let before = forest.drop_last();
    let last = forest.last();
    lemma_next_level_depth(before);
    lemma_forest_leaf_concat(next_level(before), last.parents@);
    assert(max_depth(last.parents@) == 0 <== last.parents@.len() == 0);
    assert(depth(last) == if last.parents@.len() == 0 {
        0
    } else {
        1 + max_depth(last.parents@)
    });
    assert(deepest_leaf(last) == if last.parents@.len() == 0 {
        last.name@
    } else {
        forest_leaf(last.parents@)
    });
    if next_level(before).len() > 0 {
        lemma_forest_leaf_descends(before);
    }
}

/// A chain of parents through `forest`: it starts at one of the forest's
/// trees, and every further node is a parent of the node before it.
pub open spec fn is_chain(forest: Seq<Graph>, chain: Seq<Graph>) -> bool {
    &&& chain.len() > 0
    &&& forest.contains(chain[0])
    &&& forall|k: int|
        0 <= k < chain.len() - 1 ==> (#[trigger] chain[k]).parents@.contains(chain[k + 1])
}

/// The chain from `tree` to its deepest leaf.
pub open spec fn tree_chain(tree: Graph) -> Seq<Graph>
    decreases tree,
{
    if tree.parents@.len() == 0 {
        seq![tree]
    } else {
        seq![tree] + forest_chain(tree.parents@)
    }
}

/// The chain from the first deepest tree of `forest` to its deepest leaf.
pub open spec fn forest_chain(forest: Seq<Graph>) -> Seq<Graph>
    decreases forest,
{
    if forest.len() == 0 {
        Seq::empty()
    } else if forest.len() == 1 || depth(forest.last()) > max_depth(forest.drop_last()) {
        tree_chain(forest.last())
    } else {
        forest_chain(forest.drop_last())
    }
}

/// `tree_chain` is a chain of `depth(tree) + 1` nodes from `tree` to the leaf
/// that `deepest_leaf` names.
pub proof fn lemma_tree_chain(tree: Graph)
    ensures
        is_chain(seq![tree], tree_chain(tree)),
        tree_chain(tree)[0] == tree,
        tree_chain(tree).len() == depth(tree) + 1,
        tree_chain(tree).last().parents@.len() == 0,
        tree_chain(tree).last().name@ == deepest_leaf(tree),
    decreases tree,
{
    assert(seq![tree][0] == tree);
    if tree.parents@.len() > 0 {
        lemma_forest_chain(tree.parents@);
        let below = forest_chain(tree.parents@);
        let chain = tree_chain(tree);
        assert forall|k: int| 0 <= k < chain.len() - 1 implies (#[trigger] chain[k]).parents@.contains(
            chain[k + 1],
        ) by {
            if k > 0 {
                assert(chain[k] == below[k - 1]);
                assert(chain[k + 1] == below[k]);
            } else {
                assert(chain[1] == below[0]);
            }
        }
    }
}

/// `forest_chain` is a chain of `max_depth(forest) + 1` nodes through a
/// forest that is not empty, to the leaf that `forest_leaf` names.
pub proof fn lemma_forest_chain(forest: Seq<Graph>)
    requires
        forest.len() > 0,
    ensures
        is_chain(forest, forest_chain(forest)),
        forest_chain(forest).len() == max_depth(forest) + 1,
        forest_chain(forest).last().parents@.len() == 0,
        forest_chain(forest).last().name@ == forest_leaf(forest),
    decreases forest,
{
    let before = forest.drop_last();
    let last = forest.last();
    if forest.len() == 1 || depth(last) > max_depth(before) {
        lemma_tree_chain(last);
        assert(forest[forest.len() - 1] == last);
    } else {
        lemma_forest_chain(before);
        let first = forest_chain(before)[0];
        let at = choose|i: int| 0 <= i < before.len() && before[i] == first;
        assert(forest[at] == first);
    }
}

/// A chain of parents that starts at `tree` has at most `depth(tree) + 1`
/// nodes.
pub proof fn lemma_chain_from_tree(tree: Graph, chain: Seq<Graph>)
    requires
        is_chain(seq![tree], chain),
    ensures
        chain.len() <= depth(tree) + 1,
    decreases chain.len(),
{
    let at = choose|i: int| 0 <= i < seq![tree].len() && seq![tree][i] == chain[0];
    assert(chain[0] == tree);
    if chain.len() > 1 {
        let rest = chain.skip(1);
        let next = rest[0];
        assert(chain[0].parents@.contains(chain[1]));
        let i = choose|i: int| 0 <= i < tree.parents@.len() && tree.parents@[i] == next;
        assert forall|k: int| 0 <= k < rest.len() - 1 implies (#[trigger] rest[k]).parents@.contains(
            rest[k + 1],
        ) by {
            assert(rest[k] == chain[k + 1]);
            assert(chain[k + 1].parents@.contains(chain[k + 2]));
        }
        assert(seq![next][0] == next);
        lemma_chain_from_tree(next, rest);
        lemma_max_depth_bounds(tree.parents@, i);
    }
}

/// The progenitor is the name of a leaf that ends a longest chain of parents
/// through the forest: such a chain exists wherever the forest is not empty,
/// it has one node more than the forest is deep, and no chain is longer. An
/// empty forest, and no other, has no progenitor.
pub proof fn lemma_progenitor_ends_longest_chain(forest: Seq<Graph>)
    ensures
        progenitor(forest) is None <==> forest.len() == 0,
        forest.len() > 0 ==> exists|chain: Seq<Graph>|
            {
                &&& #[trigger] is_chain(forest, chain)
                &&& chain.len() == max_depth(forest) + 1
                &&& chain.last().parents@.len() == 0
                &&& progenitor(forest) == Some(chain.last().name@)
            },
        forall|chain: Seq<Graph>| #[trigger]
            is_chain(forest, chain) ==> chain.len() <= max_depth(forest) + 1,
{
    if forest.len() > 0 {
        lemma_forest_chain(forest);
        assert(is_chain(forest, forest_chain(forest)));
    }
    assert forall|chain: Seq<Graph>| #[trigger] is_chain(forest, chain) implies chain.len()
        <= max_depth(forest) + 1 by {
        let at = choose|i: int| 0 <= i < forest.len() && forest[i] == chain[0];
        assert(seq![chain[0]][0] == chain[0]);
        lemma_chain_from_tree(chain[0], chain);
        lemma_max_depth_bounds(forest, at);
    }
}

/// The trees that a level of references points at.
pub open spec fn trees(level: Seq<&Graph>) -> Seq<Graph> {
    level.map_values(|tree: &Graph| *tree)
}

/// References to the trees of a forest, in order.
pub fn first_level<'a>(graphs: &'a Vec<Graph>) -> (level: Vec<&'a Graph>)
    ensures
        trees(level@) == graphs@,
{
    let mut level: Vec<&'a Graph> = Vec::new();
    let mut i: usize = 0;
    while i < graphs.len()
        invariant
            i <= graphs@.len(),
            level@.len() == i,
            trees(level@) == graphs@.take(i as int),
        decreases graphs@.len() - i,
    {
        let ghost before = level@;
        level.push(&graphs[i]);
        i += 1;
        assert forall|k: int| 0 <= k < i implies trees(level@)[k] == graphs@[k] by {
            if k < i - 1 {
                assert(trees(before)[k] == graphs@.take(i - 1)[k]);
            }
        }
        assert(trees(level@) =~= graphs@.take(i as int));
    }
    assert(graphs@.take(i as int) =~= graphs@);
    level
}

/// References to the parents of all the trees of a level, in order.
pub fn descend<'a>(level: &Vec<&'a Graph>) -> (next: Vec<&'a Graph>)
    ensures
        trees(next@) == next_level(trees(level@)),
{
    let mut next: Vec<&'a Graph> = Vec::new();
    let mut i: usize = 0;
    while i < level.len()
        invariant
            i <= level@.len(),
            trees(next@) == next_level(trees(level@).take(i as int)),
        decreases level@.len() - i,
    {
        let tree: &'a Graph = level[i];
        let ghost before = trees(next@);
        let mut j: usize = 0;
        while j < tree.parents.len()
            invariant
                j <= tree.parents@.len(),
                next@.len() == before.len() + j,
                trees(next@) == before + tree.parents@.take(j as int),
            decreases tree.parents@.len() - j,
        {
            let ghost held = next@;
            next.push(&tree.parents[j]);
            j += 1;
            assert forall|k: int| 0 <= k < next@.len() implies trees(next@)[k] == (before
                + tree.parents@.take(j as int))[k] by {
                if k < next@.len() - 1 {
                    assert(trees(held)[k] == (before + tree.parents@.take(j - 1))[k]);
                }
            }
            assert(trees(next@) =~= before + tree.parents@.take(j as int));
        }
        proof {
            let upto = trees(level@).take(i as int + 1);
            assert(upto.drop_last() =~= trees(level@).take(i as int));
            assert(upto.last() == *tree);
            assert(tree.parents@.take(j as int) =~= tree.parents@);
        }
        i += 1;
    }
    proof {
        assert(trees(level@).take(i as int) =~= trees(level@));
    }
    next
}

} // verus!
