//! Parent/child relationships between scene entities.
//!
//! Children are owned exclusively by their parent, so these operations
//! work on the parent's child list directly.  The upward reference is a
//! lookup key ([`ParentWrapper`]), never a second owning reference.

use vstd::prelude::*;

use crate::registration::id::ID;
use crate::scene::game_object::{
    forest_find, forest_ids, lemma_forest_ids_contains, lemma_forest_ids_split, subtree_ids,
    tree_find, GameObjectNode,
};

verus! {

/// A node's parent: another game object, or the scene root itself.
#[derive(Clone, Copy, Debug, PartialEq, Eq, Structural)]
pub enum ParentWrapper {
    /// The parent is the game object with this identifier.
    GameObject(ID),
    /// The parent is the scene root.
    Scene,
}

/// How many direct children of the list carry the given name.
pub open spec fn count_named<G>(children: Seq<GameObjectNode<G>>, name: Seq<char>) -> nat
    decreases children,
{
    if children.len() == 0 {
        0
    } else {
        (if children[0].name@ == name {
            1nat
        } else {
            0nat
        }) + count_named(children.drop_first(), name)
    }
}

/// Counting over a prefix, used to relate a scan to `count_named`.
pub proof fn lemma_count_named_take_step<G>(children: Seq<GameObjectNode<G>>, name: Seq<char>, i: int)
    requires
        0 <= i < children.len(),
    ensures
        count_named(children.take(i + 1), name) == count_named(children.take(i), name) + (
        if children[i].name@ == name {
            1nat
        } else {
            0nat
        }),
    decreases i,
{
    if i == 0 {
        assert(children.take(1).drop_first() =~= children.take(0));
        assert(children.take(1)[0] == children[0]);
        assert(count_named(children.take(0), name) == 0);
    } else {
        lemma_count_named_take_step(children.drop_first(), name, i - 1);
        assert(children.take(i + 1).drop_first() =~= children.drop_first().take(i));
        assert(children.take(i).drop_first() =~= children.drop_first().take(i - 1));
        assert(children.take(i + 1)[0] == children[0]);
        assert(children.take(i)[0] == children[0]);
        assert(children.drop_first()[i - 1] == children[i]);
    }
}

/// The whole list is its own full prefix.
pub proof fn lemma_count_named_full<G>(children: Seq<GameObjectNode<G>>, name: Seq<char>)
    ensures
        count_named(children.take(children.len() as int), name) == count_named(children, name),
{
    assert(children.take(children.len() as int) =~= children);
}

/// Append a child to a child list.
pub fn add_child_to_list<G>(children: &mut Vec<GameObjectNode<G>>, child: GameObjectNode<G>)
    ensures
        final(children)@ == old(children)@.push(child),
{
    children.push(child);
}

/// Remove the first direct child with the given identifier, returning the
/// removed subtree, or fail without changing anything when no direct
/// child has it.
pub fn remove_child_from_list<G>(children: &mut Vec<GameObjectNode<G>>, id: &ID) -> (r: Result<
    GameObjectNode<G>,
    (),
>)
    ensures
        r is Err ==> final(children)@ == old(children)@ && (forall|j: int|
            0 <= j < old(children)@.len() ==> (#[trigger] old(children)@[j]).id != id),
        r matches Ok(removed) ==> exists|j: int|
            {
                &&& 0 <= j < old(children)@.len()
                &&& (#[trigger] old(children)@[j]).id == id
                &&& forall|k: int| 0 <= k < j ==> (#[trigger] old(children)@[k]).id != id
                &&& removed == old(children)@[j]
                &&& final(children)@ == old(children)@.remove(j)
            },
{
    let n = children.len();
    let mut i: usize = 0;
    while i < n
        invariant
            n == children@.len(),
            0 <= i <= n,
            children@ == old(children)@,
            forall|k: int| 0 <= k < i ==> (#[trigger] children@[k]).id != id,
        decreases n - i,
    {
        if children[i].id == *id {
            let removed = children.remove(i);
            return Ok(removed);
        }
        i = i + 1;
    }
    Err(())
}

/// Replace the first direct child with the given identifier by the given
/// node, grandchildren untouched: the slot is overwritten wholesale.
pub fn replace_child_in_list<G>(
    children: &mut Vec<GameObjectNode<G>>,
    old_id: &ID,
    new: GameObjectNode<G>,
) -> (r: Result<(), ()>)
    ensures
        r is Err ==> final(children)@ == old(children)@ && (forall|j: int|
            0 <= j < old(children)@.len() ==> (#[trigger] old(children)@[j]).id != old_id),
        r is Ok ==> exists|j: int|
            {
                &&& 0 <= j < old(children)@.len()
                &&& (#[trigger] old(children)@[j]).id == old_id
                &&& forall|k: int| 0 <= k < j ==> (#[trigger] old(children)@[k]).id != old_id
                &&& final(children)@ == old(children)@.update(j, new)
            },
{
    let n = children.len();
    let mut i: usize = 0;
    while i < n
        invariant
            n == children@.len(),
            0 <= i <= n,
            children@ == old(children)@,
            forall|k: int| 0 <= k < i ==> (#[trigger] children@[k]).id != old_id,
        decreases n - i,
    {
        if children[i].id == *old_id {
            children.set(i, new);
            return Ok(());
        }
        i = i + 1;
    }
    Err(())
}

/// Preorder identifiers distribute over concatenation of forests.
pub proof fn lemma_forest_ids_concat<G>(s1: Seq<GameObjectNode<G>>, s2: Seq<GameObjectNode<G>>)
    ensures
        forest_ids(s1 + s2) == forest_ids(s1) + forest_ids(s2),
    decreases s1,
{
    if s1.len() == 0 {
        assert(s1 + s2 =~= s2);
        assert(forest_ids(s1) + forest_ids(s2) =~= forest_ids(s2));
    } else {
        lemma_forest_ids_concat(s1.drop_first(), s2);
        assert((s1 + s2).drop_first() =~= s1.drop_first() + s2);
        assert((s1 + s2)[0] == s1[0]);
        assert(forest_ids(s1 + s2) == subtree_ids(s1[0]) + forest_ids(s1.drop_first() + s2));
        assert(forest_ids(s1) + forest_ids(s2) =~= subtree_ids(s1[0]) + (forest_ids(
            s1.drop_first(),
        ) + forest_ids(s2)));
    }
}

/// The identifiers of a one-tree forest are that tree's identifiers.
pub proof fn lemma_forest_ids_single<G>(node: GameObjectNode<G>)
    ensures
        forest_ids(seq![node]) == subtree_ids(node),
{
    let single = seq![node];
    assert(single.len() == 1);
    assert(single[0] == node);
    assert(single.drop_first() =~= Seq::<GameObjectNode<G>>::empty());
    assert(forest_ids(single.drop_first()) =~= Seq::<ID>::empty());
    assert(forest_ids(single) == subtree_ids(single[0]) + forest_ids(single.drop_first()));
    assert(subtree_ids(node) + Seq::<ID>::empty() =~= subtree_ids(node));
}

/// Appending one tree appends its identifiers.
pub proof fn lemma_forest_ids_push<G>(nodes: Seq<GameObjectNode<G>>, node: GameObjectNode<G>)
    ensures
        forest_ids(nodes.push(node)) == forest_ids(nodes) + subtree_ids(node),
{
    assert(nodes.push(node) =~= nodes + seq![node]);
    lemma_forest_ids_concat(nodes, seq![node]);
    lemma_forest_ids_single(node);
}

/// One more tree extends a prefix's identifiers by that tree's subtree.
pub proof fn lemma_forest_ids_take_step<G>(nodes: Seq<GameObjectNode<G>>, i: int)
    requires
        0 <= i < nodes.len(),
    ensures
        forest_ids(nodes.take(i + 1)) == forest_ids(nodes.take(i)) + subtree_ids(nodes[i]),
{
    assert(nodes.take(i + 1) =~= nodes.take(i) + seq![nodes[i]]);
    lemma_forest_ids_concat(nodes.take(i), seq![nodes[i]]);
    assert(forest_ids(seq![nodes[i]]) =~= subtree_ids(nodes[i])) by {
        let single = seq![nodes[i]];
        assert(single.len() == 1);
        assert(single[0] == nodes[i]);
        assert(single.drop_first() =~= Seq::<GameObjectNode<G>>::empty());
        assert(forest_ids(single.drop_first()) =~= Seq::<ID>::empty());
        assert(forest_ids(single) == subtree_ids(single[0]) + forest_ids(single.drop_first()));
        assert(subtree_ids(nodes[i]) + Seq::<ID>::empty() =~= subtree_ids(nodes[i]));
    }
}

/// A spec-level find resolves in the first tree whose subtree holds the
/// identifier.
pub proof fn lemma_forest_find_at<G>(nodes: Seq<GameObjectNode<G>>, id: ID, i: int)
    requires
        0 <= i < nodes.len(),
        subtree_ids(nodes[i]).contains(id),
        forall|k: int| 0 <= k < i ==> !subtree_ids(#[trigger] nodes[k]).contains(id),
    ensures
        forest_find(nodes, id) == tree_find(nodes[i], id),
    decreases i,
{
    if i == 0 {
    } else {
        assert(!subtree_ids(nodes[0]).contains(id));
        assert(nodes.drop_first()[i - 1] == nodes[i]);
        assert(forall|k: int|
            0 <= k < i - 1 ==> nodes.drop_first()[k] == nodes[k + 1]);
        lemma_forest_find_at(nodes.drop_first(), id, i - 1);
    }
}

/// A contiguous segment of a sequence of identifiers was replaced by
/// another: everything before and after the segment is unchanged.
pub open spec fn segment_replaced(
    old_ids: Seq<ID>,
    new_ids: Seq<ID>,
    removed: Seq<ID>,
    inserted: Seq<ID>,
) -> bool {
    exists|p: int|
        {
            &&& 0 <= p
            &&& p + inserted.len() <= new_ids.len()
            &&& old_ids == #[trigger] new_ids.take(p) + removed + new_ids.skip(
                p + inserted.len() as int,
            )
            &&& new_ids == new_ids.take(p) + inserted + new_ids.skip(p + inserted.len() as int)
        }
}

/// Exhibit the split position to establish `segment_replaced`.
pub proof fn lemma_segment_replaced_intro(
    old_ids: Seq<ID>,
    new_ids: Seq<ID>,
    removed: Seq<ID>,
    inserted: Seq<ID>,
    p: int,
)
    requires
        0 <= p,
        p + inserted.len() <= new_ids.len(),
        old_ids == new_ids.take(p) + removed + new_ids.skip(p + inserted.len() as int),
        new_ids == new_ids.take(p) + inserted + new_ids.skip(p + inserted.len() as int),
    ensures
        segment_replaced(old_ids, new_ids, removed, inserted),
{
}

/// Does this subtree contain the identifier?
pub fn tree_contains<G>(node: &GameObjectNode<G>, id: &ID) -> (found: bool)
    ensures
        found == subtree_ids(*node).contains(*id),
    decreases *node,
{
    if node.id == *id {
        proof {
            assert(subtree_ids(*node)[0] == node.id);
        }
        return true;
    }
    let n = node.children.len();
    let mut i: usize = 0;
    while i < n
        invariant
            n == node.children@.len(),
            node.id != id,
            0 <= i <= n,
            forall|j: int|
                0 <= j < i ==> !subtree_ids(#[trigger] node.children@[j]).contains(*id),
        decreases n - i,
    {
        if tree_contains(&node.children[i], id) {
            proof {
                lemma_forest_ids_contains(node.children@, *id);
                let k = choose|k: int|
                    0 <= k < forest_ids(node.children@).len() && forest_ids(node.children@)[k]
                        == *id;
                assert(subtree_ids(*node)[1 + k] == *id);
            }
            return true;
        }
        i = i + 1;
    }
    proof {
        lemma_forest_ids_contains(node.children@, *id);
        if subtree_ids(*node).contains(*id) {
            let k = choose|k: int|
                0 <= k < subtree_ids(*node).len() && subtree_ids(*node)[k] == *id;
            assert(k != 0);
            assert(forest_ids(node.children@)[k - 1] == *id);
        }
    }
    false
}

/// Find the node with the given identifier anywhere under these trees,
/// matching the spec-level find.
pub fn forest_get<'a, G>(children: &'a Vec<GameObjectNode<G>>, id: &ID) -> (r: Option<
    &'a GameObjectNode<G>,
>)
    ensures
        match r {
            Some(n) => forest_find(children@, *id) == Some(*n) && forest_ids(
                children@,
            ).contains(*id),
            None => !forest_ids(children@).contains(*id),
        },
    decreases children@,
{
    let n = children.len();
    let mut i: usize = 0;
    while i < n
        invariant
            n == children@.len(),
            0 <= i <= n,
            forall|j: int|
                0 <= j < i ==> !subtree_ids(#[trigger] children@[j]).contains(*id),
        decreases n - i,
    {
        if tree_contains(&children[i], id) {
            proof {
                lemma_forest_find_at(children@, *id, i as int);
                lemma_forest_ids_contains(children@, *id);
            }
            if children[i].id == *id {
                return Some(&children[i]);
            }
            proof {
                let k = choose|k: int|
                    0 <= k < subtree_ids(children@[i as int]).len() && subtree_ids(
                        children@[i as int],
                    )[k] == *id;
                assert(k != 0);
                assert(forest_ids(children@[i as int].children@)[k - 1] == *id);
                assert(decreases_to!(children@ => children@[i as int].children@));
            }
            return forest_get(&children[i].children, id);
        }
        i = i + 1;
    }
    proof {
        lemma_forest_ids_contains(children@, *id);
    }
    None
}

/// Remove the node with the given identifier, anywhere under these
/// trees, together with its whole subtree.
#[verifier::rlimit(100)]
#[verifier::loop_isolation(false)]
pub fn forest_remove_subtree<G>(children: &mut Vec<GameObjectNode<G>>, id: &ID) -> (r: Result<
    GameObjectNode<G>,
    (),
>)
    ensures
        r is Err ==> final(children)@ == old(children)@ && !forest_ids(
            old(children)@,
        ).contains(*id),
        r matches Ok(removed) ==> {
            &&& Some(removed) == forest_find(old(children)@, *id)
            &&& removed.id == *id
            &&& segment_replaced(
                forest_ids(old(children)@),
                forest_ids(final(children)@),
                subtree_ids(removed),
                Seq::<ID>::empty(),
            )
        },
    decreases forest_ids(old(children)@).len(),
{
    let ghost orig = old(children)@;
    let n = children.len();
    let mut i: usize = 0;
    while i < n
        invariant
            n == children@.len(),
            0 <= i <= n,
            children@ == orig,
            forall|j: int|
                0 <= j < i ==> !subtree_ids(#[trigger] children@[j]).contains(*id),
        decreases n - i,
    {
        if tree_contains(&children[i], id) {
            proof {
                lemma_forest_find_at(orig, *id, i as int);
                lemma_forest_ids_split(orig, i as int);
            }
            if children[i].id == *id {
                let removed = children.remove(i);
                proof {
                    assert(children@ =~= orig.take(i as int) + orig.skip(i as int + 1));
                    lemma_forest_ids_concat(orig.take(i as int), orig.skip(i as int + 1));
                    let p = forest_ids(orig.take(i as int)).len() as int;
                    assert(forest_ids(children@).take(p) =~= forest_ids(orig.take(i as int)));
                    assert(forest_ids(children@).skip(p) =~= forest_ids(orig.skip(i as int + 1)));
                    assert(forest_ids(orig) =~= forest_ids(children@).take(p) + subtree_ids(
                        removed,
                    ) + forest_ids(children@).skip(p));
                    assert(removed == orig[i as int]);
                    assert(forest_ids(children@) =~= forest_ids(children@).take(p) + Seq::<
                        ID,
                    >::empty() + forest_ids(children@).skip(p));
                    lemma_segment_replaced_intro(
                        forest_ids(orig),
                        forest_ids(children@),
                        subtree_ids(removed),
                        Seq::<ID>::empty(),
                        p,
                    );
                }
                return Ok(removed);
            }
            let mut c = children.remove(i);
            let ghost c_before = c;
            proof {
                assert(c == orig[i as int]);
                let k = choose|k: int|
                    0 <= k < subtree_ids(c).len() && subtree_ids(c)[k] == *id;
                assert(k != 0);
                assert(forest_ids(c.children@)[k - 1] == *id);
                assert(subtree_ids(orig[i as int]) == seq![c.id] + forest_ids(c.children@));
                assert(forest_ids(c.children@).len() < forest_ids(orig).len());
            }
            let rr = forest_remove_subtree(&mut c.children, id);
            children.insert(i, c);
            match rr {
                Ok(removed) => {
                    proof {
                        let q = choose|q: int|
                            {
                                &&& 0 <= q
                                &&& q <= forest_ids(children@[i as int].children@).len()
                                &&& forest_ids(c_before.children@) == #[trigger] forest_ids(
                                    children@[i as int].children@,
                                ).take(q) + subtree_ids(removed) + forest_ids(
                                    children@[i as int].children@,
                                ).skip(q)
                            };
                        let a = forest_ids(orig.take(i as int));
                        let fnew = forest_ids(children@[i as int].children@);
                        let b = forest_ids(orig.skip(i as int + 1));
                        assert(children@ =~= orig.take(i as int) + seq![children@[i as int]]
                            + orig.skip(i as int + 1));
                        lemma_forest_ids_concat(
                            orig.take(i as int) + seq![children@[i as int]],
                            orig.skip(i as int + 1),
                        );
                        lemma_forest_ids_concat(orig.take(i as int), seq![children@[i as int]]);
                        lemma_forest_ids_single(children@[i as int]);
                        assert(forest_ids(children@) =~= a + (seq![c_before.id] + fnew) + b);
                        let p = a.len() + 1 + q;
                        assert(forest_ids(children@).take(p) =~= a + seq![c_before.id]
                            + fnew.take(q));
                        assert(forest_ids(children@).skip(p) =~= fnew.skip(q) + b);
                        assert(subtree_ids(orig[i as int]) =~= seq![c_before.id] + (fnew.take(q)
                            + subtree_ids(removed) + fnew.skip(q)));
                        assert(forest_ids(orig) =~= forest_ids(children@).take(p) + subtree_ids(
                            removed,
                        ) + forest_ids(children@).skip(p));
                        assert(forest_ids(children@) =~= forest_ids(children@).take(p) + Seq::<
                            ID,
                        >::empty() + forest_ids(children@).skip(p));
                        lemma_segment_replaced_intro(
                            forest_ids(orig),
                            forest_ids(children@),
                            subtree_ids(removed),
                            Seq::<ID>::empty(),
                            p,
                        );
                    }
                    return Ok(removed);
                },
                Err(_) => {
                    proof {
                        assert(false);
                    }
                    return Err(());
                },
            }
        }
        i = i + 1;
    }
    proof {
        lemma_forest_ids_contains(children@, *id);
    }
    Err(())
}

/// Replace the node with the given identifier, anywhere under these
/// trees, by the given node and its subtree; the old node's whole
/// subtree is dropped and returned.
#[verifier::rlimit(100)]
#[verifier::loop_isolation(false)]
pub fn forest_replace_subtree<G>(
    children: &mut Vec<GameObjectNode<G>>,
    id: &ID,
    new: GameObjectNode<G>,
) -> (r: Result<GameObjectNode<G>, GameObjectNode<G>>)
    ensures
        r matches Err(n) ==> final(children)@ == old(children)@ && !forest_ids(
            old(children)@,
        ).contains(*id) && n == new,
        r matches Ok(replaced) ==> {
            &&& Some(replaced) == forest_find(old(children)@, *id)
            &&& replaced.id == *id
            &&& segment_replaced(
                forest_ids(old(children)@),
                forest_ids(final(children)@),
                subtree_ids(replaced),
                subtree_ids(new),
            )
        },
    decreases forest_ids(old(children)@).len(),
{
    let ghost orig = old(children)@;
    let ghost new_sub = subtree_ids(new);
    let n = children.len();
    let mut i: usize = 0;
    while i < n
        invariant
            n == children@.len(),
            0 <= i <= n,
            children@ == orig,
            forall|j: int|
                0 <= j < i ==> !subtree_ids(#[trigger] children@[j]).contains(*id),
        decreases n - i,
    {
        if tree_contains(&children[i], id) {
            proof {
                lemma_forest_find_at(orig, *id, i as int);
                lemma_forest_ids_split(orig, i as int);
            }
            if children[i].id == *id {
                let replaced = children.remove(i);
                children.insert(i, new);
                proof {
                    assert(children@ =~= orig.update(i as int, children@[i as int]));
                    assert(children@ =~= orig.take(i as int) + seq![children@[i as int]]
                        + orig.skip(i as int + 1));
                    lemma_forest_ids_concat(
                        orig.take(i as int) + seq![children@[i as int]],
                        orig.skip(i as int + 1),
                    );
                    lemma_forest_ids_concat(orig.take(i as int), seq![children@[i as int]]);
                    lemma_forest_ids_single(children@[i as int]);
                    let a = forest_ids(orig.take(i as int));
                    let b = forest_ids(orig.skip(i as int + 1));
                    let p = a.len() as int;
                    assert(forest_ids(children@) =~= a + new_sub + b);
                    assert(forest_ids(children@).take(p) =~= a);
                    assert(forest_ids(children@).skip(p + new_sub.len()) =~= b);
                    assert(forest_ids(orig) =~= forest_ids(children@).take(p) + subtree_ids(
                        replaced,
                    ) + forest_ids(children@).skip(p + new_sub.len()));
                    assert(forest_ids(children@) =~= forest_ids(children@).take(p) + new_sub
                        + forest_ids(children@).skip(p + new_sub.len()));
                    lemma_segment_replaced_intro(
                        forest_ids(orig),
                        forest_ids(children@),
                        subtree_ids(replaced),
                        new_sub,
                        p,
                    );
                }
                return Ok(replaced);
            }
            let mut c = children.remove(i);
            let ghost c_before = c;
            proof {
                let k = choose|k: int|
                    0 <= k < subtree_ids(c).len() && subtree_ids(c)[k] == *id;
                assert(k != 0);
                assert(forest_ids(c.children@)[k - 1] == *id);
                assert(subtree_ids(orig[i as int]) == seq![c.id] + forest_ids(c.children@));
                assert(forest_ids(c.children@).len() < forest_ids(orig).len());
            }
            let rr = forest_replace_subtree(&mut c.children, id, new);
            children.insert(i, c);
            match rr {
                Ok(replaced) => {
                    proof {
                        let q = choose|q: int|
                            {
                                &&& 0 <= q
                                &&& q + new_sub.len() <= forest_ids(
                                    children@[i as int].children@,
                                ).len()
                                &&& forest_ids(c_before.children@) == #[trigger] forest_ids(
                                    children@[i as int].children@,
                                ).take(q) + subtree_ids(replaced) + forest_ids(
                                    children@[i as int].children@,
                                ).skip(q + new_sub.len())
                                &&& forest_ids(children@[i as int].children@) == forest_ids(
                                    children@[i as int].children@,
                                ).take(q) + new_sub + forest_ids(
                                    children@[i as int].children@,
                                ).skip(q + new_sub.len())
                            };
                        let a = forest_ids(orig.take(i as int));
                        let fnew = forest_ids(children@[i as int].children@);
                        let b = forest_ids(orig.skip(i as int + 1));
                        assert(children@ =~= orig.take(i as int) + seq![children@[i as int]]
                            + orig.skip(i as int + 1));
                        lemma_forest_ids_concat(
                            orig.take(i as int) + seq![children@[i as int]],
                            orig.skip(i as int + 1),
                        );
                        lemma_forest_ids_concat(orig.take(i as int), seq![children@[i as int]]);
                        lemma_forest_ids_single(children@[i as int]);
                        assert(forest_ids(children@) =~= a + (seq![c_before.id] + fnew) + b);
                        let p = a.len() + 1 + q;
                        assert(forest_ids(children@).take(p) =~= a + seq![c_before.id]
                            + fnew.take(q));
                        assert(forest_ids(children@).skip(p + new_sub.len()) =~= fnew.skip(
                            q + new_sub.len(),
                        ) + b);
                        assert(subtree_ids(orig[i as int]) =~= seq![c_before.id] + (fnew.take(q)
                            + subtree_ids(replaced) + fnew.skip(q + new_sub.len())));
                        assert(forest_ids(orig) =~= forest_ids(children@).take(p) + subtree_ids(
                            replaced,
                        ) + forest_ids(children@).skip(p + new_sub.len()));
                        assert(forest_ids(children@) =~= forest_ids(children@).take(p) + new_sub
                            + forest_ids(children@).skip(p + new_sub.len()));
                        lemma_segment_replaced_intro(
                            forest_ids(orig),
                            forest_ids(children@),
                            subtree_ids(replaced),
                            new_sub,
                            p,
                        );
                    }
                    return Ok(replaced);
                },
                Err(handed_back) => {
                    proof {
                        assert(false);
                    }
                    return Err(handed_back);
                },
            }
        }
        i = i + 1;
    }
    proof {
        lemma_forest_ids_contains(children@, *id);
    }
    Err(new)
}

/// Replace the node with the given identifier, anywhere under these
/// trees, by the given node; the old node's children are kept,
/// re-parented onto the replacement after the replacement's own
/// children, in their original order.
#[verifier::rlimit(100)]
#[verifier::loop_isolation(false)]
pub fn forest_replace_keep_children<G>(
    children: &mut Vec<GameObjectNode<G>>,
    id: &ID,
    new: GameObjectNode<G>,
) -> (r: Result<(), GameObjectNode<G>>)
    ensures
        r matches Err(n) ==> final(children)@ == old(children)@ && !forest_ids(
            old(children)@,
        ).contains(*id) && n == new,
        r is Ok ==> segment_replaced(
            forest_ids(old(children)@),
            forest_ids(final(children)@),
            seq![*id],
            subtree_ids(new),
        ),
    decreases forest_ids(old(children)@).len(),
{
    let ghost orig = old(children)@;
    let ghost new_sub = subtree_ids(new);
    let n = children.len();
    let mut i: usize = 0;
    while i < n
        invariant
            n == children@.len(),
            0 <= i <= n,
            children@ == orig,
            forall|j: int|
                0 <= j < i ==> !subtree_ids(#[trigger] children@[j]).contains(*id),
        decreases n - i,
    {
        if tree_contains(&children[i], id) {
            proof {
                lemma_forest_ids_split(orig, i as int);
            }
            if children[i].id == *id {
                let old_node = children.remove(i);
                let GameObjectNode { children: kept, .. } = old_node;
                let mut kept_vec = kept;
                let GameObjectNode {
                    id: new_id,
                    name: new_name,
                    subspace: new_subspace,
                    visible: new_visible,
                    script: new_script,
                    kind: new_kind,
                    children: own,
                } = new;
                let mut merged = own;
                merged.append(&mut kept_vec);
                let replacement = GameObjectNode {
                    id: new_id,
                    name: new_name,
                    subspace: new_subspace,
                    visible: new_visible,
                    script: new_script,
                    children: merged,
                    kind: new_kind,
                };
                children.insert(i, replacement);
                proof {
                    assert(children@ =~= orig.take(i as int) + seq![children@[i as int]]
                        + orig.skip(i as int + 1));
                    lemma_forest_ids_concat(
                        orig.take(i as int) + seq![children@[i as int]],
                        orig.skip(i as int + 1),
                    );
                    lemma_forest_ids_concat(orig.take(i as int), seq![children@[i as int]]);
                    lemma_forest_ids_single(children@[i as int]);
                    let a = forest_ids(orig.take(i as int));
                    let b = forest_ids(orig.skip(i as int + 1));
                    let fkept = forest_ids(orig[i as int].children@);
                    assert(children@[i as int].children@ =~= new.children@
                        + orig[i as int].children@);
                    lemma_forest_ids_concat(new.children@, orig[i as int].children@);
                    assert(subtree_ids(children@[i as int]) =~= new_sub + fkept);
                    let p = a.len() as int;
                    assert(forest_ids(children@) =~= a + (new_sub + fkept) + b);
                    assert(forest_ids(children@).take(p) =~= a);
                    assert(forest_ids(children@).skip(p + new_sub.len()) =~= fkept + b);
                    assert(subtree_ids(orig[i as int]) =~= seq![*id] + fkept);
                    assert(forest_ids(orig) =~= forest_ids(children@).take(p) + seq![*id]
                        + forest_ids(children@).skip(p + new_sub.len()));
                    assert(forest_ids(children@) =~= forest_ids(children@).take(p) + new_sub
                        + forest_ids(children@).skip(p + new_sub.len()));
                    lemma_segment_replaced_intro(
                        forest_ids(orig),
                        forest_ids(children@),
                        seq![*id],
                        new_sub,
                        p,
                    );
                }
                return Ok(());
            }
            let mut c = children.remove(i);
            let ghost c_before = c;
            proof {
                let k = choose|k: int|
                    0 <= k < subtree_ids(c).len() && subtree_ids(c)[k] == *id;
                assert(k != 0);
                assert(forest_ids(c.children@)[k - 1] == *id);
                assert(subtree_ids(orig[i as int]) == seq![c.id] + forest_ids(c.children@));
                assert(forest_ids(c.children@).len() < forest_ids(orig).len());
            }
            let rr = forest_replace_keep_children(&mut c.children, id, new);
            children.insert(i, c);
            match rr {
                Ok(()) => {
                    proof {
                        let q = choose|q: int|
                            {
                                &&& 0 <= q
                                &&& q + new_sub.len() <= forest_ids(
                                    children@[i as int].children@,
                                ).len()
                                &&& forest_ids(c_before.children@) == #[trigger] forest_ids(
                                    children@[i as int].children@,
                                ).take(q) + seq![*id] + forest_ids(
                                    children@[i as int].children@,
                                ).skip(q + new_sub.len())
                                &&& forest_ids(children@[i as int].children@) == forest_ids(
                                    children@[i as int].children@,
                                ).take(q) + new_sub + forest_ids(
                                    children@[i as int].children@,
                                ).skip(q + new_sub.len())
                            };
                        let a = forest_ids(orig.take(i as int));
                        let fnew = forest_ids(children@[i as int].children@);
                        let b = forest_ids(orig.skip(i as int + 1));
                        assert(children@ =~= orig.take(i as int) + seq![children@[i as int]]
                            + orig.skip(i as int + 1));
                        lemma_forest_ids_concat(
                            orig.take(i as int) + seq![children@[i as int]],
                            orig.skip(i as int + 1),
                        );
                        lemma_forest_ids_concat(orig.take(i as int), seq![children@[i as int]]);
                        lemma_forest_ids_single(children@[i as int]);
                        assert(forest_ids(children@) =~= a + (seq![c_before.id] + fnew) + b);
                        let p = a.len() + 1 + q;
                        assert(forest_ids(children@).take(p) =~= a + seq![c_before.id]
                            + fnew.take(q));
                        assert(forest_ids(children@).skip(p + new_sub.len()) =~= fnew.skip(
                            q + new_sub.len(),
                        ) + b);
                        assert(subtree_ids(orig[i as int]) =~= seq![c_before.id] + (fnew.take(q)
                            + seq![*id] + fnew.skip(q + new_sub.len())));
                        assert(forest_ids(orig) =~= forest_ids(children@).take(p) + seq![*id]
                            + forest_ids(children@).skip(p + new_sub.len()));
                        assert(forest_ids(children@) =~= forest_ids(children@).take(p) + new_sub
                            + forest_ids(children@).skip(p + new_sub.len()));
                        lemma_segment_replaced_intro(
                            forest_ids(orig),
                            forest_ids(children@),
                            seq![*id],
                            new_sub,
                            p,
                        );
                    }
                    return Ok(());
                },
                Err(handed_back) => {
                    proof {
                        assert(false);
                    }
                    return Err(handed_back);
                },
            }
        }
        i = i + 1;
    }
    proof {
        lemma_forest_ids_contains(children@, *id);
    }
    Err(new)
}

/// Splitting distinctness over a concatenation.
pub proof fn lemma_no_dup_split(a: Seq<ID>, b: Seq<ID>)
    requires
        (a + b).no_duplicates(),
    ensures
        a.no_duplicates(),
        b.no_duplicates(),
        forall|i: int, j: int| 0 <= i < a.len() && 0 <= j < b.len() ==> a[i] != b[j],
{
    assert(forall|i: int| 0 <= i < a.len() ==> a[i] == (a + b)[i]);
    assert(forall|j: int| 0 <= j < b.len() ==> b[j] == (a + b)[a.len() + j]);
}

/// How many entries of this child list carry the given identifier.
pub open spec fn direct_count<G>(nodes: Seq<GameObjectNode<G>>, id: ID) -> nat
    decreases nodes,
{
    if nodes.len() == 0 {
        0
    } else {
        (if nodes[0].id == id {
            1nat
        } else {
            0nat
        }) + direct_count(nodes.drop_first(), id)
    }
}

/// How many child-list slots anywhere inside this subtree carry the
/// given identifier (the subtree's own root is not a slot of it).
pub open spec fn tree_child_slots<G>(node: GameObjectNode<G>, id: ID) -> nat
    decreases node,
{
    direct_count(node.children@, id) + forest_child_slots(node.children@, id)
}

/// How many child-list slots anywhere inside these subtrees carry the
/// given identifier.
pub open spec fn forest_child_slots<G>(nodes: Seq<GameObjectNode<G>>, id: ID) -> nat
    decreases nodes,
{
    if nodes.len() == 0 {
        0
    } else {
        tree_child_slots(nodes[0], id) + forest_child_slots(nodes.drop_first(), id)
    }
}

/// Tree ownership invariant: with pairwise-distinct identifiers, an
/// identifier that is in the tree occupies exactly one child-list slot —
/// counting the root list itself and every node's list — and one that is
/// not in the tree occupies none.  No sharing, no orphaning.
pub proof fn lemma_tree_ownership<G>(nodes: Seq<GameObjectNode<G>>, id: ID)
    requires
        forest_ids(nodes).no_duplicates(),
    ensures
        direct_count(nodes, id) + forest_child_slots(nodes, id) == if forest_ids(
            nodes,
        ).contains(id) {
            1nat
        } else {
            0nat
        },
    decreases nodes,
{
    if nodes.len() == 0 {
        assert(!forest_ids(nodes).contains(id));
    } else {
        let t = nodes[0];
        let rest = nodes.drop_first();
        assert(forest_ids(nodes) == subtree_ids(t) + forest_ids(rest));
        lemma_no_dup_split(subtree_ids(t), forest_ids(rest));
        lemma_concat_contains(subtree_ids(t), forest_ids(rest));
        assert(subtree_ids(t) == seq![t.id] + forest_ids(t.children@));
        lemma_no_dup_split(seq![t.id], forest_ids(t.children@));
        lemma_concat_contains(seq![t.id], forest_ids(t.children@));
        lemma_tree_ownership(t.children@, id);
        lemma_tree_ownership(rest, id);
        assert(direct_count(nodes, id) == (if t.id == id {
            1nat
        } else {
            0nat
        }) + direct_count(rest, id));
        assert(forest_child_slots(nodes, id) == tree_child_slots(t, id) + forest_child_slots(
            rest,
            id,
        ));
        assert(tree_child_slots(t, id) == direct_count(t.children@, id) + forest_child_slots(
            t.children@,
            id,
        ));
        assert(seq![t.id].contains(id) <==> t.id == id) by {
            if seq![t.id].contains(id) {
                let k = choose|k: int| 0 <= k < 1 && seq![t.id][k] == id;
                assert(seq![t.id][0] == t.id);
            } else {
                assert(seq![t.id][0] == t.id);
            }
        }
        if t.id == id {
            assert(!forest_ids(t.children@).contains(id)) by {
                if forest_ids(t.children@).contains(id) {
                    let k = choose|k: int|
                        0 <= k < forest_ids(t.children@).len() && forest_ids(t.children@)[k]
                            == id;
                    assert(seq![t.id][0] == forest_ids(t.children@)[k]);
                }
            }
            assert(!forest_ids(rest).contains(id)) by {
                if forest_ids(rest).contains(id) {
                    let k = choose|k: int|
                        0 <= k < forest_ids(rest).len() && forest_ids(rest)[k] == id;
                    assert(subtree_ids(t)[0] == id);
                    assert(subtree_ids(t)[0] != forest_ids(rest)[k]);
                }
            }
            assert(forest_ids(nodes).contains(id)) by {
                assert(forest_ids(nodes)[0] == t.id);
            }
        } else if forest_ids(t.children@).contains(id) {
            assert(!forest_ids(rest).contains(id)) by {
                if forest_ids(rest).contains(id) {
                    let k1 = choose|k1: int|
                        0 <= k1 < forest_ids(t.children@).len() && forest_ids(t.children@)[k1]
                            == id;
                    let k2 = choose|k2: int|
                        0 <= k2 < forest_ids(rest).len() && forest_ids(rest)[k2] == id;
                    assert(subtree_ids(t)[1 + k1] == id);
                    assert(subtree_ids(t)[1 + k1] != forest_ids(rest)[k2]);
                }
            }
            assert(subtree_ids(t).contains(id));
            assert(forest_ids(nodes).contains(id));
        } else {
            assert(subtree_ids(t).contains(id) <==> false);
            assert(forest_ids(nodes).contains(id) <==> forest_ids(rest).contains(id));
        }
    }
}

/// The identifier of the node whose child list holds the given
/// identifier, inside this subtree.
pub open spec fn tree_parent_of<G>(t: GameObjectNode<G>, id: ID) -> Option<ID>
    decreases t,
{
    if direct_count(t.children@, id) > 0 {
        Some(t.id)
    } else {
        forest_parent_of(t.children@, id)
    }
}

/// The identifier of the node whose child list holds the given
/// identifier, inside these subtrees; a root of one of the trees has no
/// parent here.
pub open spec fn forest_parent_of<G>(nodes: Seq<GameObjectNode<G>>, id: ID) -> Option<ID>
    decreases nodes,
{
    if nodes.len() == 0 {
        None
    } else if subtree_ids(nodes[0]).contains(id) {
        tree_parent_of(nodes[0], id)
    } else {
        forest_parent_of(nodes.drop_first(), id)
    }
}

/// A direct entry exists exactly when the count is positive.
pub proof fn lemma_direct_count_positive<G>(nodes: Seq<GameObjectNode<G>>, id: ID)
    ensures
        direct_count(nodes, id) > 0 <==> exists|j: int|
            0 <= j < nodes.len() && (#[trigger] nodes[j]).id == id,
    decreases nodes,
{
    if nodes.len() == 0 {
    } else {
        lemma_direct_count_positive(nodes.drop_first(), id);
        if nodes[0].id == id {
        } else {
            assert forall|j: int|
                0 <= j < nodes.len() && (#[trigger] nodes[j]).id == id implies exists|j2: int|
                0 <= j2 < nodes.drop_first().len() && (#[trigger] nodes.drop_first()[j2]).id
                    == id by {
                assert(j != 0);
                assert(nodes.drop_first()[j - 1] == nodes[j]);
            }
            assert forall|j2: int|
                0 <= j2 < nodes.drop_first().len() && (#[trigger] nodes.drop_first()[j2]).id
                    == id implies exists|j: int|
                0 <= j < nodes.len() && (#[trigger] nodes[j]).id == id by {
                assert(nodes[j2 + 1] == nodes.drop_first()[j2]);
            }
        }
    }
}

/// With the identifier in none of the subtrees, there is no parent.
pub proof fn lemma_forest_parent_none<G>(nodes: Seq<GameObjectNode<G>>, id: ID)
    requires
        forall|j: int| 0 <= j < nodes.len() ==> !subtree_ids(#[trigger] nodes[j]).contains(id),
    ensures
        forest_parent_of(nodes, id) is None,
    decreases nodes,
{
    if nodes.len() == 0 {
    } else {
        assert(forall|j: int|
            0 <= j < nodes.drop_first().len() ==> nodes.drop_first()[j] == nodes[j + 1]);
        lemma_forest_parent_none(nodes.drop_first(), id);
    }
}

/// The spec-level parent resolves in the first tree whose subtree holds
/// the identifier.
pub proof fn lemma_forest_parent_at<G>(nodes: Seq<GameObjectNode<G>>, id: ID, i: int)
    requires
        0 <= i < nodes.len(),
        subtree_ids(nodes[i]).contains(id),
        forall|k: int| 0 <= k < i ==> !subtree_ids(#[trigger] nodes[k]).contains(id),
    ensures
        forest_parent_of(nodes, id) == tree_parent_of(nodes[i], id),
    decreases i,
{
    if i == 0 {
    } else {
        assert(nodes.drop_first()[i - 1] == nodes[i]);
        assert(forall|k: int| 0 <= k < i - 1 ==> nodes.drop_first()[k] == nodes[k + 1]);
        lemma_forest_parent_at(nodes.drop_first(), id, i - 1);
    }
}

/// Every identifier in a subtree, other than the root itself, has a
/// parent inside the subtree.
pub proof fn lemma_tree_parent_exists<G>(t: GameObjectNode<G>, id: ID)
    requires
        subtree_ids(t).contains(id),
        t.id != id,
    ensures
        tree_parent_of(t, id) is Some,
    decreases t,
{
    let k = choose|k: int| 0 <= k < subtree_ids(t).len() && subtree_ids(t)[k] == id;
    assert(k != 0);
    assert(forest_ids(t.children@)[k - 1] == id);
    lemma_forest_parent_exists(t.children@, id);
    lemma_direct_count_positive(t.children@, id);
}

/// Every identifier in a forest is either a root of one of its trees or
/// has a parent inside one of them.
pub proof fn lemma_forest_parent_exists<G>(nodes: Seq<GameObjectNode<G>>, id: ID)
    requires
        forest_ids(nodes).contains(id),
    ensures
        forest_parent_of(nodes, id) is Some || exists|j: int|
            0 <= j < nodes.len() && (#[trigger] nodes[j]).id == id,
    decreases nodes,
{
    lemma_forest_ids_contains(nodes, id);
    let j = choose|j: int|
        0 <= j < nodes.len() && subtree_ids(#[trigger] nodes[j]).contains(id);
    if subtree_ids(nodes[0]).contains(id) {
        if nodes[0].id == id {
        } else {
            lemma_tree_parent_exists(nodes[0], id);
        }
    } else {
        assert(j != 0);
        assert(nodes.drop_first()[j - 1] == nodes[j]);
        assert(forest_ids(nodes.drop_first()).contains(id)) by {
            lemma_forest_ids_contains(nodes.drop_first(), id);
        }
        lemma_forest_parent_exists(nodes.drop_first(), id);
        if exists|j2: int|
            0 <= j2 < nodes.drop_first().len() && (#[trigger] nodes.drop_first()[j2]).id == id {
            let j2 = choose|j2: int|
                0 <= j2 < nodes.drop_first().len() && (#[trigger] nodes.drop_first()[j2]).id
                    == id;
            assert(nodes[j2 + 1] == nodes.drop_first()[j2]);
        }
    }
}

/// Find the identifier of the node whose child list holds the given
/// identifier, searching these subtrees.
#[verifier::loop_isolation(false)]
pub fn forest_parent<G>(children: &Vec<GameObjectNode<G>>, id: &ID) -> (r: Option<ID>)
    ensures
        r == forest_parent_of(children@, *id),
    decreases forest_ids(children@).len(),
{
    let n = children.len();
    let mut i: usize = 0;
    while i < n
        invariant
            n == children@.len(),
            0 <= i <= n,
            forall|j: int|
                0 <= j < i ==> !subtree_ids(#[trigger] children@[j]).contains(*id),
        decreases n - i,
    {
        if tree_contains(&children[i], id) {
            proof {
                lemma_forest_parent_at(children@, *id, i as int);
                lemma_direct_count_positive(children@[i as int].children@, *id);
            }
            let t = &children[i];
            let m = t.children.len();
            let mut k: usize = 0;
            while k < m
                invariant
                    m == t.children@.len(),
                    0 <= k <= m,
                    forall|k1: int| 0 <= k1 < k ==> (#[trigger] t.children@[k1]).id != id,
                decreases m - k,
            {
                if t.children[k].id == *id {
                    return Some(t.id);
                }
                k = k + 1;
            }
            proof {
                lemma_forest_ids_split(children@, i as int);
                assert(subtree_ids(children@[i as int]) == seq![children@[i as int].id]
                    + forest_ids(children@[i as int].children@));
                assert(forest_ids(children@[i as int].children@).len() < forest_ids(
                    children@,
                ).len());
            }
            return forest_parent(&t.children, id);
        }
        i = i + 1;
    }
    proof {
        lemma_forest_parent_none(children@, *id);
    }
    None
}

/// Membership in a concatenation.
pub proof fn lemma_concat_contains(s1: Seq<ID>, s2: Seq<ID>)
    ensures
        forall|x: ID| #[trigger] (s1 + s2).contains(x) <==> s1.contains(x) || s2.contains(x),
{
    assert forall|x: ID| #[trigger] (s1 + s2).contains(x) implies s1.contains(x) || s2.contains(
        x,
    ) by {
        let k = choose|k: int| 0 <= k < (s1 + s2).len() && (s1 + s2)[k] == x;
        if k < s1.len() {
            assert(s1[k] == x);
        } else {
            assert(s2[k - s1.len()] == x);
        }
    }
    assert forall|x: ID| s1.contains(x) || s2.contains(x) implies #[trigger] (s1 + s2).contains(
        x,
    ) by {
        if s1.contains(x) {
            let k = choose|k: int| 0 <= k < s1.len() && s1[k] == x;
            assert((s1 + s2)[k] == x);
        } else {
            let k = choose|k: int| 0 <= k < s2.len() && s2[k] == x;
            assert((s1 + s2)[s1.len() + k] == x);
        }
    }
}

/// What a replaced segment means for distinctness and membership: when
/// the inserted identifiers are fresh, distinctness survives, and the new
/// contents are the old ones minus the removed segment plus the inserted
/// one.
pub proof fn lemma_segment_replaced_props(
    old_ids: Seq<ID>,
    new_ids: Seq<ID>,
    removed: Seq<ID>,
    inserted: Seq<ID>,
)
    requires
        segment_replaced(old_ids, new_ids, removed, inserted),
        old_ids.no_duplicates(),
        inserted.no_duplicates(),
        forall|x: ID| inserted.contains(x) ==> !old_ids.contains(x),
    ensures
        new_ids.no_duplicates(),
        forall|x: ID|
            #[trigger] new_ids.contains(x) <==> ((old_ids.contains(x) && !removed.contains(x))
                || inserted.contains(x)),
        forall|x: ID| #[trigger] removed.contains(x) ==> old_ids.contains(x),
{
    let p = choose|p: int|
        {
            &&& 0 <= p
            &&& p + inserted.len() <= new_ids.len()
            &&& old_ids == #[trigger] new_ids.take(p) + removed + new_ids.skip(
                p + inserted.len() as int,
            )
            &&& new_ids == new_ids.take(p) + inserted + new_ids.skip(p + inserted.len() as int)
        };
    let a = new_ids.take(p);
    let b = new_ids.skip(p + inserted.len() as int);
    assert(old_ids == a + removed + b);
    assert(new_ids == a + inserted + b);
    assert(forall|i: int| 0 <= i < a.len() ==> #[trigger] a[i] == old_ids[i]);
    assert(forall|i: int|
        0 <= i < removed.len() ==> #[trigger] removed[i] == old_ids[a.len() + i]);
    assert(forall|i: int|
        0 <= i < b.len() ==> #[trigger] b[i] == old_ids[a.len() + removed.len() + i]);
    lemma_concat_contains(a + removed, b);
    lemma_concat_contains(a, removed);
    lemma_concat_contains(a + inserted, b);
    lemma_concat_contains(a, inserted);
    assert(a.no_duplicates());
    assert(b.no_duplicates());
    assert(forall|i: int, j: int|
        0 <= i < a.len() && 0 <= j < b.len() ==> #[trigger] a[i] != #[trigger] b[j]);
    assert forall|i: int, j: int|
        0 <= i < a.len() && 0 <= j < inserted.len() implies #[trigger] a[i]
        != #[trigger] inserted[j] by {
        assert(old_ids.contains(a[i])) by {
            assert(old_ids[i] == a[i]);
        }
    }
    assert forall|i: int, j: int|
        0 <= i < inserted.len() && 0 <= j < b.len() implies #[trigger] inserted[i]
        != #[trigger] b[j] by {
        assert(old_ids.contains(b[j])) by {
            assert(old_ids[a.len() + removed.len() + j] == b[j]);
        }
    }
    vstd::seq_lib::lemma_no_dup_in_concat(a, inserted);
    vstd::seq_lib::lemma_no_dup_in_concat(a + inserted, b);
    assert forall|x: ID|
        #[trigger] new_ids.contains(x) implies ((old_ids.contains(x) && !removed.contains(x))
        || inserted.contains(x)) by {
        if a.contains(x) || b.contains(x) {
            assert(old_ids.contains(x)) by {
                lemma_concat_contains(a + removed, b);
                lemma_concat_contains(a, removed);
            }
            if removed.contains(x) {
                let ka = if a.contains(x) {
                    choose|k: int| 0 <= k < a.len() && a[k] == x
                } else {
                    a.len() + removed.len() + choose|k: int| 0 <= k < b.len() && b[k] == x
                };
                let kr = choose|k: int| 0 <= k < removed.len() && removed[k] == x;
                assert(old_ids[ka] == x);
                assert(old_ids[a.len() + kr] == x);
            }
        }
    }
    assert forall|x: ID|
        ((old_ids.contains(x) && !removed.contains(x)) || inserted.contains(
            x,
        )) implies #[trigger] new_ids.contains(x) by {
        if old_ids.contains(x) && !removed.contains(x) {
            assert(a.contains(x) || removed.contains(x) || b.contains(x));
        }
    }
    assert forall|x: ID| #[trigger] removed.contains(x) implies old_ids.contains(x) by {
        let k = choose|k: int| 0 <= k < removed.len() && removed[k] == x;
        assert(old_ids[a.len() + k] == x);
    }
}

/// Append a subtree's identifiers, in preorder.
#[verifier::loop_isolation(false)]
pub fn tree_collect_ids<G>(node: &GameObjectNode<G>, out: &mut Vec<ID>)
    ensures
        final(out)@ == old(out)@ + subtree_ids(*node),
    decreases *node,
{
    out.push(node.id);
    let ghost base = out@;
    let n = node.children.len();
    let mut i: usize = 0;
    proof {
        assert(node.children@.take(0) =~= Seq::<GameObjectNode<G>>::empty());
        assert(out@ =~= base + forest_ids(node.children@.take(0)));
    }
    while i < n
        invariant
            n == node.children@.len(),
            0 <= i <= n,
            out@ == base + forest_ids(node.children@.take(i as int)),
        decreases n - i,
    {
        proof {
            lemma_forest_ids_take_step(node.children@, i as int);
        }
        tree_collect_ids(&node.children[i], out);
        i = i + 1;
    }
    proof {
        assert(node.children@.take(n as int) =~= node.children@);
        assert(old(out)@ + subtree_ids(*node) =~= base + forest_ids(node.children@));
    }
}

/// Append a forest's identifiers, in preorder.
#[verifier::loop_isolation(false)]
pub fn forest_collect_ids<G>(children: &Vec<GameObjectNode<G>>, out: &mut Vec<ID>)
    ensures
        final(out)@ == old(out)@ + forest_ids(children@),
{
    let n = children.len();
    let mut i: usize = 0;
    proof {
        assert(children@.take(0) =~= Seq::<GameObjectNode<G>>::empty());
        assert(out@ =~= old(out)@ + forest_ids(children@.take(0)));
    }
    while i < n
        invariant
            n == children@.len(),
            0 <= i <= n,
            out@ == old(out)@ + forest_ids(children@.take(i as int)),
        decreases n - i,
    {
        proof {
            lemma_forest_ids_take_step(children@, i as int);
        }
        tree_collect_ids(&children[i], out);
        i = i + 1;
    }
    proof {
        assert(children@.take(n as int) =~= children@);
    }
}

/// Are all the identifiers pairwise distinct?
#[verifier::loop_isolation(false)]
pub fn ids_distinct(v: &Vec<ID>) -> (r: bool)
    ensures
        r == v@.no_duplicates(),
{
    let n = v.len();
    let mut i: usize = 0;
    while i < n
        invariant
            n == v@.len(),
            0 <= i <= n,
            forall|i1: int, j1: int| 0 <= i1 < i && i1 < j1 < n ==> v@[i1] != v@[j1],
        decreases n - i,
    {
        let mut j = i + 1;
        while j < n
            invariant
                n == v@.len(),
                0 <= i < n,
                i < j <= n,
                forall|j1: int| i < j1 < j ==> v@[i as int] != v@[j1],
            decreases n - j,
        {
            if v[i] == v[j] {
                return false;
            }
            j = j + 1;
        }
        i = i + 1;
    }
    proof {
        assert forall|i1: int, j1: int|
            0 <= i1 < n && 0 <= j1 < n && i1 != j1 implies v@[i1] != v@[j1] by {
            if i1 < j1 {
            } else {
                assert(v@[j1] != v@[i1]);
            }
        }
    }
    true
}

/// Find the direct child with the given name by linear scan.
///
/// Two same-named siblings are a fatal invariant violation, so that
/// input is excluded here: the precondition asks that at most one direct
/// child carry the name.
pub fn get_child_from_list_by_name<'a, G>(
    children: &'a Vec<GameObjectNode<G>>,
    name: &String,
) -> (r: Result<&'a GameObjectNode<G>, &'static str>)
    requires
        count_named(children@, name@) <= 1,
    ensures
        r matches Ok(c) ==> exists|j: int|
            0 <= j < children@.len() && c == &children@[j] && (#[trigger] children@[j]).name@
                == name@,
        r is Err ==> count_named(children@, name@) == 0,
{
    let n = children.len();
    let mut i: usize = 0;
    while i < n
        invariant
            n == children@.len(),
            0 <= i <= n,
            count_named(children@.take(i as int), name@) == 0,
        decreases n - i,
    {
        proof {
            lemma_count_named_take_step(children@, name@, i as int);
        }
        if children[i].name.eq(name) {
            return Ok(&children[i]);
        }
        i = i + 1;
    }
    proof {
        lemma_count_named_full(children@, name@);
    }
    Err("No child with that name was found.")
}

} // verus!
