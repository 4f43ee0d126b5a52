//! What holds of every tree of groups that is in order, and that the
//! operations on trees keep a tree in order.

use vstd::prelude::*;
use crate::config::server_group::{
    add_group_outcome, add_reference_outcome, doomed_marks, group_of, has_doomed_parent,
    insert_group_outcome, lemma_marks_len, lemma_place_of_group, new_tree, place_of_group, pruned, remove_group_outcome, resolves, survivors, with_child, with_group,
    without_group, GroupTreeView, ServerGroupChild, ServerGroupView,
};

verus! {

/// The group at a place of the tree, where the root has place 0 and the
/// group at index `j` of the list has place `j + 1`.
pub open spec fn at_place(tree: GroupTreeView, place: int) -> ServerGroupView {
    if place == 0 {
        tree.root
    } else {
        tree.groups[place - 1]
    }
}

/// The group at a place has the group `id` among its children.
pub open spec fn named_at(tree: GroupTreeView, place: int, id: i64) -> bool {
    0 <= place <= tree.groups.len() && at_place(tree, place).children.contains(
        ServerGroupChild::Group(id),
    )
}

/// The group `id` is in the list, at a place behind `place`.
pub open spec fn stands_behind(tree: GroupTreeView, place: int, id: i64) -> bool {
    place <= place_of_group(tree.groups, id) < tree.groups.len()
}

/// The group at index `j` of the list is the child of a group that stands
/// before it.
pub open spec fn has_parent(tree: GroupTreeView, j: int) -> bool {
    exists|place: int| 0 <= place <= j && #[trigger] named_at(tree, place, tree.groups[j].id)
}

/// The tree is in order: the root has the id 0 and no other group has; no
/// two groups share an id, and the next id of the tree lies above all of
/// them; every group but the root is the child of exactly one group, which
/// stands before it in the list. Such a tree has no cycle, and each of its
/// groups is beneath the root.
pub open spec fn tree_wf(tree: GroupTreeView) -> bool {
    &&& tree.root.id == 0
    &&& tree.next_id >= 1
    &&& forall|i: int|
        0 <= i < tree.groups.len() ==> (#[trigger] tree.groups[i]).id != 0 && (tree.groups[i].id
            < tree.next_id || tree.next_id == i64::MAX)
    &&& forall|i: int, j: int|
        #![trigger tree.groups[i], tree.groups[j]]
        0 <= i < j < tree.groups.len() ==> tree.groups[i].id != tree.groups[j].id
    &&& forall|place: int, id: i64| #[trigger]
        named_at(tree, place, id) ==> stands_behind(tree, place, id)
    &&& forall|p: int, q: int, id: i64|
        #![trigger named_at(tree, p, id), named_at(tree, q, id)]
        named_at(tree, p, id) && named_at(tree, q, id) ==> p == q
    &&& forall|j: int| 0 <= j < tree.groups.len() ==> #[trigger] has_parent(tree, j)
}

/// Where the groups have different ids, the place of an id is the index of
/// the group that has it.
pub proof fn lemma_place_of_distinct(groups: Seq<ServerGroupView>, k: int)
    requires
        0 <= k < groups.len(),
        forall|i: int, j: int|
            #![trigger groups[i], groups[j]]
            0 <= i < j < groups.len() ==> groups[i].id != groups[j].id,
    ensures
        place_of_group(groups, groups[k].id) == k,
{
    lemma_place_of_group(groups, groups[k].id);
    let at = place_of_group(groups, groups[k].id);
    if at < k {
        assert(groups[at].id != groups[k].id);
    } else if at > k {
        assert(groups[k].id != groups[k].id);
    }
}

/// The place of an id depends on the ids of the groups only.
pub proof fn lemma_place_by_ids(a: Seq<ServerGroupView>, b: Seq<ServerGroupView>, id: i64)
    requires
        a.len() == b.len(),
        forall|i: int| 0 <= i < a.len() ==> (#[trigger] a[i]).id == b[i].id,
    ensures
        place_of_group(a, id) == place_of_group(b, id),
    decreases a.len(),
{
    if a.len() > 0 {
        assert(a[0].id == b[0].id);
        if a[0].id != id {
            assert forall|i: int| 0 <= i < a.drop_first().len() implies (#[trigger] a.drop_first()[i]).id
                == b.drop_first()[i].id by {
                assert(a[i + 1].id == b[i + 1].id);
            }
            lemma_place_by_ids(a.drop_first(), b.drop_first(), id);
        }
    }
}

/// The place of an id in a list with one more group at its end.
pub proof fn lemma_place_after_push(groups: Seq<ServerGroupView>, last: ServerGroupView, id: i64)
    ensures
        place_of_group(groups, id) < groups.len() ==> place_of_group(groups.push(last), id)
            == place_of_group(groups, id),
        place_of_group(groups, id) >= groups.len() && last.id == id ==> place_of_group(
            groups.push(last),
            id,
        ) == groups.len(),
        place_of_group(groups, id) >= groups.len() && last.id != id ==> place_of_group(
            groups.push(last),
            id,
        ) == groups.len() + 1,
    decreases groups.len(),
{
    lemma_place_of_group(groups, id);
    if groups.len() == 0 {
        assert(groups.push(last).drop_first() =~= groups);
    } else {
        assert(groups.push(last).drop_first() =~= groups.drop_first().push(last));
        assert(groups.push(last)[0] == groups[0]);
        if groups[0].id != id {
            lemma_place_after_push(groups.drop_first(), last, id);
            lemma_place_of_group(groups.drop_first(), id);
        }
    }
}

/// A new tree is in order.
pub proof fn lemma_new_tree_wf()
    ensures
        tree_wf(new_tree()),
{
    let tree = new_tree();
    assert forall|place: int, id: i64| #[trigger] named_at(tree, place, id) implies stands_behind(
        tree,
        place,
        id,
    ) by {
        assert(place == 0);
    }
}

/// The groups of a tree after a child was added to the group that an id
/// resolves to: the same groups with the same ids, and the same children
/// but for the one group.
pub proof fn lemma_linked(tree: GroupTreeView, parent_id: i64, child: ServerGroupChild)
    requires
        resolves(tree, parent_id),
    ensures
        ({
            let linked = with_group(
                tree,
                parent_id,
                with_child(group_of(tree, parent_id)->0, child),
            );
            let parent = if parent_id == 0 {
                0
            } else {
                place_of_group(tree.groups, parent_id) + 1
            };
            &&& linked.groups.len() == tree.groups.len()
            &&& linked.next_id == tree.next_id
            &&& 0 <= parent <= tree.groups.len()
            &&& forall|p: int|
                0 <= p <= tree.groups.len() ==> (#[trigger] at_place(linked, p)).id == at_place(
                    tree,
                    p,
                ).id && at_place(linked, p).name == at_place(tree, p).name && at_place(
                    linked,
                    p,
                ).children == (if p == parent {
                    at_place(tree, p).children.push(child)
                } else {
                    at_place(tree, p).children
                })
            &&& forall|id: i64| place_of_group(linked.groups, id) == place_of_group(tree.groups, id)
        }),
{
    let linked = with_group(tree, parent_id, with_child(group_of(tree, parent_id)->0, child));
    lemma_place_of_group(tree.groups, parent_id);
    assert forall|id: i64| place_of_group(linked.groups, id) == place_of_group(
        tree.groups,
        id,
    ) by {
        lemma_place_by_ids(linked.groups, tree.groups, id);
    }
}

/// Whether a group is among the children once one more child is there.
pub proof fn lemma_contains_after_push(
    children: Seq<ServerGroupChild>,
    child: ServerGroupChild,
    other: ServerGroupChild,
)
    ensures
        children.push(child).contains(other) <==> (children.contains(other) || other == child),
{
    if children.push(child).contains(other) {
        let k = choose|k: int| 0 <= k < children.push(child).len() && children.push(child)[k] == other;
        if k < children.len() {
            assert(children[k] == other);
        }
    }
    if children.contains(other) {
        let k = choose|k: int| 0 <= k < children.len() && children[k] == other;
        assert(children.push(child)[k] == other);
    }
    if other == child {
        assert(children.push(child)[children.len() as int] == other);
    }
}

/// A tree in order stays in order when a connection is put under one of its
/// groups.
pub proof fn lemma_add_reference_keeps_wf(tree: GroupTreeView, group_id: i64, connection_id: i64)
    requires
        tree_wf(tree),
        add_reference_outcome(tree, group_id, connection_id) is Ok,
    ensures
        tree_wf(add_reference_outcome(tree, group_id, connection_id)->Ok_0),
{
    let child = ServerGroupChild::Connection(connection_id);
    let after = add_reference_outcome(tree, group_id, connection_id)->Ok_0;
    lemma_linked(tree, group_id, child);
    assert forall|place: int, id: i64| named_at(after, place, id) == named_at(tree, place, id) by {
        if 0 <= place <= tree.groups.len() {
            lemma_contains_after_push(
                at_place(tree, place).children,
                child,
                ServerGroupChild::Group(id),
            );
            assert(at_place(after, place).id == at_place(tree, place).id);
        }
    }
    assert forall|i: int| 0 <= i < after.groups.len() implies (#[trigger] after.groups[i]).id != 0
        && (after.groups[i].id < after.next_id || after.next_id == i64::MAX) by {
        assert(at_place(after, i + 1).id == at_place(tree, i + 1).id);
        assert(tree.groups[i].id != 0);
    }
    assert forall|i: int, j: int|
        #![trigger after.groups[i], after.groups[j]]
        0 <= i < j < after.groups.len() implies after.groups[i].id != after.groups[j].id by {
        assert(at_place(after, i + 1).id == at_place(tree, i + 1).id);
        assert(at_place(after, j + 1).id == at_place(tree, j + 1).id);
        assert(tree.groups[i].id != tree.groups[j].id);
    }
    assert(after.root.id == 0) by {
        assert(at_place(after, 0).id == at_place(tree, 0).id);
    }
    assert forall|place: int, id: i64| #[trigger] named_at(after, place, id) implies stands_behind(
        after,
        place,
        id,
    ) by {
        assert(named_at(tree, place, id));
    }
    assert forall|p: int, q: int, id: i64|
        #![trigger named_at(after, p, id), named_at(after, q, id)]
        named_at(after, p, id) && named_at(after, q, id) implies p == q by {
        assert(named_at(tree, p, id) && named_at(tree, q, id));
    }
    assert forall|j: int| 0 <= j < after.groups.len() implies #[trigger] has_parent(after, j) by {
        assert(has_parent(tree, j));
        let place = choose|place: int|
            0 <= place <= j && #[trigger] named_at(tree, place, tree.groups[j].id);
        assert(at_place(after, j + 1).id == at_place(tree, j + 1).id);
        assert(named_at(after, place, after.groups[j].id));
    }
}

/// A tree in order stays in order when a group with an unused id is put
/// under one of its groups.
pub proof fn lemma_insert_keeps_wf(tree: GroupTreeView, parent_id: i64, id: i64, name: Seq<char>)
    requires
        tree_wf(tree),
        insert_group_outcome(tree, parent_id, id, name) is Ok,
    ensures
        tree_wf(insert_group_outcome(tree, parent_id, id, name)->Ok_0),
{
    let child = ServerGroupChild::Group(id);
    let linked = with_group(tree, parent_id, with_child(group_of(tree, parent_id)->0, child));
    let fresh = ServerGroupView { id, name, children: Seq::empty() };
    let after = insert_group_outcome(tree, parent_id, id, name)->Ok_0;
    let n = tree.groups.len() as int;
    let parent = if parent_id == 0 {
        0
    } else {
        place_of_group(tree.groups, parent_id) + 1
    };
    lemma_linked(tree, parent_id, child);
    lemma_place_of_group(tree.groups, id);
    assert(after.groups == linked.groups.push(fresh));
    // No group has the new id, and none names it.
    assert forall|i: int| 0 <= i < n implies (#[trigger] tree.groups[i]).id != id by {}
    assert forall|place: int| !named_at(tree, place, id) by {
        if named_at(tree, place, id) {
            assert(stands_behind(tree, place, id));
        }
    }
    // What the groups of the new tree are.
    assert forall|p: int| 0 <= p <= n implies #[trigger] at_place(after, p) == at_place(
        linked,
        p,
    ) by {}
    assert(at_place(after, n + 1) == fresh);
    assert forall|place: int, other: i64| named_at(after, place, other) == ((named_at(
        tree,
        place,
        other,
    ) && other != id) || (place == parent && other == id)) by {
        if 0 <= place <= n {
            assert(at_place(after, place) == at_place(linked, place));
            lemma_contains_after_push(
                at_place(tree, place).children,
                child,
                ServerGroupChild::Group(other),
            );
            if other == id {
                assert(!named_at(tree, place, id));
            }
        } else if place == n + 1 {
            assert(!fresh.children.contains(ServerGroupChild::Group(other)));
        }
    }
    assert forall|other: i64| place_of_group(after.groups, other) == (if place_of_group(
        tree.groups,
        other,
    ) < n {
        place_of_group(tree.groups, other)
    } else if other == id {
        n
    } else {
        n + 1
    }) by {
        lemma_place_after_push(linked.groups, fresh, other);
    }
    assert forall|i: int| 0 <= i < after.groups.len() implies (#[trigger] after.groups[i]).id != 0
        && (after.groups[i].id < after.next_id || after.next_id == i64::MAX) by {
        if i < n {
            assert(at_place(after, i + 1) == at_place(linked, i + 1));
            assert(at_place(linked, i + 1).id == at_place(tree, i + 1).id);
            assert(tree.groups[i].id != 0);
        }
    }
    assert forall|i: int, j: int|
        #![trigger after.groups[i], after.groups[j]]
        0 <= i < j < after.groups.len() implies after.groups[i].id != after.groups[j].id by {
        assert(at_place(after, i + 1) == at_place(linked, i + 1));
        assert(at_place(linked, i + 1).id == at_place(tree, i + 1).id);
        if j < n {
            assert(at_place(after, j + 1) == at_place(linked, j + 1));
            assert(at_place(linked, j + 1).id == at_place(tree, j + 1).id);
            assert(tree.groups[i].id != tree.groups[j].id);
        } else {
            assert(tree.groups[i].id != id);
        }
    }
    assert(after.root.id == 0) by {
        assert(at_place(after, 0) == at_place(linked, 0));
        assert(at_place(linked, 0).id == at_place(tree, 0).id);
    }
    assert forall|place: int, other: i64| #[trigger]
        named_at(after, place, other) implies stands_behind(after, place, other) by {
        if other != id {
            assert(named_at(tree, place, other));
            assert(stands_behind(tree, place, other));
        }
    }
    assert forall|p: int, q: int, other: i64|
        #![trigger named_at(after, p, other), named_at(after, q, other)]
        named_at(after, p, other) && named_at(after, q, other) implies p == q by {
        if other != id {
            assert(named_at(tree, p, other) && named_at(tree, q, other));
        }
    }
    assert forall|j: int| 0 <= j < after.groups.len() implies #[trigger] has_parent(after, j) by {
        if j < n {
            assert(has_parent(tree, j));
            let place = choose|place: int|
                0 <= place <= j && #[trigger] named_at(tree, place, tree.groups[j].id);
            assert(at_place(after, j + 1) == at_place(linked, j + 1));
            assert(at_place(linked, j + 1).id == at_place(tree, j + 1).id);
            assert(tree.groups[j].id != id);
            assert(named_at(after, place, after.groups[j].id));
        } else {
            assert(named_at(after, parent, after.groups[j].id));
        }
    }
}

/// Adding a group is putting a group in under the next id of the tree.
pub proof fn lemma_add_is_insert(tree: GroupTreeView, parent_id: i64, name: Seq<char>)
    requires
        tree_wf(tree),
        add_group_outcome(tree, parent_id, name) is Ok,
    ensures
        add_group_outcome(tree, parent_id, name) == insert_group_outcome(
            tree,
            parent_id,
            tree.next_id,
            name,
        ),
{
    lemma_place_of_group(tree.groups, tree.next_id);
    if place_of_group(tree.groups, tree.next_id) < tree.groups.len() {
        let at = place_of_group(tree.groups, tree.next_id);
        assert(tree.groups[at].id < tree.next_id || tree.next_id == i64::MAX);
    }
}

/// A tree in order stays in order when a group is added to it.
pub proof fn lemma_add_group_keeps_wf(tree: GroupTreeView, parent_id: i64, name: Seq<char>)
    requires
        tree_wf(tree),
        add_group_outcome(tree, parent_id, name) is Ok,
    ensures
        tree_wf(add_group_outcome(tree, parent_id, name)->Ok_0),
{
    lemma_add_is_insert(tree, parent_id, name);
    lemma_insert_keeps_wf(tree, parent_id, tree.next_id, name);
}

/// A tree in order stays in order when its root is given another name.
pub proof fn lemma_rename_keeps_wf(tree: GroupTreeView, name: Seq<char>)
    requires
        tree_wf(tree),
    ensures
        tree_wf(GroupTreeView { root: ServerGroupView { name, ..tree.root }, ..tree }),
{
    let after = GroupTreeView { root: ServerGroupView { name, ..tree.root }, ..tree };
    assert forall|place: int, id: i64| named_at(after, place, id) == named_at(tree, place, id) by {}
    assert forall|place: int, id: i64| #[trigger] named_at(after, place, id) implies stands_behind(
        after,
        place,
        id,
    ) by {
        assert(named_at(tree, place, id));
    }
    assert forall|p: int, q: int, id: i64|
        #![trigger named_at(after, p, id), named_at(after, q, id)]
        named_at(after, p, id) && named_at(after, q, id) implies p == q by {
        assert(named_at(tree, p, id) && named_at(tree, q, id));
    }
    assert forall|j: int| 0 <= j < after.groups.len() implies #[trigger] has_parent(after, j) by {
        assert(has_parent(tree, j));
        let place = choose|place: int|
            0 <= place <= j && #[trigger] named_at(tree, place, tree.groups[j].id);
        assert(named_at(after, place, after.groups[j].id));
    }
}

/// How many of the first `i` groups are not marked.
pub open spec fn rank(marks: Seq<bool>, i: int) -> int
    decreases i,
{
    if i <= 0 {
        0
    } else if marks[i - 1] {
        rank(marks, i - 1)
    } else {
        rank(marks, i - 1) + 1
    }
}

/// The rank rises with the index, and strictly past a group that is not
/// marked.
pub proof fn lemma_rank_rises(marks: Seq<bool>, i: int, j: int)
    requires
        0 <= i <= j,
    ensures
        0 <= rank(marks, i) <= rank(marks, j),
        rank(marks, i) <= i,
        i < j && !marks[i] ==> rank(marks, i) < rank(marks, j),
    decreases j,
{
    if i < j {
        lemma_rank_rises(marks, i, j - 1);
    } else {
        lemma_rank_bounds(marks, i);
    }
}

/// The rank of an index lies between 0 and the index.
pub proof fn lemma_rank_bounds(marks: Seq<bool>, i: int)
    requires
        0 <= i,
    ensures
        0 <= rank(marks, i) <= i,
    decreases i,
{
    if i > 0 {
        lemma_rank_bounds(marks, i - 1);
    }
}

/// The groups that stay stand in the order they stood in: the one that
/// stood at index `i` stands at the rank of `i`.
pub proof fn lemma_survivors(
    groups: Seq<ServerGroupView>,
    marks: Seq<bool>,
    id: i64,
    upto: int,
)
    requires
        marks.len() == groups.len(),
        0 <= upto <= groups.len(),
    ensures
        survivors(groups, marks, id, upto).len() == rank(marks, upto),
        forall|i: int|
            0 <= i < upto && !marks[i] ==> 0 <= #[trigger] rank(marks, i) < rank(marks, upto)
                && survivors(groups, marks, id, upto)[rank(marks, i)] == pruned(groups[i], id),
    decreases upto,
{
    if upto > 0 {
        lemma_survivors(groups, marks, id, upto - 1);
        assert forall|i: int| 0 <= i < upto && !marks[i] implies 0 <= #[trigger] rank(marks, i)
            < rank(marks, upto) && survivors(groups, marks, id, upto)[rank(marks, i)] == pruned(
            groups[i],
            id,
        ) by {
            lemma_rank_rises(marks, i, upto);
            if i < upto - 1 {
                lemma_rank_rises(marks, i, upto - 1);
            }
        }
    }
}

/// A group that is pruned names the groups it named, but for the removed
/// one.
pub proof fn lemma_pruned_names(children: Seq<ServerGroupChild>, id: i64, other: i64)
    ensures
        without_group(children, id).contains(ServerGroupChild::Group(other)) <==> (
        children.contains(ServerGroupChild::Group(other)) && other != id),
    decreases children.len(),
{
    let wanted = ServerGroupChild::Group(other);
    if children.len() > 0 {
        let shorter = children.drop_last();
        lemma_pruned_names(shorter, id, other);
        let kept = without_group(shorter, id);
        if children.contains(wanted) {
            let k = choose|k: int| 0 <= k < children.len() && children[k] == wanted;
            if k < shorter.len() {
                assert(shorter[k] == wanted);
            }
        }
        if shorter.contains(wanted) {
            let k = choose|k: int| 0 <= k < shorter.len() && shorter[k] == wanted;
            assert(children[k] == wanted);
        }
        if children.last() == wanted {
            assert(children[children.len() - 1] == wanted);
        }
        if children.last() != ServerGroupChild::Group(id) {
            lemma_contains_after_push(kept, children.last(), wanted);
        }
    }
}

/// The marks of the first groups do not depend on how many groups are
/// marked after them.
pub proof fn lemma_marks_prefix(groups: Seq<ServerGroupView>, id: i64, upto: int, i: int)
    requires
        0 <= i <= upto,
    ensures
        doomed_marks(groups, id, upto).take(i) == doomed_marks(groups, id, i),
    decreases upto,
{
    lemma_marks_len(groups, id, upto);
    lemma_marks_len(groups, id, i);
    if i < upto {
        lemma_marks_prefix(groups, id, upto - 1, i);
        lemma_marks_len(groups, id, upto - 1);
        assert(doomed_marks(groups, id, upto).take(i) =~= doomed_marks(groups, id, upto - 1).take(
            i,
        ));
    } else {
        assert(doomed_marks(groups, id, upto).take(i) =~= doomed_marks(groups, id, upto));
    }
}

/// In a tree in order a group goes exactly where it is the removed group
/// or its parent goes.
pub proof fn lemma_marked(tree: GroupTreeView, id: i64, j: int)
    requires
        tree_wf(tree),
        0 <= j < tree.groups.len(),
    ensures
        ({
            let marks = doomed_marks(tree.groups, id, tree.groups.len() as int);
            &&& marks.len() == tree.groups.len()
            &&& forall|place: int|
                #![trigger named_at(tree, place, tree.groups[j].id)]
                named_at(tree, place, tree.groups[j].id) ==> place <= j && (marks[j] == (
                tree.groups[j].id == id || (place >= 1 && marks[place - 1])))
        }),
{
    let groups = tree.groups;
    let n = groups.len() as int;
    let marks = doomed_marks(groups, id, n);
    let mine = groups[j].id;
    lemma_marks_len(groups, id, n);
    lemma_marks_len(groups, id, j);
    lemma_marks_prefix(groups, id, n, j + 1);
    lemma_marks_prefix(groups, id, n, j);
    let before = doomed_marks(groups, id, j);
    assert(before == marks.take(j));
    assert(doomed_marks(groups, id, j + 1) == before.push(
        mine == id || has_doomed_parent(groups, before, mine),
    ));
    assert(marks.take(j + 1)[j] == marks[j]);
    assert(marks[j] == (mine == id || has_doomed_parent(groups, before, mine)));
    lemma_place_of_distinct(groups, j);
    assert forall|place: int|
        #![trigger named_at(tree, place, mine)]
        named_at(tree, place, mine) implies place <= j && (marks[j] == (mine == id || (place >= 1
        && marks[place - 1]))) by {
        assert(stands_behind(tree, place, mine));
        if has_doomed_parent(groups, before, mine) {
            let q = choose|q: int|
                0 <= q < before.len() && q < groups.len() && before[q] && (
                #[trigger] groups[q]).children.contains(ServerGroupChild::Group(mine));
            assert(at_place(tree, q + 1) == groups[q]);
            assert(named_at(tree, q + 1, mine));
            assert(place == q + 1);
            assert(before[q] == marks[q]);
        }
        if place >= 1 && marks[place - 1] {
            assert(at_place(tree, place) == groups[place - 1]);
            assert(before[place - 1] == marks[place - 1]);
            assert(has_doomed_parent(groups, before, mine));
        }
    }
}

/// A tree in order stays in order when a group is removed from it with
/// all that is beneath it.
pub proof fn lemma_remove_keeps_wf(tree: GroupTreeView, id: i64)
    requires
        tree_wf(tree),
        remove_group_outcome(tree, id) is Ok,
    ensures
        tree_wf(remove_group_outcome(tree, id)->Ok_0),
{
    let groups = tree.groups;
    let n = groups.len() as int;
    let marks = doomed_marks(groups, id, n);
    let after = remove_group_outcome(tree, id)->Ok_0;
    let kept = after.groups;
    lemma_marks_len(groups, id, n);
    lemma_survivors(groups, marks, id, n);
    assert(kept.len() == rank(marks, n));
    // Where each group that stays stood.
    assert forall|s: int| 0 <= s < kept.len() implies ({
        let i = origin(marks, n, s);
        0 <= i < n && !marks[i] && rank(marks, i) == s && #[trigger] kept[s] == pruned(
            groups[i],
            id,
        )
    }) by {
        lemma_origin(marks, n, s);
    }
    // The ids.
    assert forall|s: int| 0 <= s < kept.len() implies (#[trigger] kept[s]).id != 0 && (kept[s].id
        < after.next_id || after.next_id == i64::MAX) by {
        let i = origin(marks, n, s);
        lemma_origin(marks, n, s);
        assert(kept[s] == pruned(groups[i], id));
        assert(groups[i].id != 0);
    }
    assert forall|s: int, t: int|
        #![trigger kept[s], kept[t]]
        0 <= s < t < kept.len() implies kept[s].id != kept[t].id by {
        let i = origin(marks, n, s);
        let j = origin(marks, n, t);
        lemma_origin(marks, n, s);
        lemma_origin(marks, n, t);
        assert(kept[s] == pruned(groups[i], id));
        assert(kept[t] == pruned(groups[j], id));
        if i < j {
            assert(groups[i].id != groups[j].id);
        } else if j < i {
            assert(groups[j].id != groups[i].id);
        }
    }
    // What is named in the new tree was named in the old one, at the place
    // that the new place stems from.
    assert forall|place: int, other: i64| #[trigger] named_at(after, place, other) implies other
        != id && named_at(tree, old_place(marks, n, place), other) && (place == 0 || !marks[
        old_place(marks, n, place) - 1]) && 0 <= old_place(marks, n, place) <= n by {
        if place == 0 {
            lemma_pruned_names(tree.root.children, id, other);
        } else {
            let i = origin(marks, n, place - 1);
            lemma_origin(marks, n, place - 1);
            assert(kept[place - 1] == pruned(groups[i], id));
            lemma_pruned_names(groups[i].children, id, other);
            assert(at_place(tree, i + 1) == groups[i]);
        }
    }
    // A group that is named in the new tree stays, and stands behind the
    // place that names it.
    assert forall|place: int, other: i64| #[trigger]
        named_at(after, place, other) implies stands_behind(after, place, other) by {
        let from = old_place(marks, n, place);
        assert(named_at(tree, from, other));
        assert(stands_behind(tree, from, other));
        let j = place_of_group(groups, other);
        lemma_place_of_group(groups, other);
        lemma_marked(tree, id, j);
        assert(named_at(tree, from, groups[j].id));
        assert(!marks[j]);
        assert(kept[rank(marks, j)] == pruned(groups[j], id));
        lemma_place_of_distinct(kept, rank(marks, j));
        if place > 0 {
            lemma_rank_rises(marks, from - 1, j);
        } else {
            lemma_rank_bounds(marks, j);
        }
    }
    assert forall|p: int, q: int, other: i64|
        #![trigger named_at(after, p, other), named_at(after, q, other)]
        named_at(after, p, other) && named_at(after, q, other) implies p == q by {
        let from_p = old_place(marks, n, p);
        let from_q = old_place(marks, n, q);
        assert(named_at(tree, from_p, other) && named_at(tree, from_q, other));
        assert(from_p == from_q);
    }
    assert forall|t: int| 0 <= t < kept.len() implies #[trigger] has_parent(after, t) by {
        let j = origin(marks, n, t);
        lemma_origin(marks, n, t);
        assert(kept[t] == pruned(groups[j], id));
        assert(has_parent(tree, j));
        let from = choose|from: int| 0 <= from <= j && #[trigger] named_at(tree, from, groups[j].id);
        lemma_marked(tree, id, j);
        assert(groups[j].id != id);
        if from == 0 {
            lemma_pruned_names(tree.root.children, id, groups[j].id);
            assert(named_at(after, 0, kept[t].id));
        } else {
            assert(!marks[from - 1]);
            assert(at_place(tree, from) == groups[from - 1]);
            lemma_pruned_names(groups[from - 1].children, id, groups[j].id);
            lemma_rank_rises(marks, from - 1, j);
            assert(kept[rank(marks, from - 1)] == pruned(groups[from - 1], id));
            assert(at_place(after, rank(marks, from - 1) + 1) == kept[rank(marks, from - 1)]);
            assert(named_at(after, rank(marks, from - 1) + 1, kept[t].id));
        }
    }
}

/// The index at which the group stood that stands at rank `s` among those
/// that stay.
pub open spec fn origin(marks: Seq<bool>, upto: int, s: int) -> int
    decreases upto,
{
    if upto <= 0 {
        0
    } else if !marks[upto - 1] && rank(marks, upto - 1) == s {
        upto - 1
    } else {
        origin(marks, upto - 1, s)
    }
}

/// The place in the old tree that a place of the new tree stems from.
pub open spec fn old_place(marks: Seq<bool>, upto: int, place: int) -> int {
    if place <= 0 {
        0
    } else {
        origin(marks, upto, place - 1) + 1
    }
}

/// The origin of a rank is an index whose group is not marked and has that
/// rank.
pub proof fn lemma_origin(marks: Seq<bool>, upto: int, s: int)
    requires
        0 <= upto,
        0 <= s < rank(marks, upto),
    ensures
        0 <= origin(marks, upto, s) < upto,
        !marks[origin(marks, upto, s)],
        rank(marks, origin(marks, upto, s)) == s,
    decreases upto,
{
    if upto > 0 && !(!marks[upto - 1] && rank(marks, upto - 1) == s) {
        lemma_origin(marks, upto - 1, s);
    }
}

} // verus!
