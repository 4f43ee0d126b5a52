//! The tree of groups under which connections are shown. The groups are
//! kept in a flat list, the root apart; a group names its child groups by
//! their ids, and a child group stands behind its parent in the list.

use vstd::prelude::*;
use crate::config::group_laws::{
    lemma_add_group_keeps_wf, lemma_add_reference_keeps_wf, lemma_insert_keeps_wf,
    lemma_new_tree_wf, lemma_remove_keeps_wf, lemma_rename_keeps_wf, tree_wf,
};
use crate::error::ConfigError;

verus! {

/// A child of a group: another group, named by its id, or a connection,
/// named by its id.
#[derive(Debug, Clone, Copy, PartialEq, Eq, Structural)]
pub enum ServerGroupChild {
    Group(i64),
    Connection(i64),
}

/// The id that a child names, whichever kind it is of.
pub open spec fn child_id(child: ServerGroupChild) -> i64 {
    match child {
        ServerGroupChild::Group(id) => id,
        ServerGroupChild::Connection(id) => id,
    }
}

/// A named group and its children in their order.
#[derive(Debug)]
pub struct ServerGroup {
    pub id: i64,
    pub name: String,
    pub children: Vec<ServerGroupChild>,
}

/// A group as a mathematical value.
pub struct ServerGroupView {
    pub id: i64,
    pub name: Seq<char>,
    pub children: Seq<ServerGroupChild>,
}

impl View for ServerGroup {
    type V = ServerGroupView;

    open spec fn view(&self) -> ServerGroupView {
        ServerGroupView { id: self.id, name: self.name@, children: self.children@ }
    }
}

/// The children without those that name the given id.
pub open spec fn without_child(children: Seq<ServerGroupChild>, id: i64) -> Seq<ServerGroupChild>
    decreases children.len(),
{
    if children.len() == 0 {
        Seq::empty()
    } else if child_id(children.last()) == id {
        without_child(children.drop_last(), id)
    } else {
        without_child(children.drop_last(), id).push(children.last())
    }
}

/// The children without the group of the given id.
pub open spec fn without_group(children: Seq<ServerGroupChild>, id: i64) -> Seq<ServerGroupChild>
    decreases children.len(),
{
    if children.len() == 0 {
        Seq::empty()
    } else if children.last() == ServerGroupChild::Group(id) {
        without_group(children.drop_last(), id)
    } else {
        without_group(children.drop_last(), id).push(children.last())
    }
}

/// A copy of the children without the group of the given id.
fn copy_without_group(children: &Vec<ServerGroupChild>, id: i64) -> (r: Vec<ServerGroupChild>)
    ensures
        r@ == without_group(children@, id),
{
    let mut r: Vec<ServerGroupChild> = Vec::new();
    let mut i: usize = 0;
    assert(children@.take(0) =~= Seq::empty());
    while i < children.len()
        invariant
            i <= children@.len(),
            r@ == without_group(children@.take(i as int), id),
        decreases children@.len() - i,
    {
        assert(children@.take(i + 1).drop_last() =~= children@.take(i as int));
        let keep = match children[i] {
            ServerGroupChild::Group(other) => other != id,
            ServerGroupChild::Connection(_) => true,
        };
        if keep {
            r.push(children[i]);
        }
        i += 1;
    }
    assert(children@.take(i as int) =~= children@);
    r
}

impl Clone for ServerGroup {
    fn clone(&self) -> (r: Self)
        ensures
            r@ == self@,
    {
        let mut children: Vec<ServerGroupChild> = Vec::with_capacity(self.children.len());
        let mut i: usize = 0;
        while i < self.children.len()
            invariant
                i <= self.children@.len(),
                children@ == self.children@.take(i as int),
            decreases self.children@.len() - i,
        {
            children.push(self.children[i]);
            assert(children@ =~= self.children@.take(i + 1));
            i += 1;
        }
        assert(self.children@.take(i as int) =~= self.children@);
        ServerGroup { id: self.id, name: self.name.clone(), children }
    }
}

impl ServerGroup {
    /// A group without children.
    pub fn new(id: i64, name: String) -> (r: Self)
        ensures
            r@ == (ServerGroupView { id, name: name@, children: Seq::empty() }),
    {
        Self { id, name, children: Vec::new() }
    }

    /// The group's id.
    pub fn get_id(&self) -> (r: i64)
        ensures
            r == self@.id,
    {
        self.id
    }

    /// The group's name.
    pub fn get_name(&self) -> (r: &str)
        ensures
            r@ == self@.name,
    {
        self.name.as_str()
    }

    /// Adds a child behind those that are there.
    pub fn add_child(&mut self, child: ServerGroupChild)
        ensures
            final(self)@ == (ServerGroupView {
                children: old(self)@.children.push(child),
                ..old(self)@
            }),
    {
        self.children.push(child);
    }

    /// Removes every child that names the given id, group or connection.
    pub fn remove_child(&mut self, child_id: i64)
        ensures
            final(self)@ == (ServerGroupView {
                children: without_child(old(self)@.children, child_id),
                ..old(self)@
            }),
    {
        let mut kept: Vec<ServerGroupChild> = Vec::new();
        let mut i: usize = 0;
        assert(self.children@.take(0) =~= Seq::empty());
        while i < self.children.len()
            invariant
                *self == *old(self),
                i <= self.children@.len(),
                kept@ == without_child(self.children@.take(i as int), child_id),
            decreases self.children@.len() - i,
        {
            assert(self.children@.take(i + 1).drop_last() =~= self.children@.take(i as int));
            let names = match self.children[i] {
                ServerGroupChild::Group(id) => id,
                ServerGroupChild::Connection(id) => id,
            };
            if names != child_id {
                kept.push(self.children[i]);
            }
            i += 1;
        }
        assert(self.children@.take(i as int) =~= self.children@);
        self.children = kept;
    }

    /// Whether the group has the group of the given id among its children.
    pub fn has_group(&self, id: i64) -> (r: bool)
        ensures
            r == self@.children.contains(ServerGroupChild::Group(id)),
    {
        let mut i: usize = 0;
        while i < self.children.len()
            invariant
                i <= self.children@.len(),
                forall|j: int| 0 <= j < i ==> self.children@[j] != ServerGroupChild::Group(id),
            decreases self.children@.len() - i,
        {
            match self.children[i] {
                ServerGroupChild::Group(other) => {
                    if other == id {
                        return true;
                    }
                },
                ServerGroupChild::Connection(_) => {},
            }
            i += 1;
        }
        false
    }
}

/// The groups as mathematical values.
pub open spec fn groups_view(groups: Seq<ServerGroup>) -> Seq<ServerGroupView> {
    groups.map_values(|g: ServerGroup| g@)
}

/// A tree as a mathematical value: the root, the other groups in the order
/// of the list, and the id that the next new group gets.
pub struct GroupTreeView {
    pub root: ServerGroupView,
    pub groups: Seq<ServerGroupView>,
    pub next_id: i64,
}

/// The place of the first group with the given id, or the number of
/// groups where there is none.
pub open spec fn place_of_group(groups: Seq<ServerGroupView>, id: i64) -> int
    decreases groups.len(),
{
    if groups.len() == 0 {
        0
    } else if groups[0].id == id {
        0
    } else {
        1 + place_of_group(groups.drop_first(), id)
    }
}

/// The place that `place_of_group` gives holds the first group with the id.
pub proof fn lemma_place_of_group(groups: Seq<ServerGroupView>, id: i64)
    ensures
        0 <= place_of_group(groups, id) <= groups.len(),
        place_of_group(groups, id) < groups.len() ==> groups[place_of_group(groups, id)].id == id,
        forall|j: int| 0 <= j < place_of_group(groups, id) ==> (#[trigger] groups[j]).id != id,
    decreases groups.len(),
{
    if groups.len() > 0 && groups[0].id != id {
        let rest = groups.drop_first();
        lemma_place_of_group(rest, id);
        let at = place_of_group(rest, id);
        if at < rest.len() {
            assert(groups[at + 1].id == id);
        }
        assert forall|j: int| 0 <= j < 1 + at implies (#[trigger] groups[j]).id != id by {
            if j > 0 {
                assert(rest[j - 1].id != id);
            }
        }
    }
}

/// Whether the id resolves to a group: 0 always does, to the root; any
/// other does where a group of the list has it.
pub open spec fn resolves(tree: GroupTreeView, id: i64) -> bool {
    id == 0 || place_of_group(tree.groups, id) < tree.groups.len()
}

/// The group that an id resolves to: the root for 0, else the first group
/// of the list that has it.
pub open spec fn group_of(tree: GroupTreeView, id: i64) -> Option<ServerGroupView> {
    if id == 0 {
        Some(tree.root)
    } else if place_of_group(tree.groups, id) < tree.groups.len() {
        Some(tree.groups[place_of_group(tree.groups, id)])
    } else {
        None
    }
}

/// The tree with `group` in the place of the group that `id` resolves to.
pub open spec fn with_group(tree: GroupTreeView, id: i64, group: ServerGroupView) -> GroupTreeView {
    if id == 0 {
        GroupTreeView { root: group, ..tree }
    } else {
        GroupTreeView {
            groups: tree.groups.update(place_of_group(tree.groups, id), group),
            ..tree
        }
    }
}

/// A group with one more child.
pub open spec fn with_child(group: ServerGroupView, child: ServerGroupChild) -> ServerGroupView {
    ServerGroupView { children: group.children.push(child), ..group }
}

/// What adding a group under a parent gives. The new group gets the next
/// id of the tree, comes last in the list and last among the children of
/// its parent. A parent that does not resolve is refused, and so is any
/// adding once the ids are used up.
pub open spec fn add_group_outcome(tree: GroupTreeView, parent_id: i64, name: Seq<char>) -> Result<
    GroupTreeView,
    ConfigError,
> {
    if !resolves(tree, parent_id) {
        Err(ConfigError::ParentNotFound)
    } else if tree.next_id == i64::MAX {
        Err(ConfigError::IdsExhausted)
    } else {
        let id = tree.next_id;
        let parent = with_child(group_of(tree, parent_id)->0, ServerGroupChild::Group(id));
        let linked = with_group(tree, parent_id, parent);
        Ok(
            GroupTreeView {
                groups: linked.groups.push(
                    ServerGroupView { id, name, children: Seq::empty() },
                ),
                next_id: (id + 1) as i64,
                ..linked
            },
        )
    }
}

/// The id that the next new group gets once a group with the id `id` is in
/// the tree: one above it where it is not below already.
pub open spec fn next_id_after(next_id: i64, id: i64) -> i64 {
    if id < next_id {
        next_id
    } else if id == i64::MAX {
        i64::MAX
    } else {
        (id + 1) as i64
    }
}

/// What putting a group with a given id under a parent gives. The id 0
/// and an id that a group has are refused, and so is a parent that does
/// not resolve. Else the group comes last in the list and last among the
/// children of its parent, and the next id of the tree lies above its id.
pub open spec fn insert_group_outcome(
    tree: GroupTreeView,
    parent_id: i64,
    id: i64,
    name: Seq<char>,
) -> Result<GroupTreeView, ConfigError> {
    if id == 0 || resolves(tree, id) {
        Err(ConfigError::DuplicateId)
    } else if !resolves(tree, parent_id) {
        Err(ConfigError::ParentNotFound)
    } else {
        let parent = with_child(group_of(tree, parent_id)->0, ServerGroupChild::Group(id));
        let linked = with_group(tree, parent_id, parent);
        Ok(
            GroupTreeView {
                groups: linked.groups.push(
                    ServerGroupView { id, name, children: Seq::empty() },
                ),
                next_id: next_id_after(tree.next_id, id),
                ..linked
            },
        )
    }
}

/// What putting a connection under a group gives: the connection comes
/// last among the children of the group. A group that does not resolve is
/// refused.
pub open spec fn add_reference_outcome(tree: GroupTreeView, group_id: i64, connection_id: i64)
    -> Result<GroupTreeView, ConfigError> {
    if !resolves(tree, group_id) {
        Err(ConfigError::GroupNotFound)
    } else {
        Ok(
            with_group(
                tree,
                group_id,
                with_child(
                    group_of(tree, group_id)->0,
                    ServerGroupChild::Connection(connection_id),
                ),
            ),
        )
    }
}

/// Whether a group that is marked has the group `child` among its
/// children.
pub open spec fn has_doomed_parent(groups: Seq<ServerGroupView>, marks: Seq<bool>, child: i64)
    -> bool {
    exists|p: int|
        0 <= p < marks.len() && p < groups.len() && marks[p] && (#[trigger] groups[p]).children.contains(
            ServerGroupChild::Group(child),
        )
}

/// For each of the first `upto` groups of the list, whether it goes when
/// the group `id` is removed: it has the id itself, or it is a child of a
/// group that goes and stands before it.
pub open spec fn doomed_marks(groups: Seq<ServerGroupView>, id: i64, upto: int) -> Seq<bool>
    decreases upto,
{
    if upto <= 0 {
        Seq::empty()
    } else {
        let before = doomed_marks(groups, id, upto - 1);
        before.push(
            groups[upto - 1].id == id || has_doomed_parent(groups, before, groups[upto - 1].id),
        )
    }
}

/// A group without the child that names the removed group.
pub open spec fn pruned(group: ServerGroupView, id: i64) -> ServerGroupView {
    ServerGroupView { children: without_group(group.children, id), ..group }
}

/// The first `upto` groups of the list without those that are marked, each
/// without the child that names the removed group.
pub open spec fn survivors(groups: Seq<ServerGroupView>, marks: Seq<bool>, id: i64, upto: int)
    -> Seq<ServerGroupView>
    decreases upto,
{
    if upto <= 0 {
        Seq::empty()
    } else if marks[upto - 1] {
        survivors(groups, marks, id, upto - 1)
    } else {
        survivors(groups, marks, id, upto - 1).push(pruned(groups[upto - 1], id))
    }
}

/// There is one mark for each group.
pub proof fn lemma_marks_len(groups: Seq<ServerGroupView>, id: i64, upto: int)
    requires
        0 <= upto,
    ensures
        doomed_marks(groups, id, upto).len() == upto,
    decreases upto,
{
    if upto > 0 {
        lemma_marks_len(groups, id, upto - 1);
    }
}

/// What removing a group gives. The root is not removable, and an id that
/// no group has is refused. Else the group goes with all that is beneath
/// it, and no child names it any more.
pub open spec fn remove_group_outcome(tree: GroupTreeView, id: i64) -> Result<
    GroupTreeView,
    ConfigError,
> {
    if id == 0 {
        Err(ConfigError::RootNotRemovable)
    } else if !resolves(tree, id) {
        Err(ConfigError::GroupNotFound)
    } else {
        Ok(
            GroupTreeView {
                root: pruned(tree.root, id),
                groups: survivors(
                    tree.groups,
                    doomed_marks(tree.groups, id, tree.groups.len() as int),
                    id,
                    tree.groups.len() as int,
                ),
                next_id: tree.next_id,
            },
        )
    }
}

/// The tree of groups.
pub struct ServerGroupManager {
    root: ServerGroup,
    groups: Vec<ServerGroup>,
    next_id: i64,
}

impl View for ServerGroupManager {
    type V = GroupTreeView;

    closed spec fn view(&self) -> GroupTreeView {
        GroupTreeView {
            root: self.root@,
            groups: groups_view(self.groups@),
            next_id: self.next_id,
        }
    }
}

/// The tree that a new manager holds: the root, named `Root`, alone.
pub open spec fn new_tree() -> GroupTreeView {
    GroupTreeView {
        root: ServerGroupView { id: 0, name: "Root"@, children: Seq::empty() },
        groups: Seq::empty(),
        next_id: 1,
    }
}

impl ServerGroupManager {
    /// The tree is in order: the root has the id 0 and no other group has;
    /// no two groups share an id; every group but the root is the child of
    /// exactly one group, which stands before it in the list.
    pub open spec fn wf(&self) -> bool {
        tree_wf(self@)
    }

    /// A tree with the root alone.
    pub fn new() -> (r: Self)
        ensures
            r@ == new_tree(),
            r.wf(),
    {
        let r = Self { root: ServerGroup::new(0, "Root".to_owned()), groups: Vec::new(), next_id: 1 };
        assert(r@.groups =~= Seq::empty());
        proof {
            lemma_new_tree_wf();
        }
        r
    }

    /// The groups of the list.
    pub fn get_groups(&self) -> (r: &[ServerGroup])
        ensures
            groups_view(r@) == self@.groups,
    {
        self.groups.as_slice()
    }

    /// The id that the next new group gets.
    pub fn get_next_id(&self) -> (r: i64)
        ensures
            r == self@.next_id,
    {
        self.next_id
    }

    /// The root.
    pub fn get_root(&self) -> (r: &ServerGroup)
        ensures
            r@ == self@.root,
    {
        &self.root
    }

    /// The root, to be changed in place.
    pub fn get_root_mut(&mut self) -> (r: &mut ServerGroup)
        ensures
            r@ == old(self)@.root,
            final(self)@ == (GroupTreeView { root: final(r)@, ..old(self)@ }),
    {
        &mut self.root
    }

    /// The place of the first group of the list with the given id.
    fn position(&self, id: i64) -> (at: usize)
        ensures
            at == place_of_group(self@.groups, id),
            at <= self.groups@.len(),
    {
        let ghost all = self@.groups;
        let mut i: usize = 0;
        assert(all.skip(0) =~= all);
        while i < self.groups.len()
            invariant
                i <= self.groups@.len(),
                all == groups_view(self.groups@),
                place_of_group(all, id) == i + place_of_group(all.skip(i as int), id),
            decreases self.groups@.len() - i,
        {
            let ghost rest = all.skip(i as int);
            assert(rest[0] == self.groups@[i as int]@);
            assert(rest.drop_first() =~= all.skip(i + 1));
            if self.groups[i].id == id {
                return i;
            }
            i += 1;
        }
        assert(all.skip(i as int) =~= Seq::empty());
        i
    }

    /// The group that the id resolves to: the root for 0, whatever the
    /// tree holds, else the first group of the list that has the id.
    pub fn get_group(&self, id: i64) -> (r: Option<&ServerGroup>)
        ensures
            match r {
                Some(group) => group_of(self@, id) == Some(group@),
                None => group_of(self@, id) is None,
            },
    {
        if id == 0 {
            return Some(&self.root);
        }
        let at = self.position(id);
        if at < self.groups.len() {
            Some(&self.groups[at])
        } else {
            None
        }
    }

    /// The group that the id resolves to, to be changed in place.
    pub fn get_group_mut(&mut self, id: i64) -> (r: Option<&mut ServerGroup>)
        ensures
            match r {
                Some(group) => group_of(old(self)@, id) == Some(group@) && final(self)@
                    == with_group(old(self)@, id, final(group)@),
                None => group_of(old(self)@, id) is None && final(self)@ == old(self)@,
            },
    {
        if id == 0 {
            return Some(&mut self.root);
        }
        let at = self.position(id);
        if at < self.groups.len() {
            let ghost before = self@.groups;
            let group = &mut self.groups[at];
            proof {
                assert(groups_view(old(self).groups@.update(at as int, *final(group)))
                    =~= before.update(at as int, final(group)@));
            }
            Some(group)
        } else {
            None
        }
    }

    /// Adds an empty group under a parent and returns its id, which is the
    /// next id of the tree. A parent that does not resolve is refused, and
    /// so is any adding once the ids are used up. A tree that refuses stays
    /// as it is.
    pub fn add_group(&mut self, parent_id: i64, name: String) -> (r: Result<i64, ConfigError>)
        ensures
            match add_group_outcome(old(self)@, parent_id, name@) {
                Ok(tree) => final(self)@ == tree && r == Ok::<i64, ConfigError>(
                    old(self)@.next_id,
                ),
                Err(e) => final(self)@ == old(self)@ && r == Err::<i64, ConfigError>(e),
            },
            old(self).wf() ==> final(self).wf(),
    {
        let ghost before = self@;
        proof {
            if tree_wf(before) && add_group_outcome(before, parent_id, name@) is Ok {
                lemma_add_group_keeps_wf(before, parent_id, name@);
            }
        }
        let id = self.next_id;
        let at = if parent_id == 0 {
            0
        } else {
            self.position(parent_id)
        };
        if parent_id != 0 && at >= self.groups.len() {
            return Err(ConfigError::ParentNotFound);
        }
        if id == i64::MAX {
            return Err(ConfigError::IdsExhausted);
        }
        if parent_id == 0 {
            self.root.add_child(ServerGroupChild::Group(id));
        } else {
            let mut parent = self.groups[at].clone();
            parent.add_child(ServerGroupChild::Group(id));
            let ghost changed = parent@;
            self.groups[at] = parent;
            assert(self@.groups =~= before.groups.update(at as int, changed));
        }
        let ghost linked = self@;
        let group = ServerGroup::new(id, name);
        self.groups.push(group);
        self.next_id = id + 1;
        assert(self@.groups =~= linked.groups.push(
            ServerGroupView { id, name: name@, children: Seq::empty() },
        ));
        Ok(id)
    }

    /// Adds a child to the group that the id resolves to.
    fn link(&mut self, group_id: i64, child: ServerGroupChild)
        requires
            resolves(old(self)@, group_id),
        ensures
            final(self)@ == with_group(
                old(self)@,
                group_id,
                with_child(group_of(old(self)@, group_id)->0, child),
            ),
    {
        let ghost before = self@;
        if group_id == 0 {
            self.root.add_child(child);
        } else {
            let at = self.position(group_id);
            let mut group = self.groups[at].clone();
            group.add_child(child);
            let ghost changed = group@;
            self.groups[at] = group;
            assert(self@.groups =~= before.groups.update(at as int, changed));
        }
    }

    /// Whether the id resolves to a group.
    pub fn has_group(&self, id: i64) -> (r: bool)
        ensures
            r == resolves(self@, id),
    {
        id == 0 || self.position(id) < self.groups.len()
    }

    /// Puts an empty group with the given id under a parent. The id 0 and
    /// an id that a group has are refused, and so is a parent that does
    /// not resolve. A tree that refuses stays as it is.
    pub fn insert_group(&mut self, parent_id: i64, id: i64, name: String) -> (r: Result<
        (),
        ConfigError,
    >)
        ensures
            match insert_group_outcome(old(self)@, parent_id, id, name@) {
                Ok(tree) => final(self)@ == tree && r is Ok,
                Err(e) => final(self)@ == old(self)@ && r == Err::<(), ConfigError>(e),
            },
            old(self).wf() ==> final(self).wf(),
    {
        proof {
            if tree_wf(self@) && insert_group_outcome(self@, parent_id, id, name@) is Ok {
                lemma_insert_keeps_wf(self@, parent_id, id, name@);
            }
        }
        if self.has_group(id) {
            return Err(ConfigError::DuplicateId);
        }
        if !self.has_group(parent_id) {
            return Err(ConfigError::ParentNotFound);
        }
        self.link(parent_id, ServerGroupChild::Group(id));
        let ghost linked = self@;
        self.groups.push(ServerGroup::new(id, name));
        if id >= self.next_id {
            self.next_id = if id == i64::MAX {
                i64::MAX
            } else {
                id + 1
            };
        }
        assert(self@.groups =~= linked.groups.push(
            ServerGroupView { id, name: name@, children: Seq::empty() },
        ));
        Ok(())
    }

    /// Puts a connection under a group. A group that does not resolve is
    /// refused, and the tree stays as it is.
    pub fn add_connection_ref(&mut self, group_id: i64, connection_id: i64) -> (r: Result<
        (),
        ConfigError,
    >)
        ensures
            match add_reference_outcome(old(self)@, group_id, connection_id) {
                Ok(tree) => final(self)@ == tree && r is Ok,
                Err(e) => final(self)@ == old(self)@ && r == Err::<(), ConfigError>(e),
            },
            old(self).wf() ==> final(self).wf(),
    {
        proof {
            if tree_wf(self@) && add_reference_outcome(self@, group_id, connection_id) is Ok {
                lemma_add_reference_keeps_wf(self@, group_id, connection_id);
            }
        }
        if !self.has_group(group_id) {
            return Err(ConfigError::GroupNotFound);
        }
        self.link(group_id, ServerGroupChild::Connection(connection_id));
        Ok(())
    }

    /// Gives the root another name.
    pub fn rename_root(&mut self, name: String)
        ensures
            final(self)@ == (GroupTreeView {
                root: ServerGroupView { name: name@, ..old(self)@.root },
                ..old(self)@
            }),
            old(self).wf() ==> final(self).wf(),
    {
        proof {
            if tree_wf(self@) {
                lemma_rename_keeps_wf(self@, name@);
            }
        }
        self.root.name = name;
    }

    /// Marks the groups that go when the group `id` is removed.
    fn mark_doomed(&self, id: i64) -> (marks: Vec<bool>)
        ensures
            marks@ == doomed_marks(self@.groups, id, self@.groups.len() as int),
            marks@.len() == self@.groups.len(),
    {
        let ghost all = self@.groups;
        let n = self.groups.len();
        let mut marks: Vec<bool> = Vec::with_capacity(n);
        let mut i: usize = 0;
        assert(marks@ =~= doomed_marks(all, id, 0));
        while i < n
            invariant
                n == self.groups@.len(),
                all == groups_view(self.groups@),
                i <= n,
                marks@.len() == i,
                marks@ == doomed_marks(all, id, i as int),
            decreases n - i,
        {
            let mine = self.groups[i].id;
            let mut goes = mine == id;
            let mut p: usize = 0;
            while p < i && !goes
                invariant
                    n == self.groups@.len(),
                    all == groups_view(self.groups@),
                    i < n,
                    p <= i,
                    marks@.len() == i,
                    mine == all[i as int].id,
                    goes ==> mine == id || has_doomed_parent(all, marks@, mine),
                    !goes ==> mine != id && forall|q: int|
                        0 <= q < p ==> !(marks@[q] && (#[trigger] all[q]).children.contains(
                            ServerGroupChild::Group(mine),
                        )),
                decreases i - p + (if goes { 0int } else { 1int }),
            {
                assert(all[p as int] == self.groups@[p as int]@);
                if marks[p] && self.groups[p].has_group(mine) {
                    goes = true;
                } else {
                    p += 1;
                }
            }
            assert(goes == (mine == id || has_doomed_parent(all, marks@, mine)));
            marks.push(goes);
            i += 1;
        }
        marks
    }

    /// Removes a group with all that is beneath it, and takes its name out
    /// of the children of every group that stays. The root is not
    /// removable, and an id that no group has is refused. A tree that
    /// refuses stays as it is.
    pub fn remove_group(&mut self, id: i64) -> (r: Result<(), ConfigError>)
        ensures
            match remove_group_outcome(old(self)@, id) {
                Ok(tree) => final(self)@ == tree && r is Ok,
                Err(e) => final(self)@ == old(self)@ && r == Err::<(), ConfigError>(e),
            },
            old(self).wf() ==> final(self).wf(),
    {
        proof {
            if tree_wf(self@) && remove_group_outcome(self@, id) is Ok {
                lemma_remove_keeps_wf(self@, id);
            }
        }
        if id == 0 {
            return Err(ConfigError::RootNotRemovable);
        }
        if self.position(id) >= self.groups.len() {
            return Err(ConfigError::GroupNotFound);
        }
        let ghost all = self@.groups;
        let marks = self.mark_doomed(id);
        let mut kept: Vec<ServerGroup> = Vec::new();
        let mut i: usize = 0;
        assert(groups_view(kept@) =~= survivors(all, marks@, id, 0));
        while i < self.groups.len()
            invariant
                *self == *old(self),
                all == groups_view(self.groups@),
                i <= self.groups@.len(),
                marks@.len() == self.groups@.len(),
                groups_view(kept@) == survivors(all, marks@, id, i as int),
            decreases self.groups@.len() - i,
        {
            if !marks[i] {
                let ghost before = groups_view(kept@);
                let group = ServerGroup {
                    id: self.groups[i].id,
                    name: self.groups[i].name.clone(),
                    children: copy_without_group(&self.groups[i].children, id),
                };
                assert(group@ == pruned(all[i as int], id));
                kept.push(group);
                assert(groups_view(kept@) =~= before.push(pruned(all[i as int], id)));
            }
            i += 1;
        }
        self.root.children = copy_without_group(&self.root.children, id);
        self.groups = kept;
        Ok(())
    }
}

/// The root is always there: the id 0 resolves in every tree, and to the
/// root.
pub proof fn lemma_root_resolves(tree: GroupTreeView)
    ensures
        resolves(tree, 0),
        group_of(tree, 0) == Some(tree.root),
{
}

/// The root cannot be removed from any tree.
pub proof fn lemma_root_stays(tree: GroupTreeView)
    ensures
        remove_group_outcome(tree, 0) == Err::<GroupTreeView, ConfigError>(
            ConfigError::RootNotRemovable,
        ),
{
}

} // verus!
