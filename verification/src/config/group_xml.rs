//! The tree of groups as XML: one `servergroup` element for each group,
//! its child groups nested in it, then one `connection` element for each
//! connection it holds.

use vstd::prelude::*;
use crate::config::connection_xml::{number_of, text_or};
use crate::config::group_laws::{
    at_place, lemma_add_reference_keeps_wf, lemma_insert_keeps_wf, lemma_new_tree_wf,
    lemma_rename_keeps_wf, named_at, stands_behind, tree_wf,
};
use crate::config::server_group::{
    add_reference_outcome, groups_view, insert_group_outcome, lemma_place_of_group, new_tree,
    place_of_group, GroupTreeView, ServerGroup, ServerGroupChild, ServerGroupManager,
    ServerGroupView,
};
use crate::config::xml::{
    document_text, nodes_view, parsed, read_document, schema, schemas_view,
    write_document, TagSchema, TagSchemaView, XmlAttributeView, XmlElement, XmlElementView,
    XmlNode, XmlNodeView,
};
use crate::error::ConfigError;
use crate::text::{decimal_text, format_integer, parse_integer, text_eq};

verus! {

/// The `servergroup` element of a group: its name and its id.
pub open spec fn group_element(group: ServerGroupView) -> XmlElementView {
    XmlElementView {
        name: "servergroup"@,
        attributes: seq![
            XmlAttributeView { key: "name"@, value: group.name },
            XmlAttributeView { key: "id"@, value: decimal_text(group.id as int) },
        ],
    }
}

/// The `connection` element of a connection that a group holds.
pub open spec fn reference_element(id: i64) -> XmlElementView {
    XmlElementView {
        name: "connection"@,
        attributes: seq![XmlAttributeView { key: "id"@, value: decimal_text(id as int) }],
    }
}

/// One `connection` element for each connection among the children, in
/// their order.
pub open spec fn reference_nodes(children: Seq<ServerGroupChild>) -> Seq<XmlNodeView>
    decreases children.len(),
{
    if children.len() == 0 {
        Seq::empty()
    } else {
        match children.last() {
            ServerGroupChild::Connection(id) => reference_nodes(children.drop_last()).push(
                XmlNodeView::Empty(reference_element(id)),
            ),
            ServerGroupChild::Group(_) => reference_nodes(children.drop_last()),
        }
    }
}

/// The pieces of a group that stands at `place`, where the root has place
/// 0 and the group at index `j` of the list has place `j + 1`: its opening
/// tag, its child groups, its connections, its closing tag. `None` where
/// a child group does not exist or does not stand behind its parent.
pub open spec fn group_nodes(groups: Seq<ServerGroupView>, group: ServerGroupView, place: int)
    -> Option<Seq<XmlNodeView>>
    decreases groups.len() - place, group.children.len() + 1,
{
    match subgroup_nodes(groups, group.children, place, 0) {
        None => None,
        Some(inner) => Some(
            seq![XmlNodeView::Start(group_element(group))] + inner + reference_nodes(
                group.children,
            ) + seq![XmlNodeView::End("servergroup"@)],
        ),
    }
}

/// The pieces of the child groups from the child at `from` on.
pub open spec fn subgroup_nodes(
    groups: Seq<ServerGroupView>,
    children: Seq<ServerGroupChild>,
    place: int,
    from: int,
) -> Option<Seq<XmlNodeView>>
    decreases groups.len() - place, children.len() - from,
{
    if from < 0 || from >= children.len() {
        Some(Seq::empty())
    } else {
        match children[from] {
            ServerGroupChild::Connection(_) => subgroup_nodes(groups, children, place, from + 1),
            ServerGroupChild::Group(id) => {
                let at = place_of_group(groups, id);
                if at < 0 || at >= groups.len() || at + 1 <= place {
                    None
                } else {
                    match group_nodes(groups, groups[at], at + 1) {
                        None => None,
                        Some(first) => match subgroup_nodes(groups, children, place, from + 1) {
                            None => None,
                            Some(rest) => Some(first + rest),
                        },
                    }
                }
            },
        }
    }
}

/// The groups file in pieces: the root element `servergroups` around the
/// root group. `None` where the tree is out of order.
pub open spec fn tree_nodes(tree: GroupTreeView) -> Option<Seq<XmlNodeView>> {
    match group_nodes(tree.groups, tree.root, 0) {
        None => None,
        Some(inner) => Some(
            seq![
                XmlNodeView::Start(
                    XmlElementView { name: "servergroups"@, attributes: Seq::empty() },
                ),
            ] + inner + seq![XmlNodeView::End("servergroups"@)],
        ),
    }
}

/// The `servergroup` element of a group.
pub fn group_to_element(group: &ServerGroup) -> (element: XmlElement)
    ensures
        element@ == group_element(group@),
{
    let mut element = XmlElement::new("servergroup");
    element.push("name", group.name.as_str());
    element.push("id", format_integer(group.id).as_str());
    assert(element@.attributes =~= group_element(group@).attributes);
    element
}

/// Appends one `connection` element for each connection among the
/// children.
fn push_references(nodes: &mut Vec<XmlNode>, children: &Vec<ServerGroupChild>)
    ensures
        nodes_view(final(nodes)@) == nodes_view(old(nodes)@) + reference_nodes(children@),
{
    let ghost before = nodes_view(nodes@);
    let mut i: usize = 0;
    assert(children@.take(0) =~= Seq::empty());
    assert(before + reference_nodes(children@.take(0)) =~= before);
    while i < children.len()
        invariant
            i <= children@.len(),
            nodes_view(nodes@) == before + reference_nodes(children@.take(i as int)),
        decreases children@.len() - i,
    {
        assert(children@.take(i + 1).drop_last() =~= children@.take(i as int));
        let ghost so_far = nodes_view(nodes@);
        match children[i] {
            ServerGroupChild::Connection(id) => {
                let mut element = XmlElement::new("connection");
                element.push("id", format_integer(id).as_str());
                assert(element@.attributes =~= reference_element(id).attributes);
                nodes.push(XmlNode::Empty(element));
                assert(nodes_view(nodes@) =~= so_far.push(
                    XmlNodeView::Empty(reference_element(id)),
                ));
                assert(nodes_view(nodes@) =~= before + reference_nodes(children@.take(i + 1)));
            },
            ServerGroupChild::Group(_) => {},
        }
        i += 1;
    }
    assert(children@.take(i as int) =~= children@);
}

/// Appends the pieces of a group that stands at `place`. Where the tree is
/// out of order beneath the group the answer is `false`, and what was
/// appended is of no use.
fn write_group(
    nodes: &mut Vec<XmlNode>,
    groups: &[ServerGroup],
    group: &ServerGroup,
    place: usize,
) -> (ok: bool)
    requires
        place <= groups@.len(),
    ensures
        match group_nodes(groups_view(groups@), group@, place as int) {
            Some(added) => ok && nodes_view(final(nodes)@) == nodes_view(old(nodes)@) + added,
            None => !ok,
        },
    decreases groups@.len() - place, group@.children.len() + 1,
{
    let ghost all = groups_view(groups@);
    let ghost before = nodes_view(nodes@);
    let ghost children = group@.children;
    nodes.push(XmlNode::Start(group_to_element(group)));
    let ghost head = nodes_view(nodes@);
    assert(head =~= before + seq![XmlNodeView::Start(group_element(group@))]);
    let ghost mut inner: Seq<XmlNodeView> = Seq::empty();
    assert(head + inner =~= head);
    assert(inner + Seq::<XmlNodeView>::empty() =~= inner);
    let mut i: usize = 0;
    while i < group.children.len()
        invariant
            place <= groups@.len(),
            all == groups_view(groups@),
            children == group@.children,
            i <= children.len(),
            nodes_view(nodes@) == head + inner,
            subgroup_nodes(all, children, place as int, 0) == (match subgroup_nodes(
                all,
                children,
                place as int,
                i as int,
            ) {
                Some(rest) => Some(inner + rest),
                None => None,
            }),
        decreases children.len() - i,
    {
        match group.children[i] {
            ServerGroupChild::Connection(_) => {},
            ServerGroupChild::Group(id) => {
                proof {
                    lemma_place_of_group(all, id);
                }
                let at = position_in(groups, id);
                if at >= groups.len() || at + 1 <= place {
                    return false;
                }
                let ghost so_far = nodes_view(nodes@);
                assert(all[at as int] == groups@[at as int]@);
                if !write_group(nodes, groups, &groups[at], at + 1) {
                    return false;
                }
                proof {
                    let first = group_nodes(all, all[at as int], at + 1)->0;
                    match subgroup_nodes(all, children, place as int, i + 1) {
                        Some(rest) => {
                            assert(inner + (first + rest) =~= (inner + first) + rest);
                        },
                        None => {},
                    }
                    assert(nodes_view(nodes@) =~= head + (inner + first));
                    inner = inner + first;
                }
            },
        }
        i += 1;
    }
    assert(inner + Seq::<XmlNodeView>::empty() =~= inner);
    let ghost filled = nodes_view(nodes@);
    push_references(nodes, &group.children);
    let ghost listed = nodes_view(nodes@);
    nodes.push(XmlNode::End("servergroup".to_owned()));
    assert(nodes_view(nodes@) =~= listed.push(XmlNodeView::End("servergroup"@)));
    assert(nodes_view(nodes@) =~= before + (seq![XmlNodeView::Start(group_element(group@))]
        + inner + reference_nodes(children) + seq![XmlNodeView::End("servergroup"@)]));
    true
}

/// The place of the first group with the given id.
fn position_in(groups: &[ServerGroup], id: i64) -> (at: usize)
    ensures
        at == place_of_group(groups_view(groups@), id),
        at <= groups@.len(),
{
    let ghost all = groups_view(groups@);
    let mut i: usize = 0;
    assert(all.skip(0) =~= all);
    while i < groups.len()
        invariant
            i <= groups@.len(),
            all == groups_view(groups@),
            place_of_group(all, id) == i + place_of_group(all.skip(i as int), id),
        decreases groups@.len() - i,
    {
        let ghost rest = all.skip(i as int);
        assert(rest[0] == groups@[i as int]@);
        assert(rest.drop_first() =~= all.skip(i + 1));
        if groups[i].id == id {
            return i;
        }
        i += 1;
    }
    assert(all.skip(i as int) =~= Seq::empty());
    i
}

/// Where the reading of a groups file stands: the tree so far, the ids of
/// the groups that are open, the innermost last, whether the root was met,
/// and how many groups that are passed over are open.
pub struct TreeLoadView {
    pub tree: GroupTreeView,
    pub open: Seq<i64>,
    pub seen_root: bool,
    pub skipped: nat,
}

/// The state before anything is read.
pub open spec fn initial_load() -> TreeLoadView {
    TreeLoadView { tree: new_tree(), open: Seq::empty(), seen_root: false, skipped: 0 }
}

/// The state after the opening tag of a group. A group without a number
/// for its id is passed over with all that it holds. The first group of a
/// file must have the id 0 and is the root, which takes its name; a file
/// has no other group beside it. Any other group is put under the
/// innermost open group.
pub open spec fn open_group(state: TreeLoadView, element: XmlElementView) -> Result<
    TreeLoadView,
    ConfigError,
> {
    let name = text_or(element.attributes, "name"@, Seq::empty());
    if state.skipped > 0 {
        Ok(TreeLoadView { skipped: state.skipped + 1, ..state })
    } else {
        match number_of(element.attributes, "id"@) {
            None => Ok(TreeLoadView { skipped: 1, ..state }),
            Some(id) => if state.open.len() == 0 {
                if id == 0 && !state.seen_root {
                    Ok(
                        TreeLoadView {
                            tree: GroupTreeView {
                                root: ServerGroupView { name, ..state.tree.root },
                                ..state.tree
                            },
                            open: seq![0i64],
                            seen_root: true,
                            skipped: 0,
                        },
                    )
                } else {
                    Err(ConfigError::MalformedTree)
                }
            } else {
                match insert_group_outcome(state.tree, state.open.last(), id, name) {
                    Err(e) => Err(e),
                    Ok(tree) => Ok(TreeLoadView { tree, open: state.open.push(id), ..state }),
                }
            },
        }
    }
}

/// The state after a `connection` element: the connection is put under the
/// innermost open group. It is passed over where no group is open, in a
/// group that is passed over, and where its id is no number.
pub open spec fn take_reference(state: TreeLoadView, element: XmlElementView) -> Result<
    TreeLoadView,
    ConfigError,
> {
    match number_of(element.attributes, "id"@) {
        None => Ok(state),
        Some(id) => if state.open.len() == 0 || state.skipped > 0 {
            Ok(state)
        } else {
            match add_reference_outcome(state.tree, state.open.last(), id) {
                Err(e) => Err(e),
                Ok(tree) => Ok(TreeLoadView { tree, ..state }),
            }
        },
    }
}

/// The state after an opening tag.
pub open spec fn open_tree_tag(state: TreeLoadView, element: XmlElementView) -> Result<
    TreeLoadView,
    ConfigError,
> {
    if element.name == "servergroup"@ {
        open_group(state, element)
    } else if element.name == "connection"@ {
        take_reference(state, element)
    } else {
        Ok(state)
    }
}

/// The state after a closing tag: that of a group closes the innermost
/// group that is passed over, or the innermost open group where none is
/// passed over.
pub open spec fn close_tree_tag(state: TreeLoadView, name: Seq<char>) -> TreeLoadView {
    if name == "servergroup"@ && state.skipped > 0 {
        TreeLoadView { skipped: (state.skipped - 1) as nat, ..state }
    } else if name == "servergroup"@ && state.open.len() > 0 {
        TreeLoadView { open: state.open.drop_last(), ..state }
    } else {
        state
    }
}

/// The state after one piece of the file. An element without content
/// counts as its opening tag and then its closing tag.
pub open spec fn tree_step(state: TreeLoadView, node: XmlNodeView) -> Result<
    TreeLoadView,
    ConfigError,
> {
    match node {
        XmlNodeView::Start(element) => open_tree_tag(state, element),
        XmlNodeView::Empty(element) => match open_tree_tag(state, element) {
            Err(e) => Err(e),
            Ok(opened) => Ok(close_tree_tag(opened, element.name)),
        },
        XmlNodeView::End(name) => Ok(close_tree_tag(state, name)),
    }
}

/// The state after the given pieces, or the first refusal.
pub open spec fn tree_run(state: TreeLoadView, nodes: Seq<XmlNodeView>) -> Result<
    TreeLoadView,
    ConfigError,
>
    decreases nodes.len(),
{
    if nodes.len() == 0 {
        Ok(state)
    } else {
        match tree_run(state, nodes.drop_last()) {
            Err(e) => Err(e),
            Ok(before) => tree_step(before, nodes.last()),
        }
    }
}

/// The tree that the pieces of a groups file describe, or the first
/// refusal.
pub open spec fn tree_of(nodes: Seq<XmlNodeView>) -> Result<GroupTreeView, ConfigError> {
    match tree_run(initial_load(), nodes) {
        Err(e) => Err(e),
        Ok(state) => Ok(state.tree),
    }
}

/// Once the reading is refused on some of the pieces it is refused on all.
pub proof fn lemma_tree_run_fails(state: TreeLoadView, nodes: Seq<XmlNodeView>, upto: int)
    requires
        0 <= upto <= nodes.len(),
        tree_run(state, nodes.take(upto)) is Err,
    ensures
        tree_run(state, nodes) == tree_run(state, nodes.take(upto)),
    decreases nodes.len() - upto,
{
    if upto < nodes.len() {
        assert(nodes.take(upto + 1).drop_last() =~= nodes.take(upto));
        lemma_tree_run_fails(state, nodes, upto + 1);
    } else {
        assert(nodes.take(upto) =~= nodes);
    }
}

/// The reading of a groups file.
pub struct TreeLoad {
    pub tree: ServerGroupManager,
    pub open: Vec<i64>,
    pub seen_root: bool,
    pub skipped: usize,
}

impl View for TreeLoad {
    type V = TreeLoadView;

    open spec fn view(&self) -> TreeLoadView {
        TreeLoadView {
            tree: self.tree@,
            open: self.open@,
            seen_root: self.seen_root,
            skipped: self.skipped as nat,
        }
    }
}

/// Reads the id of an element.
fn read_id(element: &XmlElement) -> (r: Option<i64>)
    ensures
        r == number_of(element@.attributes, "id"@),
{
    match element.get("id") {
        Some(text) => parse_integer(text.as_str(), i64::MIN, i64::MAX),
        None => None,
    }
}

impl TreeLoad {
    /// The state before anything is read.
    pub fn new() -> (r: Self)
        ensures
            r@ == initial_load(),
    {
        TreeLoad {
            tree: ServerGroupManager::new(),
            open: Vec::new(),
            seen_root: false,
            skipped: 0,
        }
    }

    /// Takes an opening tag in. A refusal leaves the state as it is.
    pub fn open_tag(&mut self, element: &XmlElement) -> (r: Result<(), ConfigError>)
        requires
            old(self).skipped < usize::MAX,
        ensures
            match open_tree_tag(old(self)@, element@) {
                Ok(state) => r is Ok && final(self)@ == state,
                Err(e) => r == Err::<(), ConfigError>(e) && final(self)@ == old(self)@,
            },
    {
        if text_eq(element.name.as_str(), "servergroup") {
            if self.skipped > 0 {
                self.skipped = self.skipped + 1;
                return Ok(());
            }
            let id = match read_id(element) {
                Some(id) => id,
                None => {
                    self.skipped = 1;
                    return Ok(());
                },
            };
            let name = match element.get("name") {
                Some(name) => name.clone(),
                None => String::new(),
            };
            if self.open.len() == 0 {
                if id == 0 && !self.seen_root {
                    self.tree.rename_root(name);
                    self.open.push(0);
                    self.seen_root = true;
                    assert(self@.open =~= seq![0i64]);
                    Ok(())
                } else {
                    Err(ConfigError::MalformedTree)
                }
            } else {
                let parent = self.open[self.open.len() - 1];
                match self.tree.insert_group(parent, id, name) {
                    Err(e) => Err(e),
                    Ok(()) => {
                        self.open.push(id);
                        Ok(())
                    },
                }
            }
        } else if text_eq(element.name.as_str(), "connection") {
            let id = match read_id(element) {
                Some(id) => id,
                None => {
                    return Ok(());
                },
            };
            if self.open.len() == 0 || self.skipped > 0 {
                Ok(())
            } else {
                let parent = self.open[self.open.len() - 1];
                self.tree.add_connection_ref(parent, id)
            }
        } else {
            Ok(())
        }
    }

    /// Takes a closing tag in.
    pub fn close_tag(&mut self, name: &str)
        ensures
            final(self)@ == close_tree_tag(old(self)@, name@),
    {
        if text_eq(name, "servergroup") {
            if self.skipped > 0 {
                self.skipped = self.skipped - 1;
            } else if self.open.len() > 0 {
                self.open.pop();
            }
        }
    }

    /// Takes one piece of the file in.
    pub fn step(&mut self, node: &XmlNode) -> (r: Result<(), ConfigError>)
        requires
            old(self).skipped < usize::MAX,
        ensures
            match tree_step(old(self)@, node@) {
                Ok(state) => r is Ok && final(self)@ == state,
                Err(e) => r == Err::<(), ConfigError>(e),
            },
    {
        match node {
            XmlNode::Start(element) => self.open_tag(element),
            XmlNode::Empty(element) => match self.open_tag(element) {
                Err(e) => Err(e),
                Ok(()) => {
                    self.close_tag(element.name.as_str());
                    Ok(())
                },
            },
            XmlNode::End(name) => {
                self.close_tag(name.as_str());
                Ok(())
            },
        }
    }
}

/// No more groups are open and passed over than pieces were read.
pub proof fn lemma_skipped_bound(state: TreeLoadView, node: XmlNodeView)
    requires
        tree_step(state, node) is Ok,
    ensures
        tree_step(state, node)->Ok_0.skipped <= state.skipped + 1,
{
}

/// The tree that the pieces of a groups file describe.
pub fn tree_from_nodes(nodes: &Vec<XmlNode>) -> (r: Result<ServerGroupManager, ConfigError>)
    ensures
        match r {
            Ok(tree) => tree_of(nodes_view(nodes@)) == Ok::<GroupTreeView, ConfigError>(tree@)
                && tree.wf(),
            Err(e) => tree_of(nodes_view(nodes@)) == Err::<GroupTreeView, ConfigError>(e),
        },
{
    let ghost all = nodes_view(nodes@);
    let mut state = TreeLoad::new();
    assert(all.take(0) =~= Seq::empty());
    let mut i: usize = 0;
    while i < nodes.len()
        invariant
            i <= nodes@.len(),
            all == nodes_view(nodes@),
            tree_run(initial_load(), all.take(i as int)) == Ok::<TreeLoadView, ConfigError>(
                state@,
            ),
            state.skipped <= i,
        decreases nodes@.len() - i,
    {
        proof {
            assert(all.take(i + 1).drop_last() =~= all.take(i as int));
            assert(all.take(i + 1).last() == nodes@[i as int]@);
            if tree_step(state@, nodes@[i as int]@) is Ok {
                lemma_skipped_bound(state@, nodes@[i as int]@);
            }
        }
        match state.step(&nodes[i]) {
            Err(e) => {
                proof {
                    lemma_tree_run_fails(initial_load(), all, i + 1);
                }
                return Err(e);
            },
            Ok(()) => {},
        }
        i += 1;
    }
    assert(all.take(i as int) =~= all);
    proof {
        lemma_tree_of_wf(all);
    }
    Ok(state.tree)
}

/// The schema of the groups file as a value.
pub open spec fn group_schema_view() -> Seq<TagSchemaView> {
    seq![
        TagSchemaView { name: "servergroup"@, keys: seq!["name"@, "id"@] },
        TagSchemaView { name: "connection"@, keys: seq!["id"@] },
    ]
}

/// The schema of the groups file: the elements `servergroup` and
/// `connection` with their attributes.
pub fn group_schema() -> (r: Vec<TagSchema>)
    ensures
        schemas_view(r@) == group_schema_view(),
{
    let mut keys: Vec<String> = Vec::new();
    keys.push("name".to_owned());
    keys.push("id".to_owned());
    let group = schema("servergroup", keys);
    assert(group@.keys =~= group_schema_view()[0].keys);
    let mut keys: Vec<String> = Vec::new();
    keys.push("id".to_owned());
    let reference = schema("connection", keys);
    assert(reference@.keys =~= group_schema_view()[1].keys);
    let mut r: Vec<TagSchema> = Vec::new();
    r.push(group);
    r.push(reference);
    assert(schemas_view(r@) =~= group_schema_view());
    r
}

impl ServerGroupManager {
    /// The groups file in pieces. A tree in which a group names a child
    /// group that does not exist or does not stand behind it is refused.
    pub fn to_nodes(&self) -> (r: Result<Vec<XmlNode>, ConfigError>)
        ensures
            self.wf() ==> r is Ok,
            match tree_nodes(self@) {
                Some(nodes) => r is Ok && nodes_view(r->Ok_0@) == nodes,
                None => r == Err::<Vec<XmlNode>, ConfigError>(ConfigError::MalformedTree),
            },
    {
        proof {
            if self.wf() {
                lemma_tree_written(self@);
            }
        }
        let mut nodes: Vec<XmlNode> = Vec::new();
        nodes.push(XmlNode::Start(XmlElement::new("servergroups")));
        let ghost head = nodes_view(nodes@);
        assert(head =~= seq![
            XmlNodeView::Start(XmlElementView { name: "servergroups"@, attributes: Seq::empty() }),
        ]);
        if !write_group(&mut nodes, self.get_groups(), self.get_root(), 0) {
            return Err(ConfigError::MalformedTree);
        }
        let ghost filled = nodes_view(nodes@);
        nodes.push(XmlNode::End("servergroups".to_owned()));
        assert(nodes_view(nodes@) =~= filled.push(XmlNodeView::End("servergroups"@)));
        assert(nodes_view(nodes@) =~= tree_nodes(self@)->0);
        Ok(nodes)
    }

    /// The groups file as text: each group with its child groups nested in
    /// it, then its connections.
    pub fn to_xml(&self) -> (r: Result<String, ConfigError>)
        ensures
            self.wf() ==> r is Ok,
            match tree_nodes(self@) {
                Some(nodes) => r is Ok && r->Ok_0@ == document_text(nodes),
                None => r == Err::<String, ConfigError>(ConfigError::MalformedTree),
            },
    {
        match self.to_nodes() {
            Err(e) => Err(e),
            Ok(nodes) => Ok(write_document(&nodes)),
        }
    }

    /// Puts the tree that the pieces of a groups file describe in the place
    /// of this one. A group or a connection without a number for its id is
    /// passed over. Where the pieces are refused, as they are for a file
    /// whose first group is not the root or in which two groups share an
    /// id, the tree stays as it is.
    pub fn from_nodes(&mut self, nodes: &Vec<XmlNode>) -> (r: Result<(), ConfigError>)
        ensures
            r is Ok || old(self).wf() ==> final(self).wf(),
            match tree_of(nodes_view(nodes@)) {
                Ok(tree) => r is Ok && final(self)@ == tree,
                Err(e) => r == Err::<(), ConfigError>(e) && final(self)@ == old(self)@,
            },
    {
        match tree_from_nodes(nodes) {
            Err(e) => Err(e),
            Ok(tree) => {
                *self = tree;
                Ok(())
            },
        }
    }

    /// Puts the tree that a groups file describes in the place of this one.
    /// A text that is not well-formed XML is refused, and so is one whose
    /// pieces are; the tree then stays as it is.
    pub fn from_xml(&mut self, xml: &str) -> (r: Result<(), ConfigError>)
        ensures
            r is Ok || old(self).wf() ==> final(self).wf(),
            match parsed(xml@, group_schema_view()) {
                None => r == Err::<(), ConfigError>(ConfigError::MalformedXml) && final(self)@
                    == old(self)@,
                Some(nodes) => match tree_of(nodes) {
                    Ok(tree) => r is Ok && final(self)@ == tree,
                    Err(e) => r == Err::<(), ConfigError>(e) && final(self)@ == old(self)@,
                },
            },
    {
        let schemas = group_schema();
        match read_document(xml, &schemas) {
            Err(e) => Err(e),
            Ok(nodes) => self.from_nodes(&nodes),
        }
    }
}

/// In a tree in order every group can be written with all that is beneath
/// it.
pub proof fn lemma_group_written(tree: GroupTreeView, place: int)
    requires
        tree_wf(tree),
        0 <= place <= tree.groups.len(),
    ensures
        group_nodes(tree.groups, at_place(tree, place), place) is Some,
    decreases tree.groups.len() - place, at_place(tree, place).children.len() + 1,
{
    lemma_subgroups_written(tree, place, 0);
}

/// In a tree in order the child groups of every group can be written.
pub proof fn lemma_subgroups_written(tree: GroupTreeView, place: int, from: int)
    requires
        tree_wf(tree),
        0 <= place <= tree.groups.len(),
        0 <= from,
    ensures
        subgroup_nodes(tree.groups, at_place(tree, place).children, place, from) is Some,
    decreases tree.groups.len() - place, at_place(tree, place).children.len() - from,
{
    let children = at_place(tree, place).children;
    if from < children.len() {
        match children[from] {
            ServerGroupChild::Connection(_) => {
                lemma_subgroups_written(tree, place, from + 1);
            },
            ServerGroupChild::Group(id) => {
                assert(children.contains(ServerGroupChild::Group(id)));
                assert(named_at(tree, place, id));
                assert(stands_behind(tree, place, id));
                let at = place_of_group(tree.groups, id);
                assert(at_place(tree, at + 1) == tree.groups[at]);
                lemma_group_written(tree, at + 1);
                lemma_subgroups_written(tree, place, from + 1);
            },
        }
    }
}

/// A tree in order can always be written to its file.
pub proof fn lemma_tree_written(tree: GroupTreeView)
    requires
        tree_wf(tree),
    ensures
        tree_nodes(tree) is Some,
{
    lemma_group_written(tree, 0);
}

/// Reading one piece of a groups file keeps the tree in order.
pub proof fn lemma_step_keeps_wf(state: TreeLoadView, node: XmlNodeView)
    requires
        tree_wf(state.tree),
        tree_step(state, node) is Ok,
    ensures
        tree_wf(tree_step(state, node)->Ok_0.tree),
{
    match node {
        XmlNodeView::Start(element) => {
            lemma_open_keeps_wf(state, element);
        },
        XmlNodeView::Empty(element) => {
            lemma_open_keeps_wf(state, element);
        },
        XmlNodeView::End(_) => {},
    }
}

/// Reading an opening tag of a groups file keeps the tree in order.
pub proof fn lemma_open_keeps_wf(state: TreeLoadView, element: XmlElementView)
    requires
        tree_wf(state.tree),
        open_tree_tag(state, element) is Ok,
    ensures
        tree_wf(open_tree_tag(state, element)->Ok_0.tree),
{
    let name = text_or(element.attributes, "name"@, Seq::empty());
    let read = number_of(element.attributes, "id"@);
    if element.name == "servergroup"@ {
        if state.skipped == 0 && read is Some {
            if state.open.len() == 0 {
                lemma_rename_keeps_wf(state.tree, name);
            } else {
                lemma_insert_keeps_wf(state.tree, state.open.last(), read->0, name);
            }
        }
    } else if element.name == "connection"@ {
        if state.skipped == 0 && read is Some && state.open.len() > 0 {
            lemma_add_reference_keeps_wf(state.tree, state.open.last(), read->0);
        }
    }
}

/// Reading the pieces of a groups file keeps the tree in order.
pub proof fn lemma_run_keeps_wf(state: TreeLoadView, nodes: Seq<XmlNodeView>)
    requires
        tree_wf(state.tree),
        tree_run(state, nodes) is Ok,
    ensures
        tree_wf(tree_run(state, nodes)->Ok_0.tree),
    decreases nodes.len(),
{
    if nodes.len() > 0 {
        lemma_run_keeps_wf(state, nodes.drop_last());
        lemma_step_keeps_wf(tree_run(state, nodes.drop_last())->Ok_0, nodes.last());
    }
}

/// Every tree that is read from a groups file is in order.
pub proof fn lemma_tree_of_wf(nodes: Seq<XmlNodeView>)
    requires
        tree_of(nodes) is Ok,
    ensures
        tree_wf(tree_of(nodes)->Ok_0),
{
    lemma_new_tree_wf();
    lemma_run_keeps_wf(initial_load(), nodes);
}

} // verus!
