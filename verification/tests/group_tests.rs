use offset_explorer::config::group_xml::{group_to_element, tree_from_nodes};
use offset_explorer::config::server_group::{ServerGroup, ServerGroupChild, ServerGroupManager};
use offset_explorer::config::xml::{XmlElement, XmlNode};
use offset_explorer::error::ConfigError;

fn children_of(tree: &ServerGroupManager, id: i64) -> Vec<ServerGroupChild> {
    tree.get_group(id).unwrap().children.clone()
}

#[test]
fn the_root_is_always_there() {
    let tree = ServerGroupManager::new();
    let root = tree.get_group(0).unwrap();
    assert_eq!(root.get_id(), 0);
    assert_eq!(root.get_name(), "Root");
    assert!(root.children.is_empty());
    assert_eq!(tree.get_root().get_id(), 0);
    assert!(tree.get_group(1).is_none());
    assert!(tree.has_group(0));
    assert!(!tree.has_group(1));
}

#[test]
fn the_root_cannot_be_removed() {
    let mut tree = ServerGroupManager::new();
    assert_eq!(tree.remove_group(0), Err(ConfigError::RootNotRemovable));
    tree.add_group(0, "a".to_string()).unwrap();
    assert_eq!(tree.remove_group(0), Err(ConfigError::RootNotRemovable));
    assert_eq!(tree.get_group(0).unwrap().children.len(), 1);
    // Even where the root was given another id it answers to 0 and stays.
    tree.get_root_mut().id = 9;
    assert_eq!(tree.get_group(0).unwrap().get_id(), 9);
    assert_eq!(tree.remove_group(0), Err(ConfigError::RootNotRemovable));
}

#[test]
fn groups_get_rising_ids_under_their_parents() {
    let mut tree = ServerGroupManager::new();
    assert_eq!(tree.add_group(0, "Team".to_string()), Ok(1));
    assert_eq!(tree.add_group(1, "Sub".to_string()), Ok(2));
    assert_eq!(tree.add_group(0, "Other".to_string()), Ok(3));
    assert_eq!(tree.add_group(7, "Lost".to_string()), Err(ConfigError::ParentNotFound));
    // A refused adding uses no id up.
    assert_eq!(tree.add_group(2, "Deep".to_string()), Ok(4));
    assert_eq!(children_of(&tree, 0), vec![ServerGroupChild::Group(1), ServerGroupChild::Group(3)]);
    assert_eq!(children_of(&tree, 1), vec![ServerGroupChild::Group(2)]);
    assert_eq!(children_of(&tree, 2), vec![ServerGroupChild::Group(4)]);
    assert_eq!(tree.get_group(2).unwrap().get_name(), "Sub");
    assert_eq!(tree.get_next_id(), 5);
    assert_eq!(tree.get_groups().len(), 4);
}

#[test]
fn groups_are_changed_in_place() {
    let mut tree = ServerGroupManager::new();
    let team = tree.add_group(0, "Team".to_string()).unwrap();
    tree.get_group_mut(team).unwrap().add_child(ServerGroupChild::Connection(42));
    tree.get_group_mut(team).unwrap().name = "Renamed".to_string();
    tree.get_root_mut().add_child(ServerGroupChild::Connection(7));
    tree.get_group_mut(0).unwrap().add_child(ServerGroupChild::Connection(8));
    assert!(tree.get_group_mut(99).is_none());
    assert_eq!(tree.get_group(team).unwrap().get_name(), "Renamed");
    assert_eq!(children_of(&tree, team), vec![ServerGroupChild::Connection(42)]);
    assert_eq!(
        children_of(&tree, 0),
        vec![ServerGroupChild::Group(team), ServerGroupChild::Connection(7), ServerGroupChild::Connection(8)]
    );
    assert_eq!(tree.add_connection_ref(team, 43), Ok(()));
    assert_eq!(tree.add_connection_ref(99, 43), Err(ConfigError::GroupNotFound));
    assert_eq!(children_of(&tree, team).len(), 2);
}

#[test]
fn children_are_removed_by_the_id_they_name() {
    let mut group = ServerGroup::new(5, "g".to_string());
    group.add_child(ServerGroupChild::Connection(1));
    group.add_child(ServerGroupChild::Group(2));
    group.add_child(ServerGroupChild::Connection(2));
    group.add_child(ServerGroupChild::Connection(3));
    assert!(group.has_group(2));
    assert!(!group.has_group(1));
    group.remove_child(2);
    assert_eq!(group.children, vec![ServerGroupChild::Connection(1), ServerGroupChild::Connection(3)]);
    group.remove_child(9);
    assert_eq!(group.children.len(), 2);
    assert_eq!((group.get_id(), group.get_name()), (5, "g"));
}

#[test]
fn removing_a_group_takes_all_beneath_it() {
    let mut tree = ServerGroupManager::new();
    let a = tree.add_group(0, "a".to_string()).unwrap();
    let b = tree.add_group(a, "b".to_string()).unwrap();
    let c = tree.add_group(b, "c".to_string()).unwrap();
    let d = tree.add_group(0, "d".to_string()).unwrap();
    let e = tree.add_group(d, "e".to_string()).unwrap();
    tree.add_connection_ref(b, 100).unwrap();
    tree.add_connection_ref(c, 101).unwrap();
    tree.add_connection_ref(d, 102).unwrap();
    assert_eq!(tree.remove_group(99), Err(ConfigError::GroupNotFound));
    assert_eq!(tree.get_groups().len(), 5);
    assert_eq!(tree.remove_group(a), Ok(()));
    assert!(tree.get_group(a).is_none());
    assert!(tree.get_group(b).is_none());
    assert!(tree.get_group(c).is_none());
    assert_eq!(children_of(&tree, 0), vec![ServerGroupChild::Group(d)]);
    assert_eq!(children_of(&tree, d), vec![ServerGroupChild::Group(e), ServerGroupChild::Connection(102)]);
    assert_eq!(tree.get_groups().iter().map(|g| g.get_id()).collect::<Vec<_>>(), vec![d, e]);
    assert_eq!(tree.remove_group(a), Err(ConfigError::GroupNotFound));
    assert_eq!(tree.remove_group(e), Ok(()));
    assert_eq!(children_of(&tree, d), vec![ServerGroupChild::Connection(102)]);
    // Ids of removed groups are not given again.
    assert_eq!(tree.add_group(0, "f".to_string()), Ok(6));
}

#[test]
fn a_tree_round_trips_through_its_file() {
    let mut tree = ServerGroupManager::new();
    let x = tree.add_group(0, "Team".to_string()).unwrap();
    tree.add_connection_ref(x, 42).unwrap();
    let xml = tree.to_xml().unwrap();
    let mut fresh = ServerGroupManager::new();
    assert_eq!(fresh.from_xml(&xml), Ok(()));
    let team = fresh.get_group(x).unwrap();
    assert_eq!(team.get_name(), "Team");
    assert_eq!(team.children, vec![ServerGroupChild::Connection(42)]);
    assert_eq!(fresh.to_xml().unwrap(), xml);
    assert_eq!(fresh.get_next_id(), x + 1);
}

#[test]
fn the_groups_file_nests_groups_before_connections() {
    let mut tree = ServerGroupManager::new();
    tree.add_connection_ref(0, 1).unwrap();
    let a = tree.add_group(0, "A & B".to_string()).unwrap();
    tree.add_connection_ref(a, 2).unwrap();
    let b = tree.add_group(a, "B".to_string()).unwrap();
    tree.add_connection_ref(b, -3).unwrap();
    tree.add_group(0, "C".to_string()).unwrap();
    assert_eq!(
        tree.to_xml().unwrap(),
        "<servergroups>\n  \
         <servergroup name=\"Root\" id=\"0\">\n    \
         <servergroup name=\"A &amp; B\" id=\"1\">\n      \
         <servergroup name=\"B\" id=\"2\">\n        \
         <connection id=\"-3\"/>\n      \
         </servergroup>\n      \
         <connection id=\"2\"/>\n    \
         </servergroup>\n    \
         <servergroup name=\"C\" id=\"3\">\n    \
         </servergroup>\n    \
         <connection id=\"1\"/>\n  \
         </servergroup>\n\
         </servergroups>"
    );
    assert_eq!(
        ServerGroupManager::new().to_xml().unwrap(),
        "<servergroups>\n  <servergroup name=\"Root\" id=\"0\">\n  </servergroup>\n</servergroups>"
    );
}

#[test]
fn a_tree_out_of_order_is_not_written() {
    let mut tree = ServerGroupManager::new();
    let a = tree.add_group(0, "a".to_string()).unwrap();
    tree.get_group_mut(a).unwrap().add_child(ServerGroupChild::Group(a));
    assert_eq!(tree.to_xml(), Err(ConfigError::MalformedTree));
    let mut dangling = ServerGroupManager::new();
    dangling.get_root_mut().add_child(ServerGroupChild::Group(5));
    assert_eq!(dangling.to_nodes().err(), Some(ConfigError::MalformedTree));
}

#[test]
fn a_groups_file_is_read_or_refused_whole() {
    let mut tree = ServerGroupManager::new();
    tree.add_group(0, "kept".to_string()).unwrap();
    let before = tree.to_xml().unwrap();
    let cases = [
        ("<servergroups><servergroup name=\"r\" id=\"1\"/></servergroups>", ConfigError::MalformedTree),
        ("<servergroups><servergroup name=\"r\" id=\"0\"/><servergroup name=\"s\" id=\"0\"/></servergroups>", ConfigError::MalformedTree),
        ("<servergroups><servergroup name=\"r\" id=\"0\"><servergroup name=\"a\" id=\"0\"/></servergroup></servergroups>", ConfigError::DuplicateId),
        ("<servergroups><servergroup name=\"r\" id=\"0\"><servergroup name=\"a\" id=\"4\"/><servergroup name=\"b\" id=\"4\"/></servergroup></servergroups>", ConfigError::DuplicateId),
        ("<servergroups><servergroup name=\"r\" id=\"0\"></servergroups>", ConfigError::MalformedXml),
    ];
    for (xml, error) in cases {
        assert_eq!(tree.from_xml(xml), Err(error), "{}", xml);
        assert_eq!(tree.to_xml().unwrap(), before);
    }
    let xml = "<servergroups>\
        <connection id=\"1\"/>\
        <servergroup id=\"0\">\
          <servergroup name=\"b\" id=\"7\"><connection id=\"5\"/><note/></servergroup>\
          <servergroup name=\"a\" id=\"3\"/>\
          <connection id=\"6\"/>\
        </servergroup>\
        </servergroups>";
    assert_eq!(tree.from_xml(xml), Ok(()));
    assert_eq!(tree.get_root().get_name(), "");
    assert_eq!(
        children_of(&tree, 0),
        vec![ServerGroupChild::Group(7), ServerGroupChild::Group(3), ServerGroupChild::Connection(6)]
    );
    assert_eq!(children_of(&tree, 7), vec![ServerGroupChild::Connection(5)]);
    assert!(tree.get_group(1).is_none());
    assert_eq!(tree.get_next_id(), 8);
    assert_eq!(tree.add_group(3, "new".to_string()), Ok(8));
    assert_eq!(tree.from_xml(""), Ok(()));
    assert_eq!(tree.get_groups().len(), 0);
    assert_eq!(tree.get_next_id(), 1);
}

#[test]
fn groups_are_put_in_under_given_ids() {
    let mut tree = ServerGroupManager::new();
    assert_eq!(tree.insert_group(0, 10, "ten".to_string()), Ok(()));
    assert_eq!(tree.insert_group(10, 4, "four".to_string()), Ok(()));
    assert_eq!(tree.insert_group(0, 10, "again".to_string()), Err(ConfigError::DuplicateId));
    assert_eq!(tree.insert_group(0, 0, "root".to_string()), Err(ConfigError::DuplicateId));
    assert_eq!(tree.insert_group(5, 6, "lost".to_string()), Err(ConfigError::ParentNotFound));
    assert_eq!(tree.get_next_id(), 11);
    assert_eq!(tree.insert_group(0, i64::MAX, "last".to_string()), Ok(()));
    assert_eq!(tree.add_group(0, "none left".to_string()), Err(ConfigError::IdsExhausted));
    tree.rename_root("Top".to_string());
    assert_eq!(tree.get_root().get_name(), "Top");
    let element = group_to_element(tree.get_group(4).unwrap());
    assert_eq!(element.get("name"), Some(&"four".to_string()));
    assert_eq!(element.get("id"), Some(&"4".to_string()));
    let mut root = XmlElement::new("servergroup");
    root.push("id", "0");
    root.push("name", "R");
    let mut child = XmlElement::new("connection");
    child.push("id", "12");
    let built = tree_from_nodes(&vec![
        XmlNode::Start(root),
        XmlNode::Empty(child),
        XmlNode::End("servergroup".to_string()),
    ])
    .unwrap();
    assert_eq!(built.get_root().get_name(), "R");
    assert_eq!(built.get_root().children, vec![ServerGroupChild::Connection(12)]);
}

#[test]
fn a_group_or_a_reference_without_a_number_is_passed_over() {
    let xml = "<servergroups>\
        <servergroup name=\"r\" id=\"0\">\
          <servergroup name=\"odd\" id=\"x\">\
            <connection id=\"1\"/>\
            <servergroup name=\"inside\" id=\"4\"><connection id=\"2\"/></servergroup>\
            <servergroup name=\"nameless inside\"/>\
          </servergroup>\
          <servergroup name=\"kept\" id=\"5\"><connection id=\"y\"/><connection id=\"3\"/></servergroup>\
          <servergroup name=\"lacking\"/>\
          <connection/>\
          <connection id=\"9\"/>\
        </servergroup>\
        </servergroups>";
    let mut tree = ServerGroupManager::new();
    assert_eq!(tree.from_xml(xml), Ok(()));
    assert_eq!(tree.get_root().get_name(), "r");
    assert_eq!(
        tree.get_root().children,
        vec![ServerGroupChild::Group(5), ServerGroupChild::Connection(9)]
    );
    assert!(tree.get_group(4).is_none());
    assert_eq!(tree.get_group(5).unwrap().children, vec![ServerGroupChild::Connection(3)]);
    assert_eq!(tree.get_groups().len(), 1);
}
