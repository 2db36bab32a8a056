use des::common::path::{ObjectPath, ObjectPathParseError};

#[test]
fn parse_errors() {
    assert_eq!(ObjectPath::new(String::new()).unwrap_err(), ObjectPathParseError::EmptyPath);
    assert_eq!(
        ObjectPath::new(String::from("Main/.Module")).unwrap_err(),
        ObjectPathParseError::EmptyPathElement
    );
    assert_eq!(
        ObjectPath::new(String::from("Main.Subsystem/Subsystem.Module")).unwrap_err(),
        ObjectPathParseError::UnorderedPath
    );
}

#[test]
fn parse_kinds_and_names() {
    let module = ObjectPath::new(String::from("net/router.eth0")).unwrap();
    assert!(module.is_module());
    assert!(!module.is_subsystem());
    assert_eq!(module.name(), "eth0");
    assert_eq!(module.path(), "net/router.eth0");
    assert_eq!(module.parent_path(), "net/router");

    let subsystem = ObjectPath::new(String::from("net/lan")).unwrap();
    assert!(subsystem.is_subsystem());
    assert_eq!(subsystem.name(), "lan");
}

#[test]
fn children_and_parents() {
    let root = ObjectPath::root_module(String::from("host"));
    assert!(root.is_module());
    assert_eq!(root.path(), "host");
    assert!(root.parent().is_none());

    let child = ObjectPath::module_with_parent("nic", &root);
    assert_eq!(child.path(), "host.nic");
    assert_eq!(child.name(), "nic");
    assert!(child.parent().unwrap().equals(&root));
    assert_eq!(child.parent().unwrap(), root);

    let sys = ObjectPath::root_subsystem(String::from("net"));
    assert!(sys.is_subsystem());
    assert!(sys.parent().is_none());
    let sub = ObjectPath::subsystem_with_parent("lan", &sys);
    assert_eq!(sub.path(), "net/lan");
    assert_eq!(sub.parent().unwrap(), sys);

    let chan = ObjectPath::channel_with("link", &child);
    assert!(chan.is_channel());
    assert_eq!(chan.name(), "link");
    assert_eq!(chan.parent_path(), "host.nic");
}

#[test]
fn parents_of_nested_paths() {
    let path = ObjectPath::new(String::from("MainNet/SubNet.Module.Submodule")).unwrap();
    let p1 = path.parent().unwrap();
    assert_eq!(p1, ObjectPath::new(String::from("MainNet/SubNet.Module")).unwrap());
    let p2 = p1.parent().unwrap();
    assert_eq!(p2, ObjectPath::new(String::from("MainNet/SubNet")).unwrap());
    let p3 = p2.parent().unwrap();
    assert_eq!(p3, ObjectPath::new(String::from("MainNet")).unwrap());
    assert!(p3.parent().is_none());

    let abc = ObjectPath::new(String::from("A/B/C")).unwrap();
    let ab = abc.parent().unwrap();
    assert_eq!(ab.name(), "B");
    assert_eq!(ab, ObjectPath::new(String::from("A/B")).unwrap());
    assert!(ab.is_subsystem());
}

#[test]
fn parents_of_channel_paths() {
    let chan = ObjectPath::new(String::from("net/router.eth0#link")).unwrap();
    assert!(chan.is_channel());
    assert_eq!(chan.name(), "link");
    let owner = chan.parent().unwrap();
    assert_eq!(owner, ObjectPath::new(String::from("net/router.eth0")).unwrap());
    assert!(owner.is_module());

    let on_subsystem = ObjectPath::new(String::from("net/lan#wire")).unwrap();
    let lan = on_subsystem.parent().unwrap();
    assert_eq!(lan, ObjectPath::new(String::from("net/lan")).unwrap());
    assert!(lan.is_subsystem());
}
