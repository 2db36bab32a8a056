use des::path::ObjectPath;

fn as_module(text: &str) -> ObjectPath {
    let p = ObjectPath::from(text);
    assert!(p.is_module());
    p
}

#[test]
fn manual_appending() {
    let path = ObjectPath::default()
        .appended("top")
        .appended("mid")
        .appended("low");

    assert_eq!(path.name(), "low");
    assert_eq!(path.as_parent_str(), "top.mid");
    assert_eq!(path, as_module("top.mid.low"));
    assert_eq!(path.as_str(), "top.mid.low");
    assert!(path.is_module());

    let path = ObjectPath::default().appended("top");
    assert_eq!(path.name(), "top");
    assert_eq!(path.as_parent_str(), "");
    assert_eq!(path, as_module("top"));
    assert_eq!(path.as_str(), "top");

    let path = ObjectPath::default();
    assert_eq!(path.name(), "");
    assert_eq!(path.as_parent_str(), "");
    assert!(path.is_root());
    assert_eq!(path, as_module(""));
    assert_eq!(path.as_str(), "");
}

#[test]
fn parent_creation() {
    let path = ObjectPath::default().appended("top").appended("mid");
    let parent = path.parent();
    assert_eq!(parent, Some(as_module("top")));
    assert_eq!(parent.unwrap().as_str(), "top");

    let path = ObjectPath::default()
        .appended("top")
        .appended("mid")
        .appended("low");

    let parent = path.parent();
    assert_eq!(parent, Some(as_module("top.mid")));
    assert_eq!(parent.unwrap().as_str(), "top.mid");

    let path = ObjectPath::default();
    let parent = path.parent();
    assert_eq!(parent, None);
}

#[test]
fn parsing() {
    assert_eq!(ObjectPath::from("top.mid").as_str(), "top.mid");
    assert!(ObjectPath::from("top.mid").is_module());

    assert_eq!(ObjectPath::from("top.mid.low").as_str(), "top.mid.low");
    assert!(ObjectPath::from("top.mid.low").is_module());

    assert_eq!(ObjectPath::from("top").as_str(), "top");
    assert!(ObjectPath::from("top").is_module());

    assert_eq!(ObjectPath::from("").as_str(), "");
    assert!(ObjectPath::from("").is_module());

    // emoji is a 4 byte character thus 7 + 4
    assert_eq!(ObjectPath::from("top.a😀b.low").as_str(), "top.a😀b.low");
    assert!(ObjectPath::from("top.a😀b.low").is_module());

    assert!(ObjectPath::default().is_root());
    assert!(ObjectPath::from(String::new()).is_module());
    assert_eq!(ObjectPath::from(&String::new()).as_logger_scope(), "@root");
    assert_eq!(ObjectPath::from("abc").as_logger_scope(), "abc");
    assert!(!ObjectPath::from("a").appended_gate("gate").is_module());
    assert!(ObjectPath::from("root.a.b.c").as_str().starts_with("root"));
}
