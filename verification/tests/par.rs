use des::common::par::Parameters;
use des::par::api::{par, par_export, par_for};
use des::par::yaml::{include_yaml, yaml_to_par_map, YamlValue};
use des::par::{Par, ParError, ParMap};
use des::path::ObjectPath;

#[test]
fn set_then_read() {
    let mut map = ParMap::new();
    assert!(par_for("addr", "alice").is_none(&map));
    let p = par_for("addr", "alice").set(&mut map, "192.168.2.110").unwrap();
    assert_eq!(p.into_inner(), "192.168.2.110");
    p.release(&mut map);
    assert!(par_for("addr", "alice").is_some(&map));
    let got = par_for("addr", "alice").unwrap(&mut map);
    assert_eq!(got.into_inner(), "192.168.2.110");
    got.release(&mut map);
    assert_eq!(map.peek("alice.addr"), Some(String::from("192.168.2.110")));
}

#[test]
fn unset_then_absent() {
    let mut map = ParMap::new();
    assert!(map.insert("alice.addr", String::from("x")));
    assert!(par_for("addr", "alice").is_some(&map));
    let p = par_for("addr", "alice").unset(&mut map);
    assert!(p.is_none(&map));
    assert_eq!(map.peek("alice.addr"), None);
}

#[test]
fn held_values_are_not_overwritten() {
    let mut map = ParMap::new();
    map.insert("a.b", String::from("1"));
    let held = par_for("b", "a").unwrap(&mut map);
    assert_eq!(
        par_for("b", "a").set(&mut map, "2").unwrap_err(),
        ParError::CouldNotAquireWriteLock
    );
    assert_eq!(map.peek("a.b"), Some(String::from("1")));
    held.release(&mut map);
    let p = par_for("b", "a").set(&mut map, "2").unwrap();
    assert_eq!(p.into_inner(), "2");
}

#[test]
fn wildcards_are_read_but_written_literally() {
    let mut map = ParMap::default();
    assert!(map.insert("*.port", String::from("80")));
    assert_eq!(map.peek("alice.port"), Some(String::from("80")));
    assert_eq!(map.peek("bob.port"), Some(String::from("80")));
    assert!(map.insert("alice.port", String::from("8080")));
    // the wildcard branch came first, so readers still find its value
    assert_eq!(map.peek("alice.port"), Some(String::from("80")));
    assert_eq!(map.peek("bob.port"), Some(String::from("80")));
}

#[test]
fn quoted_values_are_trimmed() {
    let mut map = ParMap::new();
    map.insert("n.s", String::from("\"hello\""));
    let p = par_for("s", "n").unwrap(&mut map);
    assert_eq!(p.into_inner(), "hello");
    p.release(&mut map);
    let p = par_for("s", "n").as_option(&mut map);
    assert_eq!(p, Some(String::from("\"hello\"")));
}

#[test]
fn handles_of_a_node() {
    let mut map = ParMap::new();
    let node = ObjectPath::from("net.router");
    let p = par("mtu", &node).set(&mut map, "1500").unwrap();
    p.release(&mut map);
    assert_eq!(map.peek("net.router.mtu"), Some(String::from("1500")));
}

#[test]
fn parameters_build_and_lookup() {
    let mut params = Parameters::default();
    params.build("a.b = 1\n*.c = 2\n a.d=\"x\" \nnot a line\n");
    assert_eq!(params.get_value("a", "b"), Some("1"));
    assert_eq!(params.get_value("a", "c"), Some("2"));
    assert_eq!(params.get_value("z", "c"), Some("2"));
    assert_eq!(params.get_value("a", "d"), Some("\"x\""));
    assert_eq!(params.get_value("a", "e"), None);

    let h = params.get_handle("a", "d");
    assert!(h.is_some(&params));
    let h = h.unwrap(&params);
    assert_eq!(h.parse_string(), "x");

    let missing = params.get_handle("a", "e");
    assert!(missing.is_none(&params));
    assert_eq!(missing.map(&params, |h| h.parse_string()), None);

    params.get_handle("a", "e").set(&mut params, "5");
    assert_eq!(params.get_value("a", "e"), Some("5"));
    assert_eq!(
        params.get_handle("a", "e").map(&params, |h| h.parse_string()),
        Some(String::from("5"))
    );
    assert_eq!(params.get_handle("a", "b").as_optional(&params), Some(String::from("1")));
}

#[test]
fn export_lists_every_entry() {
    let mut map = ParMap::new();
    map.insert("alice.addr", String::from("1.2.3.4"));
    map.insert("*.port", String::from("80"));
    map.insert("top", String::from("x"));
    let mut lines = par_export(&map);
    lines.sort();
    assert_eq!(lines, vec!["*.port: 80", ".top: x", "alice.addr: 1.2.3.4"]);
}

#[test]
fn export_writes_own_entries_before_branches() {
    let mut map = ParMap::new();
    map.insert("alice.addr", String::from("1.2.3.4"));
    map.insert("*.port", String::from("80"));
    map.insert("top", String::from("x"));
    let lines = par_export(&map);
    assert_eq!(lines, vec![".top: x", "alice.addr: 1.2.3.4", "*.port: 80"]);
}

#[test]
fn yaml_documents_flatten_to_dotted_keys() {
    let doc = vec![
        (
            String::from("alice"),
            YamlValue::Mapping(vec![
                (String::from("addr"), YamlValue::Str(String::from(" 10.0.0.1 "))),
                (String::from("up"), YamlValue::Bool(true)),
                (
                    String::from("nic"),
                    YamlValue::Mapping(vec![(String::from("mtu"), YamlValue::Number(String::from("1500")))]),
                ),
            ]),
        ),
        (String::from("empty"), YamlValue::Null),
    ];
    let pairs = yaml_to_par_map(&doc).unwrap();
    assert_eq!(pairs.len(), 4);
    assert_eq!(pairs.get("alice.addr").map(|s| s.as_str()), Some(" 10.0.0.1 "));
    assert_eq!(pairs.get("alice.up").map(|s| s.as_str()), Some("true"));
    assert_eq!(pairs.get("alice.nic.mtu").map(|s| s.as_str()), Some("1500"));
    assert_eq!(pairs.get("empty").map(|s| s.as_str()), Some(""));

    let mut map = ParMap::new();
    map.build(&pairs);
    assert_eq!(map.peek("alice.addr"), Some(String::from("10.0.0.1")));
    assert_eq!(map.peek("alice.nic.mtu"), Some(String::from("1500")));
    assert_eq!(map.peek("empty"), Some(String::new()));
}

#[test]
fn yaml_rejects_other_nodes() {
    let doc = vec![
        (String::from("a"), YamlValue::Bool(false)),
        (String::from("b"), YamlValue::Mapping(vec![(String::from("c"), YamlValue::Other(String::from("[1, 2]")))])),
    ];
    assert_eq!(yaml_to_par_map(&doc).unwrap_err(), "invalid symbol: [1, 2]");
}

#[test]
fn yaml_text_is_included() {
    let mut map = ParMap::new();
    let text = "alice:\n  addr: 10.0.0.1\n  nic:\n    mtu: 1500\n  up: true\nbob: ~\n";
    assert_eq!(include_yaml(&mut map, text), Ok(()));
    assert_eq!(map.peek("alice.addr"), Some(String::from("10.0.0.1")));
    assert_eq!(map.peek("alice.nic.mtu"), Some(String::from("1500")));
    assert_eq!(map.peek("alice.up"), Some(String::from("true")));
    assert_eq!(map.peek("bob"), Some(String::new()));
}

#[test]
fn yaml_text_errors_leave_the_store() {
    let mut map = ParMap::new();
    assert!(include_yaml(&mut map, "- 1\n- 2\n").is_err());
    assert_eq!(
        include_yaml(&mut map, "a: 1\nb: [1, 2]\n").unwrap_err().starts_with("invalid symbol: "),
        true
    );
    assert_eq!(map.peek("a"), None);
}

#[test]
fn removal_keeps_wildcard_values_readable() {
    let mut map = ParMap::new();
    map.insert("*.port", String::from("80"));
    map.insert("alice.port", String::from("8080"));
    map.remove("alice.port");
    assert_eq!(map.peek("alice.port"), Some(String::from("80")));
    map.remove("*.port");
    assert_eq!(map.peek("alice.port"), None);
}
