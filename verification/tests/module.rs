use des::common::par::Parameters;
use des::common::path::ObjectPath;
use des::gate::{gate_kind, GateKind};
use des::module::ctx::{Stereotyp, UnwindBehaviour};
use des::module::func::{par, pars};
use des::module::unwind;
use des::module::{ModuleId, ModuleIdCounter};
use des::ndl::{ConnectionEndpoint, ConnectionEndpointAccessor, Span, Symbol};

#[test]
fn module_ids_count_up_and_wrap() {
    let mut counter = ModuleIdCounter::new();
    assert_eq!(ModuleId::gen(&mut counter), ModuleId(0xff));
    assert_eq!(ModuleId::gen(&mut counter), ModuleId(0x100));
    counter.next = u16::MAX;
    assert_eq!(ModuleId::gen(&mut counter), ModuleId(u16::MAX));
    assert_eq!(ModuleId::gen(&mut counter), ModuleId(0));
    assert_eq!(ModuleId::null(), ModuleId(0));
}

#[test]
fn module_ids_differ_within_a_round() {
    let mut counter = ModuleIdCounter { next: 7 };
    let first = ModuleId::gen(&mut counter);
    for _ in 0..u16::MAX {
        assert_ne!(ModuleId::gen(&mut counter), first);
    }
    assert_eq!(ModuleId::gen(&mut counter), first);
}

#[test]
fn behaviours() {
    assert_eq!(Stereotyp::default(), Stereotyp::host());
    assert!(Stereotyp::host().on_panic_restart);
    assert!(!Stereotyp::host().on_panic_catch);
    assert!(Stereotyp::subprocess().on_panic_inform_parent);
    assert_eq!(UnwindBehaviour::default(), UnwindBehaviour::host());
    assert!(UnwindBehaviour::subprocess().on_panic_catch);
    assert!(!UnwindBehaviour::subprocess().on_panic_restart);
    assert_eq!(unwind::UnwindBehaviour::default(), unwind::UnwindBehaviour::Catch);
}

#[test]
fn gate_kinds() {
    assert_eq!(gate_kind(0), GateKind::Standalone);
    assert_eq!(gate_kind(1), GateKind::Endpoint);
    assert_eq!(gate_kind(2), GateKind::Transit);
}

#[test]
fn accessor_names() {
    let plain = ConnectionEndpointAccessor { name: String::from("port"), index: None };
    assert_eq!(plain.as_name(), "port");
    let indexed = ConnectionEndpointAccessor { name: String::from("port"), index: Some(10) };
    assert_eq!(indexed.as_name(), "port[10]");
    let zero = ConnectionEndpointAccessor { name: String::from("in"), index: Some(0) };
    assert_eq!(zero.as_name(), "in[0]");
    let endpoint = ConnectionEndpoint { accessors: vec![plain, indexed] };
    assert_eq!(endpoint.accessors.len(), 2);
    let sym = Symbol::from(&String::from("Router"));
    assert_eq!(sym.as_str(), "Router");
    assert_eq!(Span::default().connection, None);
}

#[test]
fn module_parameters() {
    let mut params = Parameters::new();
    params.build("net/router.addr = 10.0.0.1\nnet/router.mtu = 1500\nnet/host.addr = 10.0.0.2");
    let router = ObjectPath::new(String::from("net/router")).unwrap();
    let table = pars(&params, &router);
    assert_eq!(table.len(), 2);
    assert_eq!(table.get("addr").map(|s| s.as_str()), Some("10.0.0.1"));
    assert_eq!(table.get("mtu").map(|s| s.as_str()), Some("1500"));
    let handle = par(&params, &router, "mtu");
    assert_eq!(handle.as_optional(&params), Some(String::from("1500")));
}
