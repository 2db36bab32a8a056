use des::hooks::{create_hook, destroy_hook, has_hook, HookIdCounter, HookRegistry, RoutingHookOptions};

#[test]
fn hooks_run_in_priority_order() {
    let mut reg: HookRegistry<&str> = HookRegistry::new();
    let mut ids = HookIdCounter::new();
    let a = create_hook(&mut reg, &mut ids, "a", 10, String::from("a @ node"));
    let b = create_hook(&mut reg, &mut ids, "b", 5, String::from("b @ node"));
    let c = create_hook(&mut reg, &mut ids, "c", 10, String::from("c @ node"));
    let d = create_hook(&mut reg, &mut ids, "d", 1, String::from("d @ node"));
    assert_eq!((a.id(), b.id(), c.id(), d.id()), (0, 1, 2, 3));
    assert_eq!(reg.len(), 4);
    let order: Vec<&str> = (0..reg.len()).map(|i| *reg.hook_mut(i)).collect();
    assert_eq!(order, vec!["d", "b", "c", "a"]);
}

#[test]
fn destroying_a_hook_keeps_the_others_in_order() {
    let mut reg: HookRegistry<u8> = HookRegistry::new();
    let mut ids = HookIdCounter::new();
    let h1 = create_hook(&mut reg, &mut ids, 1, 3, String::new());
    let h2 = create_hook(&mut reg, &mut ids, 2, 2, String::new());
    let h3 = create_hook(&mut reg, &mut ids, 3, 1, String::new());
    assert!(has_hook(&reg, h2.id()));
    destroy_hook(&mut reg, h2.clone());
    assert!(!has_hook(&reg, h2.id()));
    assert!(has_hook(&reg, h1.id()));
    assert!(has_hook(&reg, h3.id()));
    assert_eq!(reg.len(), 2);
    assert_eq!(*reg.hook_mut(0), 3);
    assert_eq!(*reg.hook_mut(1), 1);
}

#[test]
fn destroy_undoes_create() {
    let mut reg: HookRegistry<u8> = HookRegistry::new();
    let mut ids = HookIdCounter::new();
    create_hook(&mut reg, &mut ids, 1, 3, String::new());
    create_hook(&mut reg, &mut ids, 2, 7, String::new());
    let h = create_hook(&mut reg, &mut ids, 9, 5, String::new());
    assert_eq!(*reg.hook_mut(1), 9);
    destroy_hook(&mut reg, h);
    assert_eq!(reg.len(), 2);
    assert_eq!(*reg.hook_mut(0), 1);
    assert_eq!(*reg.hook_mut(1), 2);
}

#[test]
fn hook_handle_describes_itself() {
    let mut reg: HookRegistry<()> = HookRegistry::new();
    let mut ids = HookIdCounter::new();
    for _ in 0..12 {
        create_hook(&mut reg, &mut ids, (), 0, String::new());
    }
    let h = create_hook(&mut reg, &mut ids, (), 0, String::from("clock @ node"));
    assert_eq!(h.describe(), "Hook #12 { clock @ node }");
}

#[test]
fn routing_options() {
    let inet = RoutingHookOptions::inet();
    assert!(inet.route_tcp_udp);
    assert!(!inet.route_module_id);
    assert!(inet.ttl);
}

#[test]
fn hook_ids_differ_across_modules() {
    let mut ids = HookIdCounter::new();
    let mut a: HookRegistry<u8> = HookRegistry::new();
    let mut b: HookRegistry<u8> = HookRegistry::new();
    let ha = create_hook(&mut a, &mut ids, 1, 0, String::new());
    let hb = create_hook(&mut b, &mut ids, 2, 0, String::new());
    assert_ne!(ha.id(), hb.id());
    assert!(!has_hook(&a, hb.id()));
    assert!(has_hook(&b, hb.id()));
}
