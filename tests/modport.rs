use veryl_core::modport::{
    collect_modport_member_variables, expand_array_index, DefinedPort, ExpandModportConnections,
    ExpandModportConnectionsTable, ExpandedModportPortTable, InstPortItem, ModportMember,
};
use veryl_core::symbol::{Direction, Symbol, SymbolKind, SymbolTable};

fn sym(name: &str, namespace: &[&str], kind: SymbolKind, parent: Option<usize>) -> Symbol {
    Symbol {
        name: name.to_string(),
        namespace: namespace.iter().map(|x| x.to_string()).collect(),
        kind,
        parent,
    }
}

/// An interface `bus` with variables `a` and `b` and a modport `mp` giving
/// `a` as input and `b` as output. Returns the table and the modport's id.
fn bus_table() -> (SymbolTable, usize) {
    let mut t = SymbolTable::new();
    t.insert(sym("bus", &[], SymbolKind::Interface, None)).unwrap();
    t.insert(sym("a", &["bus"], SymbolKind::Variable { ty: "logic".to_string() }, Some(0))).unwrap();
    t.insert(sym("b", &["bus"], SymbolKind::Variable { ty: "logic<8>".to_string() }, Some(0))).unwrap();
    t.insert(sym("a", &["bus", "mp"], SymbolKind::ModportVariableMember { variable: 1, direction: Direction::Input }, Some(0))).unwrap();
    t.insert(sym("b", &["bus", "mp"], SymbolKind::ModportVariableMember { variable: 2, direction: Direction::Output }, Some(0))).unwrap();
    let mp = t.insert(sym("mp", &["bus"], SymbolKind::Modport { members: vec![3, 4] }, Some(0))).unwrap();
    (t, mp)
}

#[test]
fn array_index_row_major() {
    let r = expand_array_index(&vec![2, 3]);
    assert_eq!(
        r,
        vec![vec![0, 0], vec![0, 1], vec![0, 2], vec![1, 0], vec![1, 1], vec![1, 2]]
    );
}

#[test]
fn array_index_empty_sizes_gives_one_empty_tuple() {
    let r = expand_array_index(&vec![]);
    assert_eq!(r, vec![Vec::<isize>::new()]);
}

#[test]
fn array_index_zero_size_gives_nothing() {
    assert!(expand_array_index(&vec![2, 0]).is_empty());
    assert!(expand_array_index(&vec![0, 3]).is_empty());
    assert!(expand_array_index(&vec![-1]).is_empty());
}

#[test]
fn member_variables_of_modport() {
    let (t, mp) = bus_table();
    let m = collect_modport_member_variables(&t, mp);
    assert_eq!(m.len(), 2);
    assert_eq!(m[0].name, "a");
    assert_eq!(m[0].ty, "logic");
    assert_eq!(m[0].direction, Direction::Input);
    assert_eq!(m[1].name, "b");
    assert_eq!(m[1].direction, Direction::Output);
    assert!(collect_modport_member_variables(&t, 0).is_empty());
}

#[test]
fn connection_names_with_index() {
    let members = vec![ModportMember { name: "a".to_string(), ty: "logic".to_string(), direction: Direction::Input }];
    let c = ExpandModportConnections::new(&"p".to_string(), &members, &"u_bus".to_string(), &vec![1, 2]);
    assert_eq!(c.connections[0].port_target, "__p_1_2_a");
    assert_eq!(c.connections[0].interface_target, "u_bus[1][2].a");
    let c = ExpandModportConnections::new(&"p".to_string(), &members, &"u_bus".to_string(), &vec![]);
    assert_eq!(c.connections[0].port_target, "__p_a");
    assert_eq!(c.connections[0].interface_target, "u_bus.a");
}

#[test]
fn connection_table_counts_and_removes() {
    let (t, mp) = bus_table();
    let ports = vec![
        DefinedPort { name: "p".to_string(), modport: Some(mp), expand: true, array_size: vec![2, 3], interface: "bus".to_string() },
        DefinedPort { name: "q".to_string(), modport: Some(mp), expand: false, array_size: vec![], interface: "bus".to_string() },
        DefinedPort { name: "s".to_string(), modport: Some(mp), expand: true, array_size: vec![], interface: "bus".to_string() },
    ];
    let conns = vec![
        InstPortItem { name: "p".to_string(), target: Some("u_bus".to_string()) },
        InstPortItem { name: "s".to_string(), target: None },
    ];
    let mut table = ExpandModportConnectionsTable::create(&t, &ports, &conns);
    assert!(!table.is_empty());
    let p = table.remove(&"p".to_string()).unwrap();
    assert_eq!(p.id(), "p");
    assert_eq!(p.connections.len(), 6);
    let total: usize = p.connections.iter().map(|c| c.connections.len()).sum();
    assert_eq!(total, 2 * 3 * 2);
    assert_eq!(p.connections[5].connections[1].port_target, "__p_1_2_b");
    assert_eq!(p.connections[5].connections[1].interface_target, "u_bus[1][2].b");
    assert!(table.remove(&"q".to_string()).is_none());
    let s = table.remove(&"s".to_string()).unwrap();
    assert_eq!(s.connections.len(), 1);
    assert_eq!(s.connections[0].connections[0].port_target, "__s_a");
    assert_eq!(s.connections[0].connections[0].interface_target, "s.a");
    assert!(table.remove(&"p".to_string()).is_none());
    assert!(table.is_empty());
}

#[test]
fn port_table_declarations() {
    let (t, mp) = bus_table();
    let ports = vec![
        DefinedPort { name: "p".to_string(), modport: Some(mp), expand: true, array_size: vec![2], interface: "pkg_bus".to_string() },
        DefinedPort { name: "s".to_string(), modport: Some(mp), expand: true, array_size: vec![], interface: "bus".to_string() },
        DefinedPort { name: "n".to_string(), modport: None, expand: true, array_size: vec![], interface: "bus".to_string() },
    ];
    let mut table = ExpandedModportPortTable::create(&t, &ports);
    assert!(!table.is_empty());
    let p = table.get(&"p".to_string()).unwrap();
    assert_eq!(p.interface_name, "pkg_bus");
    assert_eq!(p.array_size, vec![2]);
    assert_eq!(p.ports.len(), 2);
    let total: usize = p.ports.iter().map(|g| g.ports.len()).sum();
    assert_eq!(total, 2 * 2);
    let d = &p.ports[1].ports[1];
    assert_eq!(d.identifier, "__p_1_b");
    assert_eq!(d.interface_target, "p[1].b");
    assert_eq!(d.ty, "logic<8>");
    assert_eq!(d.direction, Direction::Output);
    assert_eq!(d.direction_token, "output");
    assert_eq!(p.ports[0].ports[0].direction_token, "input");
    let s = table.get(&"s".to_string()).unwrap();
    assert_eq!(s.ports.len(), 1);
    assert_eq!(s.ports[0].ports[0].identifier, "__s_a");
    assert_eq!(s.ports[0].ports[0].interface_target, "s.a");
    assert!(table.get(&"n".to_string()).is_none());
    let all = table.drain();
    assert_eq!(all.len(), 2);
    assert!(table.is_empty());
}
