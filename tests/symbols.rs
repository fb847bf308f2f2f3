use veryl_core::cmd::{CmdDump, CmdNew, DumpKind, OptDump, OptNew};
use veryl_core::msb_table::{self, MsbTable};
use veryl_core::symbol::{Symbol, SymbolKind, SymbolTable};
use veryl_core::text::push_int_dec;

fn sym(name: &str, namespace: &[&str], kind: SymbolKind) -> Symbol {
    Symbol {
        name: name.to_string(),
        namespace: namespace.iter().map(|x| x.to_string()).collect(),
        kind,
        parent: None,
    }
}

fn ns(x: &[&str]) -> Vec<String> {
    x.iter().map(|s| s.to_string()).collect()
}

#[test]
fn insert_refuses_duplicate_in_same_scope() {
    let mut t = SymbolTable::new();
    assert_eq!(t.insert(sym("a", &["top"], SymbolKind::Const)), Some(0));
    assert_eq!(t.insert(sym("a", &["top"], SymbolKind::Const)), None);
    assert_eq!(t.insert(sym("a", &["top", "f"], SymbolKind::Const)), Some(1));
    assert_eq!(t.len(), 2);
}

#[test]
fn resolve_walks_outward() {
    let mut t = SymbolTable::new();
    t.insert(sym("x", &[], SymbolKind::Const)).unwrap();
    t.insert(sym("x", &["top"], SymbolKind::Const)).unwrap();
    t.insert(sym("y", &[], SymbolKind::Const)).unwrap();
    assert_eq!(t.resolve(&ns(&["top", "f"]), &"x".to_string()), Some(1));
    assert_eq!(t.resolve(&ns(&["other"]), &"x".to_string()), Some(0));
    assert_eq!(t.resolve(&ns(&["top"]), &"y".to_string()), Some(2));
    assert_eq!(t.resolve(&ns(&["top"]), &"z".to_string()), None);
}

#[test]
fn every_symbol_resolves_to_itself() {
    let mut t = SymbolTable::new();
    t.insert(sym("x", &[], SymbolKind::Const)).unwrap();
    t.insert(sym("x", &["top"], SymbolKind::Const)).unwrap();
    t.insert(sym("x", &["top", "f"], SymbolKind::Const)).unwrap();
    t.insert(sym("y", &["top", "f"], SymbolKind::Const)).unwrap();
    for id in 0..t.len() {
        let s = t.get(id).unwrap();
        assert_eq!(t.resolve(&s.namespace, &s.name), Some(id));
    }
}

#[test]
fn msb_table_records() {
    let mut t = MsbTable::new();
    msb_table::insert(&mut t, 3, 10);
    t.insert(4, 11);
    assert_eq!(msb_table::get(&t, 3), Some(10));
    assert_eq!(t.get(4), Some(11));
    assert_eq!(t.get(5), None);
    msb_table::insert(&mut t, 3, 12);
    assert_eq!(t.get(3), Some(12));
    msb_table::clear(&mut t);
    assert_eq!(t.get(3), None);
    t.insert(1, 1);
    t.clear();
    assert_eq!(msb_table::get(&t, 1), None);
}

#[test]
fn decimal_rendering() {
    let mut s = String::from("i");
    push_int_dec(&mut s, 0);
    push_int_dec(&mut s, 907);
    push_int_dec(&mut s, -12);
    push_int_dec(&mut s, isize::MIN);
    assert_eq!(s, format!("i0907-12{}", isize::MIN));
}

#[test]
fn dump_order() {
    let opt = OptDump {
        files: vec![],
        symbol_table: true,
        assign_list: false,
        namespace_table: true,
        type_dag: false,
        attribute_table: false,
        unsafe_table: true,
    };
    let c = CmdDump::new(opt);
    assert_eq!(c.dumps(), vec![DumpKind::SymbolTable, DumpKind::NamespaceTable, DumpKind::UnsafeTable]);
    assert!(c.opt().symbol_table);
    let n = CmdNew::new(OptNew { path: "proj".to_string() });
    assert_eq!(n.opt().path, "proj");
}
