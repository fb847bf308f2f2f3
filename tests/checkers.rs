use veryl_core::analyzer_error::{AnalyzerError, Evaluated, EvaluatedError, EvaluatedErrorKind, EvaluatedValue, TokenRange};
use veryl_core::check_expression::{is_defined_in_package, to_kind_name, CaseRangeItem, CheckExpression, HandlerPoint, Resolution};
use veryl_core::check_proto::{cause, check_compat, CheckProto, IncompatKind, ProtoIncompatible};
use veryl_core::symbol::{Direction, Signature, Symbol, SymbolKind, SymbolTable};

fn sym(name: &str, namespace: &[&str], kind: SymbolKind, parent: Option<usize>) -> Symbol {
    Symbol {
        name: name.to_string(),
        namespace: namespace.iter().map(|x| x.to_string()).collect(),
        kind,
        parent,
    }
}

fn range(beg: u64, end: u64) -> TokenRange {
    TokenRange { beg, end }
}

fn known() -> Evaluated {
    Evaluated { value: EvaluatedValue::Known { bits: 1, width: 32, signed: false }, errors: vec![] }
}

fn unknown() -> Evaluated {
    Evaluated { value: EvaluatedValue::Unknown, errors: vec![] }
}

fn sig(name: &str, ty: &str) -> Signature {
    Signature { name: name.to_string(), ty: ty.to_string() }
}

/// package pkg { const CONST }, module top { var local_var }
fn purity_table() -> SymbolTable {
    let mut t = SymbolTable::new();
    t.insert(sym("pkg", &[], SymbolKind::Package, None)).unwrap();
    t.insert(sym("CONST", &["pkg"], SymbolKind::Const, Some(0))).unwrap();
    t.insert(sym("top", &[], SymbolKind::Module { parameters: vec![], ports: vec![] }, None)).unwrap();
    t.insert(sym("local_var", &["top"], SymbolKind::Variable { ty: "logic".to_string() }, Some(2))).unwrap();
    t.insert(sym("W", &["top"], SymbolKind::GenericParameter { const_bound: true }, Some(2))).unwrap();
    t.insert(sym("T", &["top"], SymbolKind::GenericParameter { const_bound: false }, Some(2))).unwrap();
    t.insert(sym("$clog2", &[], SymbolKind::SystemFunction, None)).unwrap();
    t
}

fn enter_input_default(c: &mut CheckExpression) {
    c.set_point(HandlerPoint::Before);
    c.port_type_concrete(Direction::Input, None);
    c.port_default_value();
}

#[test]
fn port_default_package_const_is_accepted() {
    let t = purity_table();
    let mut c = CheckExpression::new("module top (a: input logic = pkg::CONST) {}");
    enter_input_default(&mut c);
    c.identifier_factor(&t, Some(&Resolution { found: 1, full_path: vec![0, 1] }), range(29, 39));
    assert!(c.errors.is_empty());
}

#[test]
fn port_default_local_variable_is_rejected() {
    let t = purity_table();
    let mut c = CheckExpression::new("module top (a: input logic = local_var) {}");
    enter_input_default(&mut c);
    c.identifier_factor(&t, Some(&Resolution { found: 3, full_path: vec![3] }), range(29, 38));
    assert_eq!(c.errors.len(), 1);
    match &c.errors[0] {
        AnalyzerError::InvalidFactor { identifier, kind, range: r } => {
            assert_eq!(identifier, "local_var");
            assert_eq!(kind, "variable");
            assert_eq!(*r, range(29, 38));
        }
        e => panic!("unexpected {e:?}"),
    }
}

#[test]
fn port_default_generic_and_system_function() {
    let t = purity_table();
    let mut c = CheckExpression::new("");
    enter_input_default(&mut c);
    c.identifier_factor(&t, Some(&Resolution { found: 4, full_path: vec![4] }), range(0, 1));
    c.identifier_factor(&t, Some(&Resolution { found: 6, full_path: vec![6] }), range(0, 1));
    assert!(c.errors.is_empty());
    c.identifier_factor(&t, Some(&Resolution { found: 5, full_path: vec![5] }), range(2, 3));
    assert_eq!(c.errors.len(), 1);
}

#[test]
fn identifier_outside_input_default_is_not_checked() {
    let t = purity_table();
    let mut c = CheckExpression::new("");
    c.set_point(HandlerPoint::Before);
    c.port_type_concrete(Direction::Output, None);
    c.port_default_value();
    c.identifier_factor(&t, Some(&Resolution { found: 3, full_path: vec![3] }), range(0, 1));
    c.identifier_factor(&t, None, range(0, 1));
    assert!(c.errors.is_empty());
}

#[test]
fn defined_in_package_through_parents() {
    let mut t = purity_table();
    t.insert(sym("inner", &["pkg", "f"], SymbolKind::Variable { ty: "logic".to_string() }, Some(1))).unwrap();
    assert!(is_defined_in_package(&t, &vec![7]));
    assert!(is_defined_in_package(&t, &vec![0, 1]));
    assert!(!is_defined_in_package(&t, &vec![3]));
}

#[test]
fn case_label_must_be_elaborative() {
    let mut c = CheckExpression::new("case x { foo: a = 1; signal_y: a = 2; }");
    let items = vec![
        CaseRangeItem { start: known(), start_range: range(9, 12), end: None },
        CaseRangeItem { start: unknown(), start_range: range(21, 29), end: None },
    ];
    c.case_condition(&items);
    assert_eq!(c.errors.len(), 1);
    match &c.errors[0] {
        AnalyzerError::InvalidCaseConditionNonElaborative { range: r } => assert_eq!(*r, range(21, 29)),
        e => panic!("unexpected {e:?}"),
    }
}

#[test]
fn case_range_bounds_each_checked() {
    let mut c = CheckExpression::new("");
    let items = vec![CaseRangeItem { start: unknown(), start_range: range(0, 1), end: Some((unknown(), range(3, 4))) }];
    c.case_condition(&items);
    assert_eq!(c.errors.len(), 2);
}

#[test]
fn evaluation_errors_are_reported_in_order() {
    let mut c = CheckExpression::new("");
    let e1 = EvaluatedError { kind: EvaluatedErrorKind::DivisionByZero, range: range(1, 2) };
    let e2 = EvaluatedError { kind: EvaluatedErrorKind::ShiftOverflow, range: range(3, 4) };
    let cond = Evaluated { value: EvaluatedValue::Unknown, errors: vec![e1] };
    let elif = vec![Evaluated { value: EvaluatedValue::Unknown, errors: vec![e2] }];
    c.if_statement(&cond, &elif);
    c.let_statement(&known());
    assert_eq!(c.errors.len(), 2);
    match (&c.errors[0], &c.errors[1]) {
        (AnalyzerError::EvaluatedError { error: a }, AnalyzerError::EvaluatedError { error: b }) => {
            assert_eq!(*a, e1);
            assert_eq!(*b, e2);
        }
        e => panic!("unexpected {e:?}"),
    }
}

#[test]
fn kind_names() {
    assert_eq!(to_kind_name(&SymbolKind::Variable { ty: String::new() }), "variable");
    assert_eq!(to_kind_name(&SymbolKind::ProtoModule { parameters: vec![], ports: vec![] }), "module prototype");
}

#[test]
fn prototype_port_direction_mismatch() {
    let mut t = SymbolTable::new();
    let p = t.insert(sym("P", &[], SymbolKind::ProtoModule { parameters: vec![], ports: vec![sig("clk", "input clock")] }, None)).unwrap();
    let m = t.insert(sym("M", &[], SymbolKind::Module { parameters: vec![], ports: vec![sig("clk", "output clock")] }, None)).unwrap();
    let mut c = CheckProto::new();
    c.set_point(HandlerPoint::Before);
    c.module_declaration(&t, Some(p), m, range(7, 8));
    assert_eq!(c.errors.len(), 1);
    match &c.errors[0] {
        AnalyzerError::IncompatProto { module, proto, cause, range: r } => {
            assert_eq!(module, "M");
            assert_eq!(proto, "P");
            assert_eq!(cause, "port clk has incompatible type");
            assert_eq!(*r, range(7, 8));
        }
        e => panic!("unexpected {e:?}"),
    }
}

#[test]
fn prototype_that_is_not_a_prototype() {
    let mut t = SymbolTable::new();
    let p = t.insert(sym("P", &[], SymbolKind::Package, None)).unwrap();
    let m = t.insert(sym("M", &[], SymbolKind::Module { parameters: vec![], ports: vec![] }, None)).unwrap();
    let mut c = CheckProto::new();
    c.module_declaration(&t, Some(p), m, range(0, 1));
    match &c.errors[0] {
        AnalyzerError::MismatchType { name, expected, actual, .. } => {
            assert_eq!(name, "P");
            assert_eq!(expected, "module prototype");
            assert_eq!(actual, "package");
        }
        e => panic!("unexpected {e:?}"),
    }
    c.set_point(HandlerPoint::After);
    c.module_declaration(&t, Some(p), m, range(0, 1));
    assert_eq!(c.errors.len(), 1);
}

#[test]
fn compat_reports_every_kind() {
    let r = check_compat(
        &vec![sig("W", "u32"), sig("D", "u32")],
        &vec![sig("clk", "input clock"), sig("rst", "input reset")],
        &vec![sig("W", "u64"), sig("X", "u32")],
        &vec![sig("clk", "input clock"), sig("o", "output logic")],
    );
    let kinds: Vec<(IncompatKind, String)> = r.iter().map(|x| (x.kind, x.name.clone())).collect();
    assert_eq!(
        kinds,
        vec![
            (IncompatKind::IncompatibleParam, "W".to_string()),
            (IncompatKind::MissingParam, "D".to_string()),
            (IncompatKind::MissingPort, "rst".to_string()),
            (IncompatKind::UnnecessaryParam, "X".to_string()),
            (IncompatKind::UnnecessaryPort, "o".to_string()),
        ]
    );
    let texts: Vec<String> = r.iter().map(cause).collect();
    assert_eq!(texts[0], "parameter W has incompatible type");
    assert_eq!(texts[1], "parameter D is missing");
    assert_eq!(texts[2], "port rst is missing");
    assert_eq!(texts[3], "parameter X is unnecessary");
    assert_eq!(texts[4], "port o is unnecessary");
    let x = ProtoIncompatible { kind: IncompatKind::IncompatiblePort, name: "clk".to_string() };
    assert_eq!(cause(&x), "port clk has incompatible type");
}
