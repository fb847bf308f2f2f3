use vstd::prelude::*;
use crate::analyzer_error::{errors_view, AnalyzerError, AnalyzerErrorView, TokenRange};
use crate::check_expression::{kind_name, to_kind_name, HandlerPoint};
use crate::symbol::{Signature, Symbol, SymbolKind, SymbolTable};

verus! {

/// How a module departs from the prototype it implements.
#[derive(Clone, Copy, Debug, PartialEq, Eq, Structural)]
pub enum IncompatKind {
    MissingParam,
    MissingPort,
    UnnecessaryParam,
    UnnecessaryPort,
    IncompatibleParam,
    IncompatiblePort,
}

/// One departure, with the name of the parameter or port concerned.
pub struct ProtoIncompatible {
    pub kind: IncompatKind,
    pub name: String,
}

impl ProtoIncompatible {
    pub open spec fn view(&self) -> (IncompatKind, Seq<char>) {
        (self.kind, self.name@)
    }
}

/// Some item of `items` is named `name`.
pub open spec fn has_name(items: Seq<Signature>, name: Seq<char>) -> bool {
    exists|j: int| 0 <= j < items.len() && (#[trigger] items[j]).name@ == name
}

/// Some item of `items` is named `name` and has type `ty`.
pub open spec fn has_typed(items: Seq<Signature>, name: Seq<char>, ty: Seq<char>) -> bool {
    exists|j: int| 0 <= j < items.len() && (#[trigger] items[j]).name@ == name && items[j].ty@ == ty
}

/// For each item that the prototype requires, in order: missing when the
/// module has no item of that name, incompatible when none of that name has
/// the same type.
pub open spec fn required_items(
    proto: Seq<Signature>,
    module: Seq<Signature>,
    missing: IncompatKind,
    incompatible: IncompatKind,
) -> Seq<(IncompatKind, Seq<char>)>
    decreases proto.len(),
{
    if proto.len() == 0 {
        Seq::empty()
    } else {
        let rest = required_items(proto.drop_last(), module, missing, incompatible);
        let p = proto.last();
        if !has_name(module, p.name@) {
            rest.push((missing, p.name@))
        } else if !has_typed(module, p.name@, p.ty@) {
            rest.push((incompatible, p.name@))
        } else {
            rest
        }
    }
}

/// For each item of the module that the prototype does not have, in order.
pub open spec fn extra_items(module: Seq<Signature>, proto: Seq<Signature>, unnecessary: IncompatKind) -> Seq<(IncompatKind, Seq<char>)>
    decreases module.len(),
{
    if module.len() == 0 {
        Seq::empty()
    } else {
        let rest = extra_items(module.drop_last(), proto, unnecessary);
        let m = module.last();
        if !has_name(proto, m.name@) {
            rest.push((unnecessary, m.name@))
        } else {
            rest
        }
    }
}

/// Every departure of a module from a prototype: parameters, then ports;
/// first what the prototype requires, then what the module has in excess.
pub open spec fn compat_spec(
    proto_params: Seq<Signature>,
    proto_ports: Seq<Signature>,
    params: Seq<Signature>,
    ports: Seq<Signature>,
) -> Seq<(IncompatKind, Seq<char>)> {
    required_items(proto_params, params, IncompatKind::MissingParam, IncompatKind::IncompatibleParam)
        + required_items(proto_ports, ports, IncompatKind::MissingPort, IncompatKind::IncompatiblePort)
        + extra_items(params, proto_params, IncompatKind::UnnecessaryParam)
        + extra_items(ports, proto_ports, IncompatKind::UnnecessaryPort)
}

fn find_name(items: &Vec<Signature>, name: &String, ty: Option<&String>) -> (r: bool)
    ensures
        ty is None ==> r == has_name(items@, name@),
        ty matches Some(t) ==> r == has_typed(items@, name@, t@),
{
    let mut i: usize = 0;
    while i < items.len()
        invariant
            i <= items@.len(),
            forall|j: int| 0 <= j < i ==> !(#[trigger] items@[j].name@ == name@ && (ty matches Some(t) ==> items@[j].ty@ == t@)),
        decreases items@.len() - i,
    {
        if items[i].name == *name {
            match ty {
                Some(t) => {
                    if items[i].ty == *t {
                        return true;
                    }
                },
                None => {
                    return true;
                },
            }
        }
        i += 1;
    }
    proof {
        if ty is None {
            assert(!has_name(items@, name@)) by {
                if exists|j: int| 0 <= j < items@.len() && (#[trigger] items@[j]).name@ == name@ {
                    let j = choose|j: int| 0 <= j < items@.len() && (#[trigger] items@[j]).name@ == name@;
                    assert(!(items@[j].name@ == name@ && (ty matches Some(t) ==> items@[j].ty@ == t@)));
                }
            }
        }
    }
    false
}

fn push_required(
    out: &mut Vec<ProtoIncompatible>,
    proto: &Vec<Signature>,
    module: &Vec<Signature>,
    missing: IncompatKind,
    incompatible: IncompatKind,
)
    ensures
        final(out)@.map_values(|x: ProtoIncompatible| x.view()) == old(out)@.map_values(|x: ProtoIncompatible| x.view())
            + required_items(proto@, module@, missing, incompatible),
{
    let mut i: usize = 0;
    proof {
        assert(proto@.take(0) =~= Seq::<Signature>::empty());
        assert(out@.map_values(|x: ProtoIncompatible| x.view()) =~= old(out)@.map_values(|x: ProtoIncompatible| x.view())
            + required_items(proto@.take(0), module@, missing, incompatible));
    }
    while i < proto.len()
        invariant
            i <= proto@.len(),
            out@.map_values(|x: ProtoIncompatible| x.view()) == old(out)@.map_values(|x: ProtoIncompatible| x.view())
                + required_items(proto@.take(i as int), module@, missing, incompatible),
        decreases proto@.len() - i,
    {
        proof {
            assert(proto@.take(i + 1).drop_last() =~= proto@.take(i as int));
        }
        let p = &proto[i];
        let ghost before = out@;
        proof {
            assert(proto@.take(i + 1).last() == proto@[i as int]);
        }
        if !find_name(module, &p.name, None) {
            out.push(ProtoIncompatible { kind: missing, name: p.name.clone() });
            proof {
                assert(out@.map_values(|x: ProtoIncompatible| x.view()) =~= before.map_values(|x: ProtoIncompatible| x.view()).push((missing, p.name@)));
            }
        } else if !find_name(module, &p.name, Some(&p.ty)) {
            out.push(ProtoIncompatible { kind: incompatible, name: p.name.clone() });
            proof {
                assert(out@.map_values(|x: ProtoIncompatible| x.view()) =~= before.map_values(|x: ProtoIncompatible| x.view()).push((incompatible, p.name@)));
            }
        }
        i += 1;
        proof {
            assert(out@.map_values(|x: ProtoIncompatible| x.view()) =~= old(out)@.map_values(|x: ProtoIncompatible| x.view())
                + required_items(proto@.take(i as int), module@, missing, incompatible));
        }
    }
    proof {
        assert(proto@.take(proto@.len() as int) =~= proto@);
    }
}

fn push_extra(out: &mut Vec<ProtoIncompatible>, module: &Vec<Signature>, proto: &Vec<Signature>, unnecessary: IncompatKind)
    ensures
        final(out)@.map_values(|x: ProtoIncompatible| x.view()) == old(out)@.map_values(|x: ProtoIncompatible| x.view())
            + extra_items(module@, proto@, unnecessary),
{
    let mut i: usize = 0;
    proof {
        assert(module@.take(0) =~= Seq::<Signature>::empty());
        assert(out@.map_values(|x: ProtoIncompatible| x.view()) =~= old(out)@.map_values(|x: ProtoIncompatible| x.view())
            + extra_items(module@.take(0), proto@, unnecessary));
    }
    while i < module.len()
        invariant
            i <= module@.len(),
            out@.map_values(|x: ProtoIncompatible| x.view()) == old(out)@.map_values(|x: ProtoIncompatible| x.view())
                + extra_items(module@.take(i as int), proto@, unnecessary),
        decreases module@.len() - i,
    {
        proof {
            assert(module@.take(i + 1).drop_last() =~= module@.take(i as int));
        }
        let m = &module[i];
        let ghost before = out@;
        proof {
            assert(module@.take(i + 1).last() == module@[i as int]);
        }
        if !find_name(proto, &m.name, None) {
            out.push(ProtoIncompatible { kind: unnecessary, name: m.name.clone() });
            proof {
                assert(out@.map_values(|x: ProtoIncompatible| x.view()) =~= before.map_values(|x: ProtoIncompatible| x.view()).push((unnecessary, m.name@)));
            }
        }
        i += 1;
        proof {
            assert(out@.map_values(|x: ProtoIncompatible| x.view()) =~= old(out)@.map_values(|x: ProtoIncompatible| x.view())
                + extra_items(module@.take(i as int), proto@, unnecessary));
        }
    }
    proof {
        assert(module@.take(module@.len() as int) =~= module@);
    }
}

/// Compares a module's parameters and ports with those of the prototype it
/// implements.
pub fn check_compat(
    proto_params: &Vec<Signature>,
    proto_ports: &Vec<Signature>,
    params: &Vec<Signature>,
    ports: &Vec<Signature>,
) -> (r: Vec<ProtoIncompatible>)
    ensures
        r@.map_values(|x: ProtoIncompatible| x.view()) == compat_spec(proto_params@, proto_ports@, params@, ports@),
{
    let mut r: Vec<ProtoIncompatible> = Vec::new();
    proof {
        assert(r@.map_values(|x: ProtoIncompatible| x.view()) =~= Seq::empty());
    }
    push_required(&mut r, proto_params, params, IncompatKind::MissingParam, IncompatKind::IncompatibleParam);
    push_required(&mut r, proto_ports, ports, IncompatKind::MissingPort, IncompatKind::IncompatiblePort);
    push_extra(&mut r, params, proto_params, IncompatKind::UnnecessaryParam);
    push_extra(&mut r, ports, proto_ports, IncompatKind::UnnecessaryPort);
    proof {
        assert(r@.map_values(|x: ProtoIncompatible| x.view()) =~= compat_spec(proto_params@, proto_ports@, params@, ports@));
    }
    r
}

/// The message of a departure.
pub open spec fn cause_text(kind: IncompatKind, name: Seq<char>) -> Seq<char> {
    match kind {
        IncompatKind::MissingParam => "parameter "@ + name + " is missing"@,
        IncompatKind::MissingPort => "port "@ + name + " is missing"@,
        IncompatKind::UnnecessaryParam => "parameter "@ + name + " is unnecessary"@,
        IncompatKind::UnnecessaryPort => "port "@ + name + " is unnecessary"@,
        IncompatKind::IncompatibleParam => "parameter "@ + name + " has incompatible type"@,
        IncompatKind::IncompatiblePort => "port "@ + name + " has incompatible type"@,
    }
}

/// Renders the message of a departure.
pub fn cause(x: &ProtoIncompatible) -> (r: String)
    ensures
        r@ == cause_text(x.kind, x.name@),
{
    let (head, tail) = match x.kind {
        IncompatKind::MissingParam => ("parameter ", " is missing"),
        IncompatKind::MissingPort => ("port ", " is missing"),
        IncompatKind::UnnecessaryParam => ("parameter ", " is unnecessary"),
        IncompatKind::UnnecessaryPort => ("port ", " is unnecessary"),
        IncompatKind::IncompatibleParam => ("parameter ", " has incompatible type"),
        IncompatKind::IncompatiblePort => ("port ", " has incompatible type"),
    };
    let mut s = String::from_str(head);
    s.append(x.name.as_str());
    s.append(tail);
    s
}

/// The diagnostics for module `module` declared to implement `proto`.
pub open spec fn proto_errors(t: Seq<Symbol>, proto: int, module: int, range: TokenRange) -> Seq<AnalyzerErrorView> {
    match t[proto].kind {
        SymbolKind::ProtoModule { parameters: pp, ports: pq } => match t[module].kind {
            SymbolKind::Module { parameters, ports } => compat_spec(pp@, pq@, parameters@, ports@).map_values(
                |x: (IncompatKind, Seq<char>)| AnalyzerErrorView::IncompatProto {
                    module: t[module].name@,
                    proto: t[proto].name@,
                    cause: cause_text(x.0, x.1),
                    range,
                },
            ),
            _ => Seq::empty(),
        },
        _ => seq![AnalyzerErrorView::MismatchType {
            name: t[proto].name@,
            expected: "module prototype"@,
            actual: kind_name(t[proto].kind),
            range,
        }],
    }
}

/// Checker that modules conform to the prototypes they implement.
pub struct CheckProto {
    pub errors: Vec<AnalyzerError>,
    point: HandlerPoint,
}

impl CheckProto {
    pub closed spec fn point_view(&self) -> HandlerPoint {
        self.point
    }

    pub closed spec fn errors_view(&self) -> Seq<AnalyzerErrorView> {
        errors_view(self.errors@)
    }

    pub fn new() -> (r: Self)
        ensures
            r.errors_view().len() == 0,
            r.point_view() == HandlerPoint::Before,
    {
        CheckProto { errors: Vec::new(), point: HandlerPoint::Before }
    }

    pub fn set_point(&mut self, p: HandlerPoint)
        ensures
            final(self).point_view() == p,
            final(self).errors_view() == old(self).errors_view(),
    {
        self.point = p;
    }

    /// A module declaration: `module` is the declared module and `proto` the
    /// prototype named after `for`, when there is one and it resolved.
    pub fn module_declaration(&mut self, table: &SymbolTable, proto: Option<usize>, module: usize, range: TokenRange)
        requires
            (module as int) < table.view().len(),
            proto matches Some(p) ==> (p as int) < table.view().len(),
        ensures
            final(self).point_view() == old(self).point_view(),
            old(self).point_view() == HandlerPoint::Before && proto is Some ==> final(self).errors_view()
                == old(self).errors_view() + proto_errors(table.view(), proto->Some_0 as int, module as int, range),
            !(old(self).point_view() == HandlerPoint::Before && proto is Some) ==> final(self).errors_view() == old(self).errors_view(),
    {
        if let HandlerPoint::Before = self.point {
            if let Some(p) = proto {
                let ps = table.get(p).unwrap();
                let ms = table.get(module).unwrap();
                match &ps.kind {
                    SymbolKind::ProtoModule { parameters: pp, ports: pq } => {
                        match &ms.kind {
                            SymbolKind::Module { parameters, ports } => {
                                let incompat = check_compat(pp, pq, parameters, ports);
                                let ghost want = proto_errors(table.view(), p as int, module as int, range);
                                let mut i: usize = 0;
                                while i < incompat.len()
                                    invariant
                                        i <= incompat@.len(),
                                        incompat@.map_values(|x: ProtoIncompatible| x.view()) == compat_spec(pp@, pq@, parameters@, ports@),
                                        want == proto_errors(table.view(), p as int, module as int, range),
                                        table.view()[p as int] == *ps,
                                        table.view()[module as int] == *ms,
                                        ps.kind == (SymbolKind::ProtoModule { parameters: *pp, ports: *pq }),
                                        ms.kind == (SymbolKind::Module { parameters: *parameters, ports: *ports }),
                                        self.point == old(self).point,
                                        errors_view(self.errors@) == errors_view(old(self).errors@) + want.take(i as int),
                                    decreases incompat@.len() - i,
                                {
                                    let c = cause(&incompat[i]);
                                    let e = AnalyzerError::IncompatProto {
                                        module: ms.name.clone(),
                                        proto: ps.name.clone(),
                                        cause: c,
                                        range,
                                    };
                                    let ghost before = self.errors@;
                                    proof {
                                        assert(incompat@.map_values(|x: ProtoIncompatible| x.view())[i as int] == incompat@[i as int].view());
                                        assert(e.view() == want[i as int]);
                                    }
                                    self.errors.push(e);
                                    i += 1;
                                    proof {
                                        assert(errors_view(self.errors@) =~= errors_view(before).push(want[i - 1]));
                                        assert(errors_view(self.errors@) =~= errors_view(old(self).errors@) + want.take(i as int));
                                    }
                                }
                                proof {
                                    assert(want.take(i as int) =~= want);
                                }
                            },
                            _ => {
                                proof {
                                    assert(errors_view(self.errors@) =~= errors_view(old(self).errors@) + proto_errors(table.view(), p as int, module as int, range));
                                }
                            },
                        }
                    },
                    _ => {
                        let e = AnalyzerError::MismatchType {
                            name: ps.name.clone(),
                            expected: String::from_str("module prototype"),
                            actual: to_kind_name(&ps.kind),
                            range,
                        };
                        self.errors.push(e);
                        proof {
                            assert(errors_view(self.errors@) =~= errors_view(old(self).errors@) + proto_errors(table.view(), p as int, module as int, range));
                        }
                    },
                }
            }
        }
    }
}

} // verus!
