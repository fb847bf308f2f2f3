use vstd::prelude::*;
use crate::analyzer_error::{AnalyzerError, Evaluated, EvaluatedError, TokenRange};
use crate::symbol::{Direction, Symbol, SymbolKind, SymbolTable};

verus! {

/// Whether a handler is called before or after the children of a node.
#[derive(Clone, Copy, Debug, PartialEq, Eq, Structural)]
pub enum HandlerPoint {
    Before,
    After,
}

/// The outcome of resolving an identifier: the symbol found and the chain of
/// symbols that the path went through.
pub struct Resolution {
    pub found: usize,
    pub full_path: Vec<usize>,
}

/// Name of a kind of symbol, as diagnostics print it.
pub open spec fn kind_name(k: SymbolKind) -> Seq<char> {
    match k {
        SymbolKind::Module { .. } => "module"@,
        SymbolKind::Interface => "interface"@,
        SymbolKind::Package => "package"@,
        SymbolKind::Modport { .. } => "modport"@,
        SymbolKind::ModportVariableMember { .. } => "modport variable member"@,
        SymbolKind::Port { .. } => "port"@,
        SymbolKind::Variable { .. } => "variable"@,
        SymbolKind::Parameter => "parameter"@,
        SymbolKind::Const => "const"@,
        SymbolKind::Function => "function"@,
        SymbolKind::SystemFunction => "system function"@,
        SymbolKind::GenericParameter { .. } => "generic parameter"@,
        SymbolKind::ProtoModule { .. } => "module prototype"@,
        SymbolKind::Enum => "enum"@,
        SymbolKind::EnumMember => "enum member"@,
        SymbolKind::Struct => "struct"@,
        SymbolKind::Union => "union"@,
        SymbolKind::TypeDef => "typedef"@,
    }
}

/// Name of the kind of a symbol.
pub fn to_kind_name(k: &SymbolKind) -> (r: String)
    ensures
        r@ == kind_name(*k),
{
    match k {
        SymbolKind::Module { .. } => String::from_str("module"),
        SymbolKind::Interface => String::from_str("interface"),
        SymbolKind::Package => String::from_str("package"),
        SymbolKind::Modport { .. } => String::from_str("modport"),
        SymbolKind::ModportVariableMember { .. } => String::from_str("modport variable member"),
        SymbolKind::Port { .. } => String::from_str("port"),
        SymbolKind::Variable { .. } => String::from_str("variable"),
        SymbolKind::Parameter => String::from_str("parameter"),
        SymbolKind::Const => String::from_str("const"),
        SymbolKind::Function => String::from_str("function"),
        SymbolKind::SystemFunction => String::from_str("system function"),
        SymbolKind::GenericParameter { .. } => String::from_str("generic parameter"),
        SymbolKind::ProtoModule { .. } => String::from_str("module prototype"),
        SymbolKind::Enum => String::from_str("enum"),
        SymbolKind::EnumMember => String::from_str("enum member"),
        SymbolKind::Struct => String::from_str("struct"),
        SymbolKind::Union => String::from_str("union"),
        SymbolKind::TypeDef => String::from_str("typedef"),
    }
}

/// Some strict ancestor of symbol `id`, within `fuel` steps up the parent
/// chain, is a package.
pub open spec fn ancestor_is_package(t: Seq<Symbol>, id: int, fuel: nat) -> bool
    decreases fuel,
{
    if fuel == 0 || !(0 <= id < t.len()) {
        false
    } else {
        match t[id].parent {
            Some(p) => 0 <= p < t.len() && (t[p as int].is_package() || ancestor_is_package(t, p as int, (fuel - 1) as nat)),
            None => false,
        }
    }
}

/// A symbol reached through `full_path` is defined in a package: a symbol of
/// the path is a package, or an ancestor of the last one is. The parent chain
/// is followed for at most as many steps as the table has symbols.
pub open spec fn defined_in_package(t: Seq<Symbol>, full_path: Seq<usize>) -> bool {
    (exists|k: int| 0 <= k < full_path.len() && t[full_path[k] as int].is_package())
        || ancestor_is_package(t, full_path.last() as int, t.len())
}

/// Every id of the path names a live symbol, and the path is not empty.
pub open spec fn path_live(t: Seq<Symbol>, full_path: Seq<usize>) -> bool {
    full_path.len() > 0 && forall|k: int| 0 <= k < full_path.len() ==> (#[trigger] full_path[k] as int) < t.len()
}

/// Tells whether the symbol reached through `full_path` is defined within a
/// package.
pub fn is_defined_in_package(table: &SymbolTable, full_path: &Vec<usize>) -> (r: bool)
    requires
        path_live(table.view(), full_path@),
    ensures
        r == defined_in_package(table.view(), full_path@),
{
    let mut i: usize = 0;
    while i < full_path.len()
        invariant
            i <= full_path@.len(),
            path_live(table.view(), full_path@),
            forall|k: int| 0 <= k < i ==> !table.view()[full_path@[k] as int].is_package(),
        decreases full_path@.len() - i,
    {
        let id = full_path[i];
        match table.get(id) {
            Some(sym) => {
                if let SymbolKind::Package = sym.kind {
                    return true;
                }
            },
            None => {},
        }
        i += 1;
    }
    let mut id = full_path[full_path.len() - 1];
    let mut fuel: usize = table.len();
    while fuel > 0
        invariant
            fuel <= table.view().len(),
            (id as int) < table.view().len(),
            full_path@.len() > 0,
            forall|k: int| 0 <= k < full_path@.len() ==> !table.view()[full_path@[k] as int].is_package(),
            ancestor_is_package(table.view(), full_path@.last() as int, table.view().len())
                == ancestor_is_package(table.view(), id as int, fuel as nat),
        decreases fuel,
    {
        let parent = match table.get(id) {
            Some(sym) => sym.parent,
            None => None,
        };
        match parent {
            Some(p) => {
                match table.get(p) {
                    Some(ps) => {
                        if let SymbolKind::Package = ps.kind {
                            return true;
                        }
                        id = p;
                        fuel -= 1;
                    },
                    None => {
                        return false;
                    },
                }
            },
            None => {
                return false;
            },
        }
    }
    false
}

/// The errors that evaluation errors give, one each, in order.
pub open spec fn evaluated_errors(errors: Seq<EvaluatedError>) -> Seq<AnalyzerError> {
    errors.map_values(|e: EvaluatedError| AnalyzerError::EvaluatedError { error: e })
}

/// The errors that a sequence of evaluations gives, in order.
pub open spec fn all_evaluated_errors(exps: Seq<Evaluated>) -> Seq<AnalyzerError>
    decreases exps.len(),
{
    if exps.len() == 0 {
        Seq::empty()
    } else {
        all_evaluated_errors(exps.drop_last()) + evaluated_errors(exps.last().errors@)
    }
}

/// The errors of an optional evaluation.
pub open spec fn opt_evaluated_errors(exp: Option<&Evaluated>) -> Seq<AnalyzerError> {
    match exp {
        Some(e) => evaluated_errors(e.errors@),
        None => Seq::empty(),
    }
}

/// A resolved identifier may stand in an input port's default value: it is
/// a system function, a generic parameter bound to a constant, or a symbol
/// defined within a package.
pub open spec fn port_default_available(t: Seq<Symbol>, found: int, full_path: Seq<usize>) -> bool {
    match t[found].kind {
        SymbolKind::SystemFunction => true,
        SymbolKind::GenericParameter { const_bound } => const_bound,
        _ => defined_in_package(t, full_path),
    }
}

/// `e` reports that `name`, a symbol of kind `kind`, may not appear where it
/// was found.
pub open spec fn is_invalid_factor(e: AnalyzerError, name: Seq<char>, kind: Seq<char>, range: TokenRange) -> bool {
    match e {
        AnalyzerError::InvalidFactor { identifier, kind: k, range: r } => identifier@ == name && k@ == kind && r == range,
        _ => false,
    }
}

/// One label of a `case` item: a value or a range, each bound evaluated.
pub struct CaseRangeItem {
    pub start: Evaluated,
    pub start_range: TokenRange,
    pub end: Option<(Evaluated, TokenRange)>,
}

/// The errors of one bound of a case label: its evaluation errors, then one
/// for a bound that is not an elaboration-time constant.
pub open spec fn case_bound_errors(e: Evaluated, range: TokenRange) -> Seq<AnalyzerError> {
    evaluated_errors(e.errors@) + if e.value is Known {
        Seq::empty()
    } else {
        seq![AnalyzerError::InvalidCaseConditionNonElaborative { range }]
    }
}

/// The errors of the case labels `items`, in order.
pub open spec fn case_errors(items: Seq<CaseRangeItem>) -> Seq<AnalyzerError>
    decreases items.len(),
{
    if items.len() == 0 {
        Seq::empty()
    } else {
        let x = items.last();
        case_errors(items.drop_last()) + case_bound_errors(x.start, x.start_range) + match x.end {
            Some(end) => case_bound_errors(end.0, end.1),
            None => Seq::empty(),
        }
    }
}

/// Checker that evaluates every expression of a source file and reports the
/// evaluation errors, and that keeps input port default values pure.
pub struct CheckExpression<'a> {
    pub errors: Vec<AnalyzerError>,
    text: &'a str,
    point: HandlerPoint,
    in_inst_declaration: bool,
    port_direction: Option<Direction>,
    in_input_port_default_value: bool,
}

impl<'a> CheckExpression<'a> {
    /// Everything but the errors is the same in `self` and `o`.
    pub closed spec fn same_state(&self, o: &Self) -> bool {
        &&& self.point == o.point
        &&& self.port_direction == o.port_direction
        &&& self.in_input_port_default_value == o.in_input_port_default_value
        &&& self.in_inst_declaration == o.in_inst_declaration
        &&& self.text == o.text
    }

    pub closed spec fn errors_view(&self) -> Seq<AnalyzerError> {
        self.errors@
    }

    pub closed spec fn point_view(&self) -> HandlerPoint {
        self.point
    }

    pub closed spec fn port_direction_view(&self) -> Option<Direction> {
        self.port_direction
    }

    pub closed spec fn in_input_default_view(&self) -> bool {
        self.in_input_port_default_value
    }

    pub closed spec fn in_inst_view(&self) -> bool {
        self.in_inst_declaration
    }

    pub closed spec fn text_view(&self) -> Seq<char> {
        self.text@
    }

    /// A checker over the source `text`, with no error yet.
    pub fn new(text: &'a str) -> (r: Self)
        ensures
            r.errors_view().len() == 0,
            r.text_view() == text@,
            r.point_view() == HandlerPoint::Before,
            r.port_direction_view() is None,
            !r.in_input_default_view(),
            !r.in_inst_view(),
    {
        CheckExpression {
            errors: Vec::new(),
            text,
            point: HandlerPoint::Before,
            in_inst_declaration: false,
            port_direction: None,
            in_input_port_default_value: false,
        }
    }

    /// The source text being checked.
    pub fn text(&self) -> (r: &'a str)
        ensures
            r@ == self.text_view(),
    {
        self.text
    }

    pub fn set_point(&mut self, p: HandlerPoint)
        ensures
            final(self).point_view() == p,
            final(self).errors_view() == old(self).errors_view(),
            final(self).port_direction_view() == old(self).port_direction_view(),
            final(self).in_input_default_view() == old(self).in_input_default_view(),
            final(self).in_inst_view() == old(self).in_inst_view(),
            final(self).text_view() == old(self).text_view(),
    {
        self.point = p;
    }

    /// Reports each evaluation error.
    fn evaluated_error(&mut self, errors: &Vec<EvaluatedError>)
        ensures
            final(self).errors@ == old(self).errors@ + evaluated_errors(errors@),
            final(self).point == old(self).point,
            final(self).port_direction == old(self).port_direction,
            final(self).in_input_port_default_value == old(self).in_input_port_default_value,
            final(self).in_inst_declaration == old(self).in_inst_declaration,
            final(self).text == old(self).text,
    {
        let mut i: usize = 0;
        while i < errors.len()
            invariant
                i <= errors@.len(),
                self.errors@ == old(self).errors@ + evaluated_errors(errors@.take(i as int)),
                self.point == old(self).point,
                self.port_direction == old(self).port_direction,
                self.in_input_port_default_value == old(self).in_input_port_default_value,
                self.in_inst_declaration == old(self).in_inst_declaration,
                self.text == old(self).text,
            decreases errors@.len() - i,
        {
            self.errors.push(AnalyzerError::EvaluatedError { error: errors[i] });
            i += 1;
            proof {
                assert(self.errors@ =~= old(self).errors@ + evaluated_errors(errors@.take(i as int)));
            }
        }
        proof {
            assert(errors@.take(errors@.len() as int) =~= errors@);
        }
    }

    fn evaluated_list(&mut self, exps: &Vec<Evaluated>)
        ensures
            final(self).errors@ == old(self).errors@ + all_evaluated_errors(exps@),
            final(self).same_state(old(self)),
    {
        let mut i: usize = 0;
        proof {
            assert(exps@.take(0) =~= Seq::<Evaluated>::empty());
            assert(self.errors@ =~= old(self).errors@ + all_evaluated_errors(exps@.take(0)));
        }
        while i < exps.len()
            invariant
                i <= exps@.len(),
                self.errors@ == old(self).errors@ + all_evaluated_errors(exps@.take(i as int)),
                self.same_state(old(self)),
            decreases exps@.len() - i,
        {
            proof {
                assert(exps@.take(i + 1).drop_last() =~= exps@.take(i as int));
            }
            self.evaluated_error(&exps[i].errors);
            i += 1;
            proof {
                assert(self.errors@ =~= old(self).errors@ + all_evaluated_errors(exps@.take(i as int)));
            }
        }
        proof {
            assert(exps@.take(exps@.len() as int) =~= exps@);
        }
    }

    fn opt_evaluated(&mut self, exp: Option<&Evaluated>)
        ensures
            final(self).errors@ == old(self).errors@ + opt_evaluated_errors(exp),
            final(self).same_state(old(self)),
    {
        match exp {
            Some(e) => self.evaluated_error(&e.errors),
            None => {
                proof {
                    assert(self.errors@ =~= old(self).errors@ + opt_evaluated_errors(exp));
                }
            },
        }
    }

    /// An identifier used as an expression factor; inside an input port's
    /// default value only a pure name may stand.
    pub fn identifier_factor(&mut self, table: &SymbolTable, resolution: Option<&Resolution>, range: TokenRange)
        requires
            resolution matches Some(r) ==> (r.found as int) < table.view().len() && path_live(table.view(), r.full_path@),
        ensures
            final(self).same_state(old(self)),
            ({
                let flagged = old(self).point_view() == HandlerPoint::Before && old(self).in_input_default_view()
                    && resolution is Some && !port_default_available(table.view(), resolution->Some_0.found as int, resolution->Some_0.full_path@);
                &&& flagged ==> final(self).errors_view().len() == old(self).errors_view().len() + 1
                    && final(self).errors_view().drop_last() == old(self).errors_view()
                    && is_invalid_factor(final(self).errors_view().last(), table.view()[resolution->Some_0.found as int].name@,
                        kind_name(table.view()[resolution->Some_0.found as int].kind), range)
                &&& !flagged ==> final(self).errors_view() == old(self).errors_view()
            }),
    {
        if let HandlerPoint::Before = self.point {
            if let Some(rr) = resolution {
                if self.in_input_port_default_value {
                    let sym = table.get(rr.found).unwrap();
                    let available = match &sym.kind {
                        SymbolKind::SystemFunction => true,
                        SymbolKind::GenericParameter { const_bound } => *const_bound,
                        _ => is_defined_in_package(table, &rr.full_path),
                    };
                    if !available {
                        let identifier = sym.name.clone();
                        let kind = to_kind_name(&sym.kind);
                        self.errors.push(AnalyzerError::InvalidFactor { identifier, kind, range });
                        proof {
                            assert(self.errors@.drop_last() =~= old(self).errors@);
                        }
                    }
                }
            }
        }
    }

    pub fn let_statement(&mut self, exp: &Evaluated)
        ensures
            final(self).errors_view() == old(self).errors_view() + evaluated_errors(exp.errors@),
            final(self).same_state(old(self)),
    {
        self.evaluated_error(&exp.errors);
    }

    /// A statement that starts with an identifier: an assignment, whose
    /// right-hand side is given, or a function call.
    pub fn identifier_statement(&mut self, assignment: Option<&Evaluated>)
        ensures
            final(self).errors_view() == old(self).errors_view() + opt_evaluated_errors(assignment),
            final(self).same_state(old(self)),
    {
        self.opt_evaluated(assignment);
    }

    /// An `if` statement: its condition and the conditions of its `else if`s.
    pub fn if_statement(&mut self, cond: &Evaluated, else_ifs: &Vec<Evaluated>)
        ensures
            final(self).errors_view() == old(self).errors_view() + evaluated_errors(cond.errors@) + all_evaluated_errors(else_ifs@),
            final(self).same_state(old(self)),
    {
        self.evaluated_error(&cond.errors);
        self.evaluated_list(else_ifs);
    }

    /// An `if_reset` statement: the conditions of its `else if`s.
    pub fn if_reset_statement(&mut self, else_ifs: &Vec<Evaluated>)
        ensures
            final(self).errors_view() == old(self).errors_view() + all_evaluated_errors(else_ifs@),
            final(self).same_state(old(self)),
    {
        self.evaluated_list(else_ifs);
    }

    pub fn return_statement(&mut self, exp: &Evaluated)
        ensures
            final(self).errors_view() == old(self).errors_view() + evaluated_errors(exp.errors@),
            final(self).same_state(old(self)),
    {
        self.evaluated_error(&exp.errors);
    }

    /// A `for` statement: the start of its range, the optional end, and the
    /// optional step.
    pub fn for_statement(&mut self, start: &Evaluated, end: Option<&Evaluated>, step: Option<&Evaluated>)
        ensures
            final(self).errors_view() == old(self).errors_view() + evaluated_errors(start.errors@)
                + opt_evaluated_errors(end) + opt_evaluated_errors(step),
            final(self).same_state(old(self)),
    {
        self.evaluated_error(&start.errors);
        self.opt_evaluated(end);
        self.opt_evaluated(step);
    }

    pub fn case_statement(&mut self, exp: &Evaluated)
        ensures
            final(self).errors_view() == old(self).errors_view() + evaluated_errors(exp.errors@),
            final(self).same_state(old(self)),
    {
        self.evaluated_error(&exp.errors);
    }

    fn case_bound(&mut self, e: &Evaluated, range: TokenRange)
        ensures
            final(self).errors@ == old(self).errors@ + case_bound_errors(*e, range),
            final(self).same_state(old(self)),
    {
        self.evaluated_error(&e.errors);
        if !e.is_known_static() {
            self.errors.push(AnalyzerError::InvalidCaseConditionNonElaborative { range });
        }
        proof {
            assert(self.errors@ =~= old(self).errors@ + case_bound_errors(*e, range));
        }
    }

    /// The labels of a `case` item: every bound must be an elaboration-time
    /// constant.
    pub fn case_condition(&mut self, items: &Vec<CaseRangeItem>)
        ensures
            final(self).errors_view() == old(self).errors_view() + case_errors(items@),
            final(self).same_state(old(self)),
    {
        let mut i: usize = 0;
        proof {
            assert(items@.take(0) =~= Seq::<CaseRangeItem>::empty());
            assert(self.errors@ =~= old(self).errors@ + case_errors(items@.take(0)));
        }
        while i < items.len()
            invariant
                i <= items@.len(),
                self.errors@ == old(self).errors@ + case_errors(items@.take(i as int)),
                self.same_state(old(self)),
            decreases items@.len() - i,
        {
            proof {
                assert(items@.take(i + 1).drop_last() =~= items@.take(i as int));
            }
            let x = &items[i];
            self.case_bound(&x.start, x.start_range);
            match &x.end {
                Some(end) => self.case_bound(&end.0, end.1),
                None => {},
            }
            i += 1;
            proof {
                assert(self.errors@ =~= old(self).errors@ + case_errors(items@.take(i as int)));
            }
        }
        proof {
            assert(items@.take(items@.len() as int) =~= items@);
        }
    }

    /// The conditions of a `switch` item.
    pub fn switch_condition(&mut self, exps: &Vec<Evaluated>)
        ensures
            final(self).errors_view() == old(self).errors_view() + all_evaluated_errors(exps@),
            final(self).same_state(old(self)),
    {
        self.evaluated_list(exps);
    }

    pub fn let_declaration(&mut self, exp: &Evaluated)
        ensures
            final(self).errors_view() == old(self).errors_view() + evaluated_errors(exp.errors@),
            final(self).same_state(old(self)),
    {
        self.evaluated_error(&exp.errors);
    }

    pub fn const_declaration(&mut self, exp: &Evaluated)
        ensures
            final(self).errors_view() == old(self).errors_view() + evaluated_errors(exp.errors@),
            final(self).same_state(old(self)),
    {
        self.evaluated_error(&exp.errors);
    }

    pub fn assign_declaration(&mut self, exp: &Evaluated)
        ensures
            final(self).errors_view() == old(self).errors_view() + evaluated_errors(exp.errors@),
            final(self).same_state(old(self)),
    {
        self.evaluated_error(&exp.errors);
    }

    /// An enum item, with its optional value.
    pub fn enum_item(&mut self, value: Option<&Evaluated>)
        ensures
            final(self).errors_view() == old(self).errors_view() + opt_evaluated_errors(value),
            final(self).same_state(old(self)),
    {
        self.opt_evaluated(value);
    }

    pub fn inst_declaration(&mut self)
        ensures
            final(self).errors_view() == old(self).errors_view(),
            final(self).in_inst_view() == (old(self).point_view() == HandlerPoint::Before),
            final(self).point_view() == old(self).point_view(),
            final(self).port_direction_view() == old(self).port_direction_view(),
            final(self).in_input_default_view() == old(self).in_input_default_view(),
            final(self).text_view() == old(self).text_view(),
    {
        match self.point {
            HandlerPoint::Before => self.in_inst_declaration = true,
            HandlerPoint::After => self.in_inst_declaration = false,
        }
    }

    pub fn with_parameter_item(&mut self, exp: &Evaluated)
        ensures
            final(self).errors_view() == old(self).errors_view() + evaluated_errors(exp.errors@),
            final(self).same_state(old(self)),
    {
        self.evaluated_error(&exp.errors);
    }

    /// A port with a concrete type: its direction, and its default value if
    /// it has one. The direction holds until the port is left.
    pub fn port_type_concrete(&mut self, direction: Direction, default_value: Option<&Evaluated>)
        ensures
            old(self).point_view() == HandlerPoint::Before ==> final(self).errors_view()
                == old(self).errors_view() + opt_evaluated_errors(default_value)
                && final(self).port_direction_view() == Some(direction),
            old(self).point_view() == HandlerPoint::After ==> final(self).errors_view() == old(self).errors_view()
                && final(self).port_direction_view() is None,
            final(self).point_view() == old(self).point_view(),
            final(self).in_input_default_view() == old(self).in_input_default_view(),
            final(self).in_inst_view() == old(self).in_inst_view(),
            final(self).text_view() == old(self).text_view(),
    {
        match self.point {
            HandlerPoint::Before => {
                self.port_direction = Some(direction);
                self.opt_evaluated(default_value);
            },
            HandlerPoint::After => self.port_direction = None,
        }
    }

    /// The default value of a port, which is entered within the port.
    pub fn port_default_value(&mut self)
        requires
            old(self).point_view() == HandlerPoint::Before ==> old(self).port_direction_view() is Some,
        ensures
            final(self).errors_view() == old(self).errors_view(),
            final(self).in_input_default_view() == (old(self).point_view() == HandlerPoint::Before
                && old(self).port_direction_view() == Some(Direction::Input)),
            final(self).point_view() == old(self).point_view(),
            final(self).port_direction_view() == old(self).port_direction_view(),
            final(self).in_inst_view() == old(self).in_inst_view(),
            final(self).text_view() == old(self).text_view(),
    {
        match self.point {
            HandlerPoint::Before => {
                self.in_input_port_default_value = match self.port_direction {
                    Some(Direction::Input) => true,
                    _ => false,
                };
            },
            HandlerPoint::After => self.in_input_port_default_value = false,
        }
    }

    /// A generate `if`: its condition and those of its `else if`s.
    pub fn generate_if_declaration(&mut self, cond: &Evaluated, else_ifs: &Vec<Evaluated>)
        ensures
            final(self).errors_view() == old(self).errors_view() + evaluated_errors(cond.errors@) + all_evaluated_errors(else_ifs@),
            final(self).same_state(old(self)),
    {
        self.evaluated_error(&cond.errors);
        self.evaluated_list(else_ifs);
    }

    /// A generate `for`: the start of its range, the optional end, and the
    /// optional step.
    pub fn generate_for_declaration(&mut self, start: &Evaluated, end: Option<&Evaluated>, step: Option<&Evaluated>)
        ensures
            final(self).errors_view() == old(self).errors_view() + evaluated_errors(start.errors@)
                + opt_evaluated_errors(end) + opt_evaluated_errors(step),
            final(self).same_state(old(self)),
    {
        self.evaluated_error(&start.errors);
        self.opt_evaluated(end);
        self.opt_evaluated(step);
    }
}

} // verus!
