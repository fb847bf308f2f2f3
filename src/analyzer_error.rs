use vstd::prelude::*;

verus! {

/// Byte range of a construct in the source text.
#[derive(Clone, Copy, Debug, PartialEq, Eq, Structural)]
pub struct TokenRange {
    pub beg: u64,
    pub end: u64,
}

/// What went wrong while evaluating a constant expression.
#[derive(Clone, Copy, Debug, PartialEq, Eq, Structural)]
pub enum EvaluatedErrorKind {
    DivisionByZero,
    ShiftOverflow,
    GenericUnbound,
    NonConstInConstContext,
}

/// An evaluation error and the expression it was found in.
#[derive(Clone, Copy, Debug, PartialEq, Eq, Structural)]
pub struct EvaluatedError {
    pub kind: EvaluatedErrorKind,
    pub range: TokenRange,
}

/// The value of an evaluated expression: known at elaboration time, with
/// its two's-complement bits and width, or depending on a run-time signal.
#[derive(Clone, Copy, Debug, PartialEq, Eq, Structural)]
pub enum EvaluatedValue {
    Known { bits: u128, width: u32, signed: bool },
    Unknown,
}

/// Result of evaluating one expression, with the errors met on the way.
#[derive(Debug)]
pub struct Evaluated {
    pub value: EvaluatedValue,
    pub errors: Vec<EvaluatedError>,
}

impl Evaluated {
    /// The expression is an elaboration-time constant.
    pub fn is_known_static(&self) -> (r: bool)
        ensures
            r == (self.value is Known),
    {
        match self.value {
            EvaluatedValue::Known { .. } => true,
            EvaluatedValue::Unknown => false,
        }
    }
}

/// A diagnostic of the semantic checkers.
#[derive(Debug)]
pub enum AnalyzerError {
    EvaluatedError { error: EvaluatedError },
    InvalidFactor { identifier: String, kind: String, range: TokenRange },
    InvalidCaseConditionNonElaborative { range: TokenRange },
    IncompatProto { module: String, proto: String, cause: String, range: TokenRange },
    MismatchType { name: String, expected: String, actual: String, range: TokenRange },
}

/// A diagnostic with its texts as character sequences.
pub enum AnalyzerErrorView {
    EvaluatedError { error: EvaluatedError },
    InvalidFactor { identifier: Seq<char>, kind: Seq<char>, range: TokenRange },
    InvalidCaseConditionNonElaborative { range: TokenRange },
    IncompatProto { module: Seq<char>, proto: Seq<char>, cause: Seq<char>, range: TokenRange },
    MismatchType { name: Seq<char>, expected: Seq<char>, actual: Seq<char>, range: TokenRange },
}

impl AnalyzerError {
    pub open spec fn view(&self) -> AnalyzerErrorView {
        match self {
            AnalyzerError::EvaluatedError { error } => AnalyzerErrorView::EvaluatedError { error: *error },
            AnalyzerError::InvalidFactor { identifier, kind, range } => AnalyzerErrorView::InvalidFactor {
                identifier: identifier@,
                kind: kind@,
                range: *range,
            },
            AnalyzerError::InvalidCaseConditionNonElaborative { range } => AnalyzerErrorView::InvalidCaseConditionNonElaborative { range: *range },
            AnalyzerError::IncompatProto { module, proto, cause, range } => AnalyzerErrorView::IncompatProto {
                module: module@,
                proto: proto@,
                cause: cause@,
                range: *range,
            },
            AnalyzerError::MismatchType { name, expected, actual, range } => AnalyzerErrorView::MismatchType {
                name: name@,
                expected: expected@,
                actual: actual@,
                range: *range,
            },
        }
    }
}

/// The views of a sequence of diagnostics.
pub open spec fn errors_view(errors: Seq<AnalyzerError>) -> Seq<AnalyzerErrorView> {
    errors.map_values(|e: AnalyzerError| e.view())
}

} // verus!
