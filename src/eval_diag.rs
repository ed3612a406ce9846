use crate::diag::Diag as ParseDiag;
use crate::number::push_decimal;
use crate::obj::{operation_name, OperationKind};
use vstd::prelude::*;
use vstd::string::StringExecFns;

verus! {

/// Why an evaluation failed, as mathematics.
pub enum Failure {
    MalformedLiteral(Seq<char>),
    NotFoundInScope(Seq<char>),
    AlreadyDeclaredInScope(Seq<char>),
    UndefinedOperation(OperationKind, Seq<char>),
    OutOfRange(Seq<char>),
    Unsupported(Seq<char>),
}

/// Why an evaluation failed.
#[derive(Clone, Debug)]
pub enum EvalError {
    /// The text of a literal gives no number.
    MalformedLiteral { lit: String },
    /// No active scope frame holds the name.
    NotFoundInScope { name: String },
    /// The current scope frame holds the name already.
    AlreadyDeclaredInScope { name: String },
    /// The operation is not defined on operands of these kinds.
    UndefinedOperation { op: OperationKind, operand: String },
    /// A number, written or computed, leaves the range that numbers are
    /// kept in.
    OutOfRange { text: String },
    /// The construct is read but has no meaning yet.
    Unsupported { what: String },
}

impl View for EvalError {
    type V = Failure;

    open spec fn view(&self) -> Failure {
        match self {
            EvalError::MalformedLiteral { lit } => Failure::MalformedLiteral(lit@),
            EvalError::NotFoundInScope { name } => Failure::NotFoundInScope(name@),
            EvalError::AlreadyDeclaredInScope { name } => Failure::AlreadyDeclaredInScope(name@),
            EvalError::UndefinedOperation { op, operand } => Failure::UndefinedOperation(
                *op,
                operand@,
            ),
            EvalError::OutOfRange { text } => Failure::OutOfRange(text@),
            EvalError::Unsupported { what } => Failure::Unsupported(what@),
        }
    }
}

pub open spec fn failure_message(f: Failure) -> Seq<char> {
    match f {
        Failure::MalformedLiteral(lit) => "Malformed literal: "@ + lit,
        Failure::NotFoundInScope(name) => "Identifier '"@ + name + "' is not found in scope"@,
        Failure::AlreadyDeclaredInScope(name) => "Identifier '"@ + name
            + "' is already declared in scope"@,
        Failure::UndefinedOperation(op, operand) => "Undefined operation: "@ + operation_name(op)
            + " with "@ + operand,
        Failure::OutOfRange(text) => "Number out of range: "@ + text,
        Failure::Unsupported(what) => "Not supported yet: "@ + what,
    }
}

impl EvalError {
    /// The human-readable message.
    pub fn message(&self) -> (r: String)
        ensures
            r@ == failure_message(self@),
    {
        match self {
            EvalError::MalformedLiteral { lit } => {
                let mut r = String::from_str("Malformed literal: ");
                r.append(lit.as_str());
                r
            },
            EvalError::NotFoundInScope { name } => {
                let mut r = String::from_str("Identifier '");
                r.append(name.as_str());
                r.append("' is not found in scope");
                r
            },
            EvalError::AlreadyDeclaredInScope { name } => {
                let mut r = String::from_str("Identifier '");
                r.append(name.as_str());
                r.append("' is already declared in scope");
                r
            },
            EvalError::UndefinedOperation { op, operand } => {
                let mut r = String::from_str("Undefined operation: ");
                r.append(op.name());
                r.append(" with ");
                r.append(operand.as_str());
                r
            },
            EvalError::OutOfRange { text } => {
                let mut r = String::from_str("Number out of range: ");
                r.append(text.as_str());
                r
            },
            EvalError::Unsupported { what } => {
                let mut r = String::from_str("Not supported yet: ");
                r.append(what.as_str());
                r
            },
        }
    }
}

/// A failure of a run: the parse or the evaluation of a statement.
#[derive(Debug)]
pub enum DiagData {
    ParseError(ParseDiag),
    EvalError(EvalError),
}

/// A failure of a run and the line it belongs to.
#[derive(Debug)]
pub struct Diag {
    pub line: u32,
    pub data: DiagData,
}

impl Diag {
    /// The diagnostic as one line: `Line <n>: <message>`.
    pub fn render(&self) -> (r: String)
        ensures
            r@ == "Line "@ + crate::number::int_digits(self.line as nat) + ": "@ + match self.data {
                DiagData::ParseError(d) => "Parse error: "@ + crate::diag::data_message(d.data),
                DiagData::EvalError(e) => "Evaluation error: "@ + failure_message(e@),
            },
    {
        let mut r = String::from_str("Line ");
        push_decimal(&mut r, self.line as u64);
        r.append(": ");
        match &self.data {
            DiagData::ParseError(d) => {
                r.append("Parse error: ");
                let m = d.data.message();
                r.append(m.as_str());
            },
            DiagData::EvalError(e) => {
                r.append("Evaluation error: ");
                let m = e.message();
                r.append(m.as_str());
            },
        }
        r
    }
}

} // verus!
