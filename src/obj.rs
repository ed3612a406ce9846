use crate::eval_diag::{EvalError, Failure};
use crate::number::{
    lemma_neg_positive, add_spec, div_spec, mul_spec, neg_spec, render_number, sub_spec, NumericalObj,
};
use vstd::prelude::*;
use vstd::string::StringExecFns;

verus! {

broadcast use {vstd::seq::axiom_seq_subrange_decreases, vstd::std_specs::vec::axiom_vec_index_decreases};

/// What a runtime value is, as mathematics.
pub enum Value {
    Undefined,
    Infinity(bool),
    Number(int, int),
    Text(Seq<char>),
    Tuple(Seq<Value>),
}

/// Text held by a string value, without its quotes.
#[derive(Clone, Debug)]
pub struct StringObj(pub String);

/// The elements of a tuple value.
#[derive(Debug)]
pub struct TupleObj(pub Vec<ValueObj>);

/// A runtime value.
#[derive(Debug)]
pub enum ValueObj {
    Undefined,
    Infinity { positive: bool },
    Numerical(NumericalObj),
    String(StringObj),
    Tuple(TupleObj),
}

pub open spec fn value_model(v: ValueObj) -> Value
    decreases v,
{
    match v {
        ValueObj::Undefined => Value::Undefined,
        ValueObj::Infinity { positive } => Value::Infinity(positive),
        ValueObj::Numerical(n) => Value::Number(n.num as int, n.den as int),
        ValueObj::String(s) => Value::Text(s.0@),
        ValueObj::Tuple(t) => Value::Tuple(values_model(t.0@)),
    }
}

pub open spec fn values_model(s: Seq<ValueObj>) -> Seq<Value>
    decreases s,
{
    if s.len() == 0 {
        Seq::empty()
    } else {
        values_model(s.drop_last()).push(value_model(s.last()))
    }
}

impl View for ValueObj {
    type V = Value;

    open spec fn view(&self) -> Value {
        value_model(*self)
    }
}

/// Every number in the value is in lowest terms with a positive denominator.
pub open spec fn value_wf(v: ValueObj) -> bool
    decreases v,
{
    match v {
        ValueObj::Numerical(n) => n.wf(),
        ValueObj::Tuple(t) => values_wf(t.0@),
        _ => true,
    }
}

pub open spec fn values_wf(s: Seq<ValueObj>) -> bool
    decreases s,
{
    if s.len() == 0 {
        true
    } else {
        values_wf(s.drop_last()) && value_wf(s.last())
    }
}

pub proof fn lemma_values_model_len(s: Seq<ValueObj>)
    ensures
        values_model(s).len() == s.len(),
    decreases s.len(),
{
    if s.len() > 0 {
        lemma_values_model_len(s.drop_last());
    }
}

pub proof fn lemma_values_push(s: Seq<ValueObj>, v: ValueObj)
    ensures
        values_model(s.push(v)) == values_model(s).push(value_model(v)),
        values_wf(s.push(v)) == (values_wf(s) && value_wf(v)),
{
    assert(s.push(v).drop_last() =~= s);
}

proof fn lemma_values_index(s: Seq<ValueObj>, i: int)
    requires
        0 <= i < s.len(),
    ensures
        values_model(s).len() == s.len(),
        values_model(s)[i] == value_model(s[i]),
        values_wf(s) ==> value_wf(s[i]),
    decreases s.len(),
{
    lemma_values_model_len(s);
    if i < s.len() - 1 {
        lemma_values_index(s.drop_last(), i);
    }
}

/// How deep tuples nest in a value.
pub open spec fn height(v: ValueObj) -> nat
    decreases v,
{
    match v {
        ValueObj::Tuple(t) => 1 + max_height(t.0@),
        _ => 0,
    }
}

pub open spec fn max_height(s: Seq<ValueObj>) -> nat
    decreases s,
{
    if s.len() == 0 {
        0
    } else {
        let a = max_height(s.drop_last());
        let b = height(s.last());
        if a < b {
            b
        } else {
            a
        }
    }
}

proof fn lemma_height_index(s: Seq<ValueObj>, i: int)
    requires
        0 <= i < s.len(),
    ensures
        height(s[i]) <= max_height(s),
    decreases s.len(),
{
    if i < s.len() - 1 {
        lemma_height_index(s.drop_last(), i);
    }
}

/// How an operand is described in a diagnostic: its kind, never its value.
pub open spec fn kind_phrase(v: Value) -> Seq<char> {
    match v {
        Value::Undefined => "an undefined value"@,
        Value::Infinity(_) => "a number"@,
        Value::Number(_, _) => "a number"@,
        Value::Text(_) => "a string"@,
        Value::Tuple(_) => "a tuple"@,
    }
}

/// The display form of a value.
pub open spec fn render_value(v: Value) -> Seq<char>
    decreases v,
{
    match v {
        Value::Undefined => "undefined"@,
        Value::Infinity(positive) => if positive {
            "+inf"@
        } else {
            "-inf"@
        },
        Value::Number(n, d) => render_number((n, d)),
        Value::Text(t) => "\""@ + t + "\""@,
        Value::Tuple(items) => "("@ + render_items(items) + ")"@,
    }
}

/// The display forms of `items`, joined by `, `.
pub open spec fn render_items(items: Seq<Value>) -> Seq<char>
    decreases items,
{
    if items.len() == 0 {
        Seq::empty()
    } else if items.len() == 1 {
        render_value(items[0])
    } else {
        render_items(items.drop_last()) + ", "@ + render_value(items.last())
    }
}

impl ValueObj {
    /// A copy that holds the same value.
    pub fn duplicate(&self) -> (r: ValueObj)
        ensures
            r@ == self@,
            value_wf(r) == value_wf(*self),
        decreases height(*self),
    {
        match self {
            ValueObj::Undefined => ValueObj::Undefined,
            ValueObj::Infinity { positive } => ValueObj::Infinity { positive: *positive },
            ValueObj::Numerical(n) => ValueObj::Numerical(*n),
            ValueObj::String(s) => ValueObj::String(StringObj(s.0.clone())),
            ValueObj::Tuple(t) => {
                let mut items: Vec<ValueObj> = Vec::new();
                let mut i: usize = 0;
                proof {
                    assert(t.0@.take(0) =~= Seq::<ValueObj>::empty());
                }
                while i < t.0.len()
                    invariant
                        *self == ValueObj::Tuple(*t),
                        i <= t.0.len(),
                        values_model(items@) == values_model(t.0@.take(i as int)),
                        values_wf(items@) == values_wf(t.0@.take(i as int)),
                    decreases t.0.len() - i,
                {
                    proof {
                        lemma_height_index(t.0@, i as int);
                    }
                    let item = t.0[i].duplicate();
                    proof {
                        lemma_values_push(items@, item);
                        lemma_values_push(t.0@.take(i as int), t.0@[i as int]);
                        assert(t.0@.take(i as int).push(t.0@[i as int]) =~= t.0@.take(i + 1));
                    }
                    items.push(item);
                    i = i + 1;
                }
                proof {
                    assert(t.0@.take(i as int) =~= t.0@);
                }
                ValueObj::Tuple(TupleObj(items))
            },
        }
    }

    /// How this value is described as an operand: "a number", "a string",
    /// "a tuple" or "an undefined value".
    pub fn kind_phrase(&self) -> (r: &'static str)
        ensures
            r@ == kind_phrase(self@),
    {
        match self {
            ValueObj::Undefined => "an undefined value",
            ValueObj::Numerical(_) | ValueObj::Infinity { .. } => "a number",
            ValueObj::String(_) => "a string",
            ValueObj::Tuple(_) => "a tuple",
        }
    }

    /// The display form: a number in decimals, `+inf` or `-inf`, a string in
    /// quotes, a tuple as its elements in parentheses, or `undefined`.
    pub fn render(&self) -> (r: String)
        requires
            value_wf(*self),
        ensures
            r@ == render_value(self@),
        decreases height(*self),
    {
        match self {
            ValueObj::Undefined => String::from_str("undefined"),
            ValueObj::Infinity { positive } => {
                if *positive {
                    String::from_str("+inf")
                } else {
                    String::from_str("-inf")
                }
            },
            ValueObj::Numerical(n) => n.render(),
            ValueObj::String(s) => {
                let mut out = String::from_str("\"");
                out.append(s.0.as_str());
                out.append("\"");
                out
            },
            ValueObj::Tuple(t) => {
                let mut out = String::from_str("(");
                let ghost items = values_model(t.0@);
                let mut i: usize = 0;
                proof {
                    lemma_values_model_len(t.0@);
                    assert(items.take(0) =~= Seq::<Value>::empty());
                }
                while i < t.0.len()
                    invariant
                        *self == ValueObj::Tuple(*t),
                        i <= t.0.len(),
                        items == values_model(t.0@),
                        items.len() == t.0.len(),
                        values_wf(t.0@),
                        out@ == "("@ + render_items(items.take(i as int)),
                    decreases t.0.len() - i,
                {
                    proof {
                        lemma_values_index(t.0@, i as int);
                        assert(items.take(i + 1).drop_last() =~= items.take(i as int));
                    }
                    if i > 0 {
                        out.append(", ");
                    }
                    proof {
                        lemma_height_index(t.0@, i as int);
                    }
                    let piece = t.0[i].render();
                    out.append(piece.as_str());
                    proof {
                        if i == 0 {
                            assert(items.take(1) =~= seq![items[0]]);
                            assert(render_items(items.take(1)) == render_value(items[0]));
                            assert(out@ =~= "("@ + render_items(items.take(1)));
                        } else {
                            assert(out@ =~= "("@ + render_items(items.take(i + 1)));
                        }
                    }
                    i = i + 1;
                }
                out.append(")");
                proof {
                    assert(items.take(i as int) =~= items);
                }
                out
            },
        }
    }
}

/// An arithmetic operation of the language.
#[derive(Clone, Copy, Debug, PartialEq, Eq, Structural)]
pub enum OperationKind {
    Add,
    Subtract,
    Multiply,
    Divide,
    NegativePrefix,
}

pub open spec fn operation_name(k: OperationKind) -> Seq<char> {
    match k {
        OperationKind::Add => "add"@,
        OperationKind::Subtract => "subtract"@,
        OperationKind::Multiply => "multiply"@,
        OperationKind::Divide => "divide"@,
        OperationKind::NegativePrefix => "negative prefix"@,
    }
}

impl OperationKind {
    /// The word that names the operation in a diagnostic.
    pub fn name(&self) -> (r: &'static str)
        ensures
            r@ == operation_name(*self),
    {
        match self {
            OperationKind::Add => "add",
            OperationKind::Subtract => "subtract",
            OperationKind::Multiply => "multiply",
            OperationKind::Divide => "divide",
            OperationKind::NegativePrefix => "negative prefix",
        }
    }
}

pub open spec fn number_result(k: OperationKind, r: Option<(int, int)>) -> Result<Value, Failure> {
    match r {
        Some(v) => Ok(Value::Number(v.0, v.1)),
        None => Err(Failure::OutOfRange(operation_name(k))),
    }
}

/// What an operation gives on two operands (a prefix reads only the second).
/// Only numbers take part in arithmetic; a division by zero gives an infinity
/// with the sign of the dividend.
pub open spec fn operate(k: OperationKind, a: Value, b: Value) -> Result<Value, Failure> {
    if k == OperationKind::NegativePrefix {
        match b {
            Value::Number(n, d) => number_result(k, neg_spec((n, d))),
            _ => Err(Failure::UndefinedOperation(k, kind_phrase(b))),
        }
    } else {
        match (a, b) {
            (Value::Number(n1, d1), Value::Number(n2, d2)) => {
                let x = (n1, d1);
                let y = (n2, d2);
                match k {
                    OperationKind::Add => number_result(k, add_spec(x, y)),
                    OperationKind::Subtract => number_result(k, sub_spec(x, y)),
                    OperationKind::Multiply => number_result(k, mul_spec(x, y)),
                    _ => if n2 == 0 {
                        Ok(Value::Infinity(n1 >= 0))
                    } else {
                        number_result(k, div_spec(x, y))
                    },
                }
            },
            _ => Err(
                Failure::UndefinedOperation(k, kind_phrase(a) + " and "@ + kind_phrase(b)),
            ),
        }
    }
}

/// An operation applied to its operands.
pub struct Operation {
    pub kind: OperationKind,
    pub operands: (ValueObj, ValueObj),
}

pub open spec fn result_model(r: Result<ValueObj, EvalError>) -> Result<Value, Failure> {
    match r {
        Ok(v) => Ok(v@),
        Err(e) => Err(e@),
    }
}

pub open spec fn result_wf(r: Result<ValueObj, EvalError>) -> bool {
    match r {
        Ok(v) => value_wf(v),
        Err(_) => true,
    }
}

impl Operation {
    /// Applies the operation to its operands.
    pub fn evaluate(&self) -> (r: Result<ValueObj, EvalError>)
        requires
            value_wf(self.operands.0),
            value_wf(self.operands.1),
        ensures
            result_model(r) == operate(self.kind, self.operands.0@, self.operands.1@),
            result_wf(r),
    {
        let (a, b) = (&self.operands.0, &self.operands.1);
        if self.kind == OperationKind::NegativePrefix {
            return match b {
                ValueObj::Numerical(n) => Self::number(self.kind, n.neg()),
                _ => {
                    let operand = String::from_str(b.kind_phrase());
                    Err(EvalError::UndefinedOperation { op: self.kind, operand })
                },
            };
        }
        match (a, b) {
            (ValueObj::Numerical(x), ValueObj::Numerical(y)) => {
                match self.kind {
                    OperationKind::Add => Self::number(self.kind, x.add(y)),
                    OperationKind::Subtract => Self::number(self.kind, x.sub(y)),
                    OperationKind::Multiply => Self::number(self.kind, x.mul(y)),
                    _ => {
                        if y.is_zero() {
                            Ok(ValueObj::Infinity { positive: x.is_sign_positive() })
                        } else {
                            Self::number(self.kind, x.div(y))
                        }
                    },
                }
            },
            _ => {
                let mut operand = String::from_str(a.kind_phrase());
                operand.append(" and ");
                operand.append(b.kind_phrase());
                Err(EvalError::UndefinedOperation { op: self.kind, operand })
            },
        }
    }

    fn number(k: OperationKind, r: Option<NumericalObj>) -> (out: Result<ValueObj, EvalError>)
        requires
            crate::number::opt_wf(r),
        ensures
            result_model(out) == number_result(k, crate::number::opt_view(r)),
            result_wf(out),
    {
        match r {
            Some(v) => Ok(ValueObj::Numerical(v)),
            None => Err(EvalError::OutOfRange { text: String::from_str(k.name()) }),
        }
    }
}

/// Dividing a positive number by zero gives positive infinity, and dividing
/// its negation by zero gives negative infinity.
pub proof fn lemma_division_by_zero(n: int, d: int, z: int)
    requires
        0 < n <= i64::MAX,
        0 < d <= i64::MAX,
        z > 0,
    ensures
        operate(OperationKind::Divide, Value::Number(n, d), Value::Number(0, z)) == Ok::<
            Value,
            Failure,
        >(Value::Infinity(true)),
        ({
            let negated = operate(OperationKind::NegativePrefix, Value::Undefined, Value::Number(n, d));
            &&& negated is Ok
            &&& operate(OperationKind::Divide, negated->Ok_0, Value::Number(0, z)) == Ok::<
                Value,
                Failure,
            >(Value::Infinity(false))
        }),
{
    lemma_neg_positive(n, d);
}

} // verus!
