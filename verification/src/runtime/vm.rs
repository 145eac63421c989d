//! Stack-based bytecode runner for compiled Peps programs.
//!
//! The machine keeps an operand stack, the top-level variables, and one frame
//! of local variables per active call. Input values come first from a queue
//! and then from the caller's reader; float arithmetic is the caller's (see
//! [`crate::runtime::float`]).

use vstd::prelude::*;

use crate::backend::bytecode::{Instruction, Value};
use crate::common::diagnostic::Diagnostic;
use crate::common::numeric::{parse_decimal, trunc_div, Int};
use crate::common::text::{decimal, owned, push_decimal, push_str, signed_decimal, trim, trimmed};
use crate::frontend::ast::{ConversionKind, InputKind};
use crate::runtime::float::{
    float_equal, float_finite, float_integer, float_less, hosts, integer_value, is_finite, is_zero, order_key,
    printed_float, FloatOperation, FloatReply, FloatRequest,
};
use crate::runtime::value::{
    append_post, append_values, collection_get, collection_length, display, equiv, float_free, format_value,
    get_post, has_post, inserted, insert_entry, length_post, lookup, lookup_value, make_map, make_map_post,
    map_has, prints_as, result_view, has_key, law_insert_new_key_goes_last, law_insert_other_keys_unchanged,
    law_insert_present_key_keeps_position, RuntimeValue,
};

verus! {

/// Maximum instructions used for browser IDE executions.
pub const IDE_STEP_LIMIT: usize = 100_000;

/// Diagnostic prefix used when execution needs another input value.
pub const INPUT_REQUIRED_PREFIX: &'static str = "input required: ";

/// The message of the diagnostic a run stops with at its step limit.
pub open spec fn step_limit_message() -> Seq<char> {
    "execution step limit reached; the program may contain a non-terminating loop"@
}

/// Optional instruction limit for a VM execution.
#[derive(Debug, Clone, Copy, PartialEq, Eq)]
pub enum ExecutionLimit {
    /// Run until the program completes or encounters a runtime error.
    Unlimited,
    /// Stop after the given number of instructions.
    Steps(usize),
}

/// Runtime failure with any output produced before the error.
#[derive(Debug, Clone, PartialEq)]
pub struct RunError {
    /// Lines printed before execution failed.
    pub output: Vec<String>,
    /// Runtime diagnostics explaining the failure.
    pub diagnostics: Vec<Diagnostic>,
}

// ---------------------------------------------------------------------------
// Numbers
// ---------------------------------------------------------------------------

/// The name an arithmetic operation has in runtime diagnostics.
pub open spec fn operation_name(op: FloatOperation) -> Seq<char> {
    match op {
        FloatOperation::Add => "add"@,
        FloatOperation::Sub => "subtract"@,
        FloatOperation::Mul => "multiply"@,
        FloatOperation::Div => "divide"@,
    }
}

fn operation_text(op: FloatOperation) -> (r: &'static str)
    ensures
        r@ == operation_name(op),
{
    match op {
        FloatOperation::Add => "add",
        FloatOperation::Sub => "subtract",
        FloatOperation::Mul => "multiply",
        FloatOperation::Div => "divide",
    }
}

/// `first` followed by `second`.
fn concat(first: &str, second: &str) -> (r: String)
    ensures
        r@ == first@ + second@,
{
    let mut r = owned(first);
    push_str(&mut r, second);
    r
}

/// Whether a value is a number (an integer or a float).
pub open spec fn is_number(v: RuntimeValue) -> bool {
    v is Num || v is Float
}

/// `r` is what reading `text` as a float gives when the caller answers as
/// `host` allows: the float it answers with, or `None`.
pub open spec fn host_parses(host: spec_fn(FloatRequest, FloatReply) -> bool, text: Seq<char>, r: Option<u64>) -> bool {
    exists|request: String, reply: FloatReply| #[trigger] host(FloatRequest::Parse(request), reply) && request@ == text
        && r == match reply {
            FloatReply::Number(bits) => Some(bits),
            _ => None,
        }
}

/// `r` is the float read from `text`, refused with `not_float` when the text is
/// not a float and with `not_finite` when the float is not finite.
pub open spec fn finite_read(host: spec_fn(FloatRequest, FloatReply) -> bool, text: Seq<char>, not_float: Seq<char>, not_finite: Seq<char>, r: Result<RuntimeValue, Seq<char>>) -> bool {
    exists|p: Option<u64>| #[trigger] host_parses(host, text, p) && match p {
        Some(bits) => if float_finite(bits) {
            r == Ok::<RuntimeValue, Seq<char>>(RuntimeValue::Float(bits))
        } else {
            r == Err::<RuntimeValue, Seq<char>>(not_finite)
        },
        None => r == Err::<RuntimeValue, Seq<char>>(not_float),
    }
}

/// The message refusing an integer that a float cannot hold exactly.
pub open spec fn inexact_message(operation: Seq<char>) -> Seq<char> {
    operation + " cannot represent this integer exactly as a float"@
}

/// `r` is the integer `n` as a float: the float the caller reads from its
/// decimal text when that float is exactly `n`; refused otherwise.
pub open spec fn promoted(host: spec_fn(FloatRequest, FloatReply) -> bool, n: int, operation: Seq<char>, r: Result<u64, Seq<char>>) -> bool {
    exists|p: Option<u64>| #[trigger] host_parses(host, signed_decimal(n), p) && match p {
        Some(bits) => if float_integer(bits) == Some(n) {
            r == Ok::<u64, Seq<char>>(bits)
        } else {
            r == Err::<u64, Seq<char>>(inexact_message(operation))
        },
        None => r == Err::<u64, Seq<char>>(inexact_message(operation)),
    }
}

/// `r` is the number `v` as a float: a float as it is, an integer promoted exactly.
pub open spec fn as_float(host: spec_fn(FloatRequest, FloatReply) -> bool, v: RuntimeValue, operation: Seq<char>, r: Result<u64, Seq<char>>) -> bool {
    match v {
        RuntimeValue::Float(b) => r == Ok::<u64, Seq<char>>(b),
        RuntimeValue::Num(n) => promoted(host, n@, operation, r),
        _ => r == Err::<u64, Seq<char>>(operation + " requires a numeric value"@),
    }
}

/// `r` is what `then` gives for the numbers `x` and `y` as floats; a refusal to
/// take `x`, and then `y`, as a float is the result instead.
pub open spec fn with_floats<T>(host: spec_fn(FloatRequest, FloatReply) -> bool, x: RuntimeValue, y: RuntimeValue, operation: Seq<char>, r: Result<T, Seq<char>>, then: spec_fn(u64, u64) -> bool) -> bool {
    exists|xa: Result<u64, Seq<char>>| #[trigger] as_float(host, x, operation, xa) && match xa {
        Err(m) => r == Err::<T, Seq<char>>(m),
        Ok(a) => exists|ya: Result<u64, Seq<char>>| #[trigger] as_float(host, y, operation, ya) && match ya {
            Err(m) => r == Err::<T, Seq<char>>(m),
            Ok(b) => then(a, b),
        },
    }
}

/// `r` is the float result of `op` on `x` and `y`: refused on a division by
/// zero; otherwise what the caller answers, refused when it is not finite.
pub open spec fn float_result(host: spec_fn(FloatRequest, FloatReply) -> bool, op: FloatOperation, x: u64, y: u64, r: Result<RuntimeValue, Seq<char>>) -> bool {
    if op == FloatOperation::Div && order_key(y) == 0 {
        r == Err::<RuntimeValue, Seq<char>>("division by zero"@)
    } else {
        exists|reply: FloatReply| #[trigger] host(FloatRequest::Arithmetic(op, x, y), reply) && match reply {
            FloatReply::Number(bits) => if float_finite(bits) {
                r == Ok::<RuntimeValue, Seq<char>>(RuntimeValue::Float(bits))
            } else {
                r == Err::<RuntimeValue, Seq<char>>(operation_name(op) + " produced a non-finite float"@)
            },
            _ => r == Err::<RuntimeValue, Seq<char>>(operation_name(op) + " produced a non-finite float"@),
        }
    }
}

/// Read decimal text as a float, asking the caller; `None` when the text is not a float.
fn parse_float<F: Fn(FloatRequest) -> FloatReply>(text: &str, float_ops: &F) -> (r: Option<u64>)
    requires
        forall|q: FloatRequest| float_ops.requires((q,)),
    ensures
        host_parses(hosts(float_ops), text@, r),
{
    let ghost host = hosts(float_ops);
    let request = owned(text);
    let ghost asked = request;
    let reply = float_ops(FloatRequest::Parse(request));
    proof {
        assert(host(FloatRequest::Parse(asked), reply));
    }
    match reply {
        FloatReply::Number(bits) => Some(bits),
        _ => None,
    }
}

/// An integer as a float, refusing integers that a float cannot hold exactly.
fn integer_as_float<F: Fn(FloatRequest) -> FloatReply>(value: &Int, operation: &str, float_ops: &F) -> (r: Result<u64, String>)
    requires
        forall|q: FloatRequest| float_ops.requires((q,)),
    ensures
        r matches Ok(bits) ==> float_integer(bits) == Some(value@) && float_finite(bits),
        promoted(hosts(float_ops), value@, operation@, result_view(r)),
        exists|request: String, reply: FloatReply| #[trigger] float_ops.ensures((FloatRequest::Parse(request),), reply)
            && request@ == signed_decimal(value@) && match reply {
                FloatReply::Number(bits) => if float_integer(bits) == Some(value@) {
                    r == Ok::<u64, String>(bits)
                } else {
                    r matches Err(m) && m@ == operation@ + " cannot represent this integer exactly as a float"@
                },
                _ => r matches Err(m) && m@ == operation@ + " cannot represent this integer exactly as a float"@,
            },
{
    let failure = concat(operation, " cannot represent this integer exactly as a float");
    let text = value.to_decimal();
    match parse_float(text.as_str(), float_ops) {
        Some(bits) => match integer_value(bits) {
            Some(exact) => {
                if exact.equals(value) {
                    Ok(bits)
                } else {
                    Err(failure)
                }
            },
            None => Err(failure),
        },
        None => Err(failure),
    }
}

/// A float result, refused when it is not finite.
fn checked_float(bits: u64, operation: &str) -> (r: Result<RuntimeValue, String>)
    ensures
        match r {
            Ok(v) => float_finite(bits) && v == RuntimeValue::Float(bits),
            Err(m) => !float_finite(bits) && m@ == operation@ + " produced a non-finite float"@,
        },
{
    if is_finite(bits) {
        Ok(RuntimeValue::Float(bits))
    } else {
        Err(concat(operation, " produced a non-finite float"))
    }
}

/// A number as a float: floats as they are, integers when exactly representable.
fn number_as_float<F: Fn(FloatRequest) -> FloatReply>(value: &RuntimeValue, operation: &str, float_ops: &F) -> (r: Result<u64, String>)
    requires
        is_number(*value),
        forall|q: FloatRequest| float_ops.requires((q,)),
    ensures
        *value matches RuntimeValue::Float(b) ==> r == Ok::<u64, String>(b),
        r matches Ok(bits) ==> float_finite(bits) || *value is Float,
        as_float(hosts(float_ops), *value, operation@, result_view(r)),
{
    match value {
        RuntimeValue::Float(bits) => Ok(*bits),
        RuntimeValue::Num(n) => integer_as_float(n, operation, float_ops),
        _ => Err(concat(operation, " requires a numeric value")),
    }
}

/// Apply a float operation, asking the caller.
fn float_arithmetic<F: Fn(FloatRequest) -> FloatReply>(op: FloatOperation, left: u64, right: u64, float_ops: &F) -> (r: Result<RuntimeValue, String>)
    requires
        forall|q: FloatRequest| float_ops.requires((q,)),
    ensures
        r matches Ok(v) ==> (v matches RuntimeValue::Float(bits) && float_finite(bits)),
        float_result(hosts(float_ops), op, left, right, result_view(r)),
        op == FloatOperation::Div && order_key(right) == 0 ==> (r matches Err(m) && m@ == "division by zero"@),
        !(op == FloatOperation::Div && order_key(right) == 0) ==> exists|reply: FloatReply|
            #[trigger] float_ops.ensures((FloatRequest::Arithmetic(op, left, right),), reply) && match reply {
                FloatReply::Number(bits) => if float_finite(bits) {
                    r == Ok::<RuntimeValue, String>(RuntimeValue::Float(bits))
                } else {
                    r matches Err(m) && m@ == operation_name(op) + " produced a non-finite float"@
                },
                _ => r matches Err(m) && m@ == operation_name(op) + " produced a non-finite float"@,
            },
{
    let name = operation_text(op);
    if matches!(op, FloatOperation::Div) && is_zero(right) {
        return Err(owned("division by zero"));
    }
    let reply = float_ops(FloatRequest::Arithmetic(op, left, right));
    proof {
        assert(hosts(float_ops)(FloatRequest::Arithmetic(op, left, right), reply));
    }
    match reply {
        FloatReply::Number(bits) => checked_float(bits, name),
        _ => Err(concat(name, " produced a non-finite float")),
    }
}

/// The integer result of an arithmetic operation, when there is one.
pub open spec fn integer_arithmetic(op: FloatOperation, a: int, b: int) -> Option<int> {
    match op {
        FloatOperation::Add => Some(a + b),
        FloatOperation::Sub => Some(a - b),
        FloatOperation::Mul => Some(a * b),
        FloatOperation::Div => if b == 0 { None } else { Some(trunc_div(a, b)) },
    }
}

/// What `➕ ➖ ✖️ ➗` give for two operands: exact on integers (`➗` rounds
/// toward zero), concatenation on texts for `➕`, and a finite float when a float
/// is involved.
pub open spec fn arithmetic_post(host: spec_fn(FloatRequest, FloatReply) -> bool, op: FloatOperation, left: RuntimeValue, right: RuntimeValue, r: Result<RuntimeValue, Seq<char>>) -> bool {
    match (left, right) {
        (RuntimeValue::Num(a), RuntimeValue::Num(b)) => match integer_arithmetic(op, a@, b@) {
            Some(c) => r matches Ok(RuntimeValue::Num(n)) && n@ == c,
            None => r matches Err(m) && m == "division by zero"@,
        },
        (RuntimeValue::Str(a), RuntimeValue::Str(b)) => if op == FloatOperation::Add {
            r matches Ok(RuntimeValue::Str(s)) && s@ == a@ + b@
        } else {
            r matches Err(m) && m == operation_name(op) + " requires a numeric value"@
        },
        (x, y) => if is_number(x) && is_number(y) {
            with_floats(host, x, y, operation_name(op), r, |a: u64, b: u64| float_result(host, op, a, b, r))
        } else if op == FloatOperation::Add {
            r matches Err(m) && m == "add requires matching numeric or text values"@
        } else {
            r matches Err(m) && m == operation_name(op) + " requires a numeric value"@
        },
    }
}

/// `➕ ➖ ✖️ ➗` on two operands: exact on integers (`➗` rounds toward zero),
/// concatenation on texts for `➕`, and float arithmetic when a float is involved.
pub fn arithmetic<F: Fn(FloatRequest) -> FloatReply>(
    op: FloatOperation,
    left: RuntimeValue,
    right: RuntimeValue,
    float_ops: &F,
) -> (r: Result<RuntimeValue, String>)
    requires
        forall|q: FloatRequest| float_ops.requires((q,)),
    ensures
        arithmetic_post(hosts(float_ops), op, left, right, result_view(r)),
{
    let name = operation_text(op);
    match (left, right) {
        (RuntimeValue::Num(a), RuntimeValue::Num(b)) => match op {
            FloatOperation::Add => Ok(RuntimeValue::Num(a.add(&b))),
            FloatOperation::Sub => Ok(RuntimeValue::Num(a.sub(&b))),
            FloatOperation::Mul => Ok(RuntimeValue::Num(a.mul(&b))),
            FloatOperation::Div => {
                if b.is_zero() {
                    Err(owned("division by zero"))
                } else {
                    Ok(RuntimeValue::Num(a.div(&b)))
                }
            },
        },
        (RuntimeValue::Str(a), RuntimeValue::Str(b)) => {
            if matches!(op, FloatOperation::Add) {
                let mut s = a;
                push_str(&mut s, b.as_str());
                Ok(RuntimeValue::Str(s))
            } else {
                Err(concat(name, " requires a numeric value"))
            }
        },
        (a, b) => {
            let numbers = (matches!(a, RuntimeValue::Num(_)) || matches!(a, RuntimeValue::Float(_)))
                && (matches!(b, RuntimeValue::Num(_)) || matches!(b, RuntimeValue::Float(_)));
            if !numbers {
                if matches!(op, FloatOperation::Add) {
                    return Err(owned("add requires matching numeric or text values"));
                }
                return Err(concat(name, " requires a numeric value"));
            }
            let x = number_as_float(&a, name, float_ops)?;
            let y = number_as_float(&b, name, float_ops)?;
            float_arithmetic(op, x, y, float_ops)
        },
    }
}

/// An ordering comparison.
#[derive(Debug, Clone, Copy, PartialEq, Eq)]
pub enum Comparison {
    /// `◀️`
    Less,
    /// `▶️`
    Greater,
    /// `◀️🟰`
    LessOrEqual,
    /// `▶️🟰`
    GreaterOrEqual,
}

/// How a comparison decides between two ordered keys.
pub open spec fn compares(c: Comparison, a: int, b: int) -> bool {
    match c {
        Comparison::Less => a < b,
        Comparison::Greater => a > b,
        Comparison::LessOrEqual => a <= b,
        Comparison::GreaterOrEqual => a >= b,
    }
}

/// What `◀️ ▶️ ◀️🟰 ▶️🟰` give for two operands.
pub open spec fn compare_post(host: spec_fn(FloatRequest, FloatReply) -> bool, c: Comparison, left: RuntimeValue, right: RuntimeValue, r: Result<bool, Seq<char>>) -> bool {
    match (left, right) {
        (RuntimeValue::Num(a), RuntimeValue::Num(b)) => r == Ok::<bool, Seq<char>>(compares(c, a@, b@)),
        (RuntimeValue::Float(a), RuntimeValue::Float(b)) => r == Ok::<bool, Seq<char>>(compares(c, order_key(a), order_key(b))),
        (x, y) => if is_number(x) && is_number(y) {
            with_floats(host, x, y, "compare"@, r, |a: u64, b: u64| r == Ok::<bool, Seq<char>>(compares(c, order_key(a), order_key(b))))
        } else {
            r matches Err(m) && m == "compare requires a numeric value"@
        },
    }
}

/// `◀️ ▶️ ◀️🟰 ▶️🟰` on two numbers: exact on integers, by value on floats.
pub fn compare<F: Fn(FloatRequest) -> FloatReply>(
    c: Comparison,
    left: &RuntimeValue,
    right: &RuntimeValue,
    float_ops: &F,
) -> (r: Result<bool, String>)
    requires
        forall|q: FloatRequest| float_ops.requires((q,)),
    ensures
        compare_post(hosts(float_ops), c, *left, *right, result_view(r)),
{
    if !((matches!(left, RuntimeValue::Num(_)) || matches!(left, RuntimeValue::Float(_)))
        && (matches!(right, RuntimeValue::Num(_)) || matches!(right, RuntimeValue::Float(_)))) {
        return Err(owned("compare requires a numeric value"));
    }
    match (left, right) {
        (RuntimeValue::Num(a), RuntimeValue::Num(b)) => Ok(match c {
            Comparison::Less => a.less_than(b),
            Comparison::Greater => b.less_than(a),
            Comparison::LessOrEqual => !b.less_than(a),
            Comparison::GreaterOrEqual => !a.less_than(b),
        }),
        _ => {
            let x = number_as_float(left, "compare", float_ops)?;
            let y = number_as_float(right, "compare", float_ops)?;
            Ok(match c {
                Comparison::Less => float_less(x, y),
                Comparison::Greater => float_less(y, x),
                Comparison::LessOrEqual => !float_less(y, x),
                Comparison::GreaterOrEqual => !float_less(x, y),
            })
        },
    }
}

/// What `🟰🟰` gives for two operands.
pub open spec fn equal_post(host: spec_fn(FloatRequest, FloatReply) -> bool, left: RuntimeValue, right: RuntimeValue, r: Result<bool, Seq<char>>) -> bool {
    match (left, right) {
        (RuntimeValue::Num(a), RuntimeValue::Num(b)) => r == Ok::<bool, Seq<char>>(a@ == b@),
        (RuntimeValue::Float(a), RuntimeValue::Float(b)) => r == Ok::<bool, Seq<char>>(order_key(a) == order_key(b)),
        (RuntimeValue::Num(a), RuntimeValue::Float(b)) => exists|xa: Result<u64, Seq<char>>|
            #[trigger] promoted(host, a@, "compare equality"@, xa) && match xa {
                Err(m) => r == Err::<bool, Seq<char>>(m),
                Ok(x) => r == Ok::<bool, Seq<char>>(order_key(x) == order_key(b)),
            },
        (RuntimeValue::Float(a), RuntimeValue::Num(b)) => exists|ya: Result<u64, Seq<char>>|
            #[trigger] promoted(host, b@, "compare equality"@, ya) && match ya {
                Err(m) => r == Err::<bool, Seq<char>>(m),
                Ok(y) => r == Ok::<bool, Seq<char>>(order_key(a) == order_key(y)),
            },
        (RuntimeValue::Str(a), RuntimeValue::Str(b)) => r == Ok::<bool, Seq<char>>(a@ == b@),
        (RuntimeValue::Bool(a), RuntimeValue::Bool(b)) => r == Ok::<bool, Seq<char>>(a == b),
        (RuntimeValue::Emoji(a), RuntimeValue::Emoji(b)) => r == Ok::<bool, Seq<char>>(a@ == b@),
        _ => r matches Err(m) && m == "runtime equality requires matching scalar values"@,
    }
}

/// `🟰🟰` on two scalar values: integers, floats, texts, booleans and emoji.
pub fn values_equal<F: Fn(FloatRequest) -> FloatReply>(left: &RuntimeValue, right: &RuntimeValue, float_ops: &F) -> (r: Result<bool, String>)
    requires
        forall|q: FloatRequest| float_ops.requires((q,)),
    ensures
        equal_post(hosts(float_ops), *left, *right, result_view(r)),
{
    match (left, right) {
        (RuntimeValue::Num(a), RuntimeValue::Num(b)) => Ok(a.equals(b)),
        (RuntimeValue::Float(a), RuntimeValue::Float(b)) => Ok(float_equal(*a, *b)),
        (RuntimeValue::Num(a), RuntimeValue::Float(b)) => {
            let x = integer_as_float(a, "compare equality", float_ops)?;
            Ok(float_equal(x, *b))
        },
        (RuntimeValue::Float(a), RuntimeValue::Num(b)) => {
            let y = integer_as_float(b, "compare equality", float_ops)?;
            Ok(float_equal(*a, y))
        },
        (RuntimeValue::Str(a), RuntimeValue::Str(b)) => Ok(*a == *b),
        (RuntimeValue::Bool(a), RuntimeValue::Bool(b)) => Ok(*a == *b),
        (RuntimeValue::Emoji(a), RuntimeValue::Emoji(b)) => Ok(*a == *b),
        _ => Err(owned("runtime equality requires matching scalar values")),
    }
}

/// What `🔄` gives for a value.
pub open spec fn convert_post(host: spec_fn(FloatRequest, FloatReply) -> bool, kind: ConversionKind, value: RuntimeValue, r: Result<RuntimeValue, Seq<char>>) -> bool {
    match (kind, value) {
        (ConversionKind::Integer, RuntimeValue::Str(t)) => match parse_decimal(trimmed(t@)) {
            Some(n) => r matches Ok(RuntimeValue::Num(v)) && v@ == n,
            None => r matches Err(m) && m == "text is not a valid integer"@,
        },
        (ConversionKind::Integer, _) => r matches Err(m) && m == "integer conversion requires text"@,
        (ConversionKind::Float, RuntimeValue::Str(t)) => finite_read(host, trimmed(t@), "text is not a valid float"@,
            "float conversion must produce a finite value"@, r),
        (ConversionKind::Float, RuntimeValue::Num(n)) => finite_read(host, signed_decimal(n@),
            "integer is too large to convert to a finite float"@, "integer is too large to convert to a finite float"@, r),
        (ConversionKind::Float, _) => r matches Err(m) && m == "float conversion requires text or an integer"@,
    }
}

/// `🔄`: explicit conversion of text to an integer, or of text or an integer to a float.
pub fn convert_value<F: Fn(FloatRequest) -> FloatReply>(kind: ConversionKind, value: RuntimeValue, float_ops: &F) -> (r: Result<RuntimeValue, String>)
    requires
        forall|q: FloatRequest| float_ops.requires((q,)),
    ensures
        convert_post(hosts(float_ops), kind, value, result_view(r)),
{
    match (kind, value) {
        (ConversionKind::Integer, RuntimeValue::Str(text)) => match Int::parse_decimal(trim(text.as_str()).as_str()) {
            Some(n) => Ok(RuntimeValue::Num(n)),
            None => Err(owned("text is not a valid integer")),
        },
        (ConversionKind::Float, RuntimeValue::Str(text)) => match parse_float(trim(text.as_str()).as_str(), float_ops) {
            Some(bits) => {
                if is_finite(bits) {
                    Ok(RuntimeValue::Float(bits))
                } else {
                    Err(owned("float conversion must produce a finite value"))
                }
            },
            None => Err(owned("text is not a valid float")),
        },
        (ConversionKind::Float, RuntimeValue::Num(n)) => match parse_float(n.to_decimal().as_str(), float_ops) {
            Some(bits) => {
                if is_finite(bits) {
                    Ok(RuntimeValue::Float(bits))
                } else {
                    Err(owned("integer is too large to convert to a finite float"))
                }
            },
            None => Err(owned("integer is too large to convert to a finite float")),
        },
        (ConversionKind::Integer, _) => Err(owned("integer conversion requires text")),
        (ConversionKind::Float, _) => Err(owned("float conversion requires text or an integer")),
    }
}

/// The value read from raw input text for a typed input.
pub open spec fn input_post(host: spec_fn(FloatRequest, FloatReply) -> bool, kind: InputKind, raw: Seq<char>, r: Result<RuntimeValue, Seq<char>>) -> bool {
    match kind {
        InputKind::Text => r matches Ok(RuntimeValue::Str(t)) && t@ == raw,
        InputKind::Integer => match parse_decimal(trimmed(raw)) {
            Some(n) => r matches Ok(RuntimeValue::Num(v)) && v@ == n,
            None => r matches Err(m) && m == "input is not a valid integer"@,
        },
        InputKind::Float => finite_read(host, trimmed(raw), "input is not a valid float"@, "float input must be finite"@, r),
        InputKind::Bool => {
            let t = trimmed(raw);
            if t == "✅"@ || t == "true"@ {
                r == Ok::<RuntimeValue, Seq<char>>(RuntimeValue::Bool(true))
            } else if t == "❌"@ || t == "false"@ {
                r == Ok::<RuntimeValue, Seq<char>>(RuntimeValue::Bool(false))
            } else {
                r matches Err(m) && m == "boolean input must be ✅, ❌, true, or false"@
            }
        },
    }
}

/// Read a typed value from raw input text.
pub fn parse_input<F: Fn(FloatRequest) -> FloatReply>(kind: InputKind, raw: String, float_ops: &F) -> (r: Result<RuntimeValue, String>)
    requires
        forall|q: FloatRequest| float_ops.requires((q,)),
    ensures
        input_post(hosts(float_ops), kind, raw@, result_view(r)),
{
    match kind {
        InputKind::Text => Ok(RuntimeValue::Str(raw)),
        InputKind::Integer => match Int::parse_decimal(trim(raw.as_str()).as_str()) {
            Some(n) => Ok(RuntimeValue::Num(n)),
            None => Err(owned("input is not a valid integer")),
        },
        InputKind::Float => match parse_float(trim(raw.as_str()).as_str(), float_ops) {
            Some(bits) => {
                if is_finite(bits) {
                    Ok(RuntimeValue::Float(bits))
                } else {
                    Err(owned("float input must be finite"))
                }
            },
            None => Err(owned("input is not a valid float")),
        },
        InputKind::Bool => {
            let t = trim(raw.as_str());
            if t == owned("✅") || t == owned("true") {
                Ok(RuntimeValue::Bool(true))
            } else if t == owned("❌") || t == owned("false") {
                Ok(RuntimeValue::Bool(false))
            } else {
                Err(owned("boolean input must be ✅, ❌, true, or false"))
            }
        },
    }
}

/// The value a constant operand pushes.
pub open spec fn constant_post(host: spec_fn(FloatRequest, FloatReply) -> bool, value: Value, r: Result<RuntimeValue, Seq<char>>) -> bool {
    match value {
        Value::Num(n) => r matches Ok(RuntimeValue::Num(m)) && m@ == n@,
        Value::Str(s) => r matches Ok(RuntimeValue::Str(t)) && t@ == s@,
        Value::Bool(b) => r == Ok::<RuntimeValue, Seq<char>>(RuntimeValue::Bool(b)),
        Value::Emoji(s) => r matches Ok(RuntimeValue::Emoji(t)) && t@ == s@,
        Value::Float(t) => finite_read(host, t@, "float literal is not a valid float"@, "float literal must be finite"@, r),
    }
}

/// The value a constant operand pushes.
fn constant_value<F: Fn(FloatRequest) -> FloatReply>(value: &Value, float_ops: &F) -> (r: Result<RuntimeValue, String>)
    requires
        forall|q: FloatRequest| float_ops.requires((q,)),
    ensures
        constant_post(hosts(float_ops), *value, result_view(r)),
{
    match value {
        Value::Num(n) => Ok(RuntimeValue::Num(n.duplicate())),
        Value::Float(text) => match parse_float(text.as_str(), float_ops) {
            Some(bits) => {
                if is_finite(bits) {
                    Ok(RuntimeValue::Float(bits))
                } else {
                    Err(owned("float literal must be finite"))
                }
            },
            None => Err(owned("float literal is not a valid float")),
        },
        Value::Str(s) => Ok(RuntimeValue::Str(s.clone())),
        Value::Bool(b) => Ok(RuntimeValue::Bool(*b)),
        Value::Emoji(s) => Ok(RuntimeValue::Emoji(s.clone())),
    }
}

// ---------------------------------------------------------------------------
// The machine
// ---------------------------------------------------------------------------

/// The variables of one active call (the first frame belongs to the top level).
pub struct Frame {
    /// Where a return continues, or `None` for the top-level frame.
    pub return_address: Option<usize>,
    /// The stack height at the call, below the arguments.
    pub stack_base: usize,
    /// The call's variables.
    pub locals: Vec<(String, RuntimeValue)>,
}

pub struct Machine {
    /// Current instruction pointer.
    pub ip: usize,
    /// Operand stack used by bytecode instructions.
    pub stack: Vec<RuntimeValue>,
    /// Top-level variables shared by main and every function invocation.
    pub globals: Vec<(String, RuntimeValue)>,
    /// The main frame followed by one independent frame per active call.
    pub frames: Vec<Frame>,
    /// Formatted print output accumulated during execution.
    pub output: Vec<String>,
    /// Queued input lines, used before the reader is asked.
    pub inputs: Vec<String>,
    /// How many queued input lines have been used.
    pub next_input: usize,
}

// ---------------------------------------------------------------------------
// What one instruction does
// ---------------------------------------------------------------------------

/// The message of a diagnostic that reports an empty stack.
pub open spec fn underflow_text(operation: Seq<char>) -> Seq<char> {
    "stack underflow during "@ + operation
}

/// The `k`-th value from the top of the stack (`0` is the top).
pub open spec fn top(m: Machine, k: int) -> RuntimeValue {
    m.stack@[m.stack@.len() - 1 - k]
}

/// Everything but the stack and the instruction pointer is as it was.
pub open spec fn rest_unchanged(b: Machine, a: Machine) -> bool {
    &&& a.globals@ == b.globals@
    &&& a.frames@ == b.frames@
    &&& a.output@ == b.output@
    &&& a.inputs@ == b.inputs@
    &&& a.next_input == b.next_input
}

/// `a` is `b` after the current instruction took `pops` values off the stack,
/// pushed `v` and moved on.
pub open spec fn pushed_after(b: Machine, a: Machine, pops: nat, v: RuntimeValue) -> bool {
    &&& b.stack@.len() >= pops
    &&& a.stack@ == b.stack@.subrange(0, b.stack@.len() - pops).push(v)
    &&& a.ip == b.ip + 1
    &&& rest_unchanged(b, a)
}

/// A step that takes `pops` values and pushes what an operation gives, or
/// fails as it does.
pub open spec fn value_step(b: Machine, out: Result<Machine, Seq<char>>, pops: nat, post: spec_fn(Result<RuntimeValue, Seq<char>>) -> bool) -> bool {
    match out {
        Ok(a) => a.stack@.len() > 0 && post(Ok(a.stack@.last())) && pushed_after(b, a, pops, a.stack@.last()),
        Err(m) => post(Err(m)),
    }
}

/// A step that takes `pops` values and pushes the boolean an operation gives
/// (negated when `invert`), or fails as it does.
pub open spec fn bool_step(b: Machine, out: Result<Machine, Seq<char>>, pops: nat, post: spec_fn(Result<bool, Seq<char>>) -> bool, invert: bool) -> bool {
    match out {
        Ok(a) => a.stack@.len() > 0 && (a.stack@.last() matches RuntimeValue::Bool(y)
            && post(Ok(if invert { !y } else { y }))) && pushed_after(b, a, pops, a.stack@.last()),
        Err(m) => post(Err(m)),
    }
}

/// A step that needs `pops` values: with fewer, it fails with a stack underflow.
pub open spec fn needs(b: Machine, out: Result<Machine, Seq<char>>, pops: nat, operation: Seq<char>, then: bool) -> bool {
    if b.stack@.len() < pops {
        out == Err::<Machine, Seq<char>>(underflow_text(operation))
    } else {
        then
    }
}

/// The instruction pointer moved to `target`, nothing else changed.
pub open spec fn jumped(b: Machine, a: Machine, target: usize) -> bool {
    a.ip == target && a.stack@ == b.stack@ && rest_unchanged(b, a)
}

/// What executing the instruction at `b.ip` may give: the next machine, or
/// the message it fails with. Float arithmetic and a reader's lines are the
/// caller's, so steps that depend on them allow each answer they may give.
#[verifier::opaque]
pub open spec fn step_allows(
    code: Seq<Instruction>,
    reader: spec_fn(InputKind, Result<String, String>) -> bool,
    host: spec_fn(FloatRequest, FloatReply) -> bool,
    b: Machine,
    out: Result<Machine, Seq<char>>,
) -> bool {
    let n = b.stack@.len();
    match code[b.ip as int] {
        Instruction::LoadConst(v) => value_step(b, out, 0, |r: Result<RuntimeValue, Seq<char>>| constant_post(host, v, r)),
        Instruction::Input(kind) => if b.next_input < b.inputs@.len() {
            let raw = b.inputs@[b.next_input as int]@;
            match out {
                Ok(a) => a.stack@.len() > 0 && input_post(host, kind, raw, Ok(a.stack@.last()))
                    && a.stack@ == b.stack@.push(a.stack@.last()) && a.ip == b.ip + 1
                    && a.next_input == b.next_input + 1 && a.globals@ == b.globals@ && a.frames@ == b.frames@
                    && a.output@ == b.output@ && a.inputs@ == b.inputs@,
                Err(m) => input_post(host, kind, raw, Err(m)),
            }
        } else {
            exists|answer: Result<String, String>| #[trigger] reader(kind, answer) && match answer {
                Ok(line) => match out {
                    Ok(a) => a.stack@.len() > 0 && input_post(host, kind, line@, Ok(a.stack@.last()))
                        && pushed_after(b, a, 0, a.stack@.last()),
                    Err(m) => input_post(host, kind, line@, Err(m)),
                },
                Err(m) => out == Err::<Machine, Seq<char>>(m@),
            }
        },
        Instruction::Convert(kind) => needs(b, out, 1, "convert"@,
            value_step(b, out, 1, |r: Result<RuntimeValue, Seq<char>>| convert_post(host, kind, top(b, 0), r))),
        Instruction::LoadVar(name) => match lookup(b.globals@, name@) {
            Some(w) => out matches Ok(a) && a.stack@.len() > 0 && equiv(a.stack@.last(), w)
                && pushed_after(b, a, 0, a.stack@.last()),
            None => out == Err::<Machine, Seq<char>>("runtime variable "@ + name@ + " is not declared"@),
        },
        Instruction::StoreVar(name) => needs(b, out, 1, "store variable"@, out matches Ok(a)
            && a.stack@ == b.stack@.drop_last() && a.ip == b.ip + 1
            && a.globals@ == inserted(b.globals@, name, top(b, 0)) && a.frames@ == b.frames@
            && a.output@ == b.output@ && a.inputs@ == b.inputs@ && a.next_input == b.next_input),
        Instruction::LoadLocal(name) => match lookup(b.frames@.last().locals@, name@) {
            Some(w) => out matches Ok(a) && a.stack@.len() > 0 && equiv(a.stack@.last(), w)
                && pushed_after(b, a, 0, a.stack@.last()),
            None => out == Err::<Machine, Seq<char>>("runtime local "@ + name@ + " is not declared"@),
        },
        Instruction::StoreLocal(name) => needs(b, out, 1, "store local"@, out matches Ok(a)
            && a.stack@ == b.stack@.drop_last() && a.ip == b.ip + 1 && a.globals@ == b.globals@
            && a.frames@.len() == b.frames@.len() && a.frames@.drop_last() == b.frames@.drop_last()
            && a.frames@.last().locals@ == inserted(b.frames@.last().locals@, name, top(b, 0))
            && a.frames@.last().return_address == b.frames@.last().return_address
            && a.frames@.last().stack_base == b.frames@.last().stack_base
            && a.output@ == b.output@ && a.inputs@ == b.inputs@ && a.next_input == b.next_input),
        Instruction::Add => needs(b, out, 2, "add"@, value_step(b, out, 2,
            |r: Result<RuntimeValue, Seq<char>>| arithmetic_post(host, FloatOperation::Add, top(b, 1), top(b, 0), r))),
        Instruction::Sub => needs(b, out, 2, "subtract"@, value_step(b, out, 2,
            |r: Result<RuntimeValue, Seq<char>>| arithmetic_post(host, FloatOperation::Sub, top(b, 1), top(b, 0), r))),
        Instruction::Mul => needs(b, out, 2, "multiply"@, value_step(b, out, 2,
            |r: Result<RuntimeValue, Seq<char>>| arithmetic_post(host, FloatOperation::Mul, top(b, 1), top(b, 0), r))),
        Instruction::Div => needs(b, out, 2, "divide"@, value_step(b, out, 2,
            |r: Result<RuntimeValue, Seq<char>>| arithmetic_post(host, FloatOperation::Div, top(b, 1), top(b, 0), r))),
        Instruction::Eq => needs(b, out, 2, "compare equality"@, bool_step(b, out, 2,
            |r: Result<bool, Seq<char>>| equal_post(host, top(b, 1), top(b, 0), r), false)),
        Instruction::NotEq => needs(b, out, 2, "compare equality"@, bool_step(b, out, 2,
            |r: Result<bool, Seq<char>>| equal_post(host, top(b, 1), top(b, 0), r), true)),
        Instruction::Lt => needs(b, out, 2, "compare"@, bool_step(b, out, 2,
            |r: Result<bool, Seq<char>>| compare_post(host, Comparison::Less, top(b, 1), top(b, 0), r), false)),
        Instruction::Gt => needs(b, out, 2, "compare"@, bool_step(b, out, 2,
            |r: Result<bool, Seq<char>>| compare_post(host, Comparison::Greater, top(b, 1), top(b, 0), r), false)),
        Instruction::LtEq => needs(b, out, 2, "compare"@, bool_step(b, out, 2,
            |r: Result<bool, Seq<char>>| compare_post(host, Comparison::LessOrEqual, top(b, 1), top(b, 0), r), false)),
        Instruction::GtEq => needs(b, out, 2, "compare"@, bool_step(b, out, 2,
            |r: Result<bool, Seq<char>>| compare_post(host, Comparison::GreaterOrEqual, top(b, 1), top(b, 0), r), false)),
        Instruction::MakeList(c) => if n < c {
            out == Err::<Machine, Seq<char>>("not enough values on the stack to build list"@)
        } else {
            out matches Ok(a) && a.stack@.len() > 0 && pushed_after(b, a, c as nat, a.stack@.last())
                && (a.stack@.last() matches RuntimeValue::List(xs) && xs@ == b.stack@.subrange(n - c, n as int))
        },
        Instruction::MakeMap(c) => if 2 * c > usize::MAX {
            out == Err::<Machine, Seq<char>>("map is too large"@)
        } else if n < 2 * c {
            out == Err::<Machine, Seq<char>>("not enough values on the stack to build map"@)
        } else {
            value_step(b, out, (2 * c) as nat, |r: Result<RuntimeValue, Seq<char>>|
                make_map_post(b.stack@.subrange(n - 2 * c, n as int), c as nat, r))
        },
        Instruction::ListLen => needs(b, out, 1, "collection length"@, match out {
            Ok(a) => a.stack@.len() > 0 && (a.stack@.last() matches RuntimeValue::Num(x)
                && 0 <= x@ <= usize::MAX && length_post(top(b, 0), Ok(x@ as usize)))
                && pushed_after(b, a, 1, a.stack@.last()),
            Err(m) => length_post(top(b, 0), Err(m)),
        }),
        Instruction::ListGet => needs(b, out, 2, "collection lookup"@, value_step(b, out, 2,
            |r: Result<RuntimeValue, Seq<char>>| get_post(top(b, 1), top(b, 0), r))),
        Instruction::MapHas => needs(b, out, 2, "map key existence"@, bool_step(b, out, 2,
            |r: Result<bool, Seq<char>>| has_post(top(b, 1), top(b, 0), r), false)),
        Instruction::ListAppend => needs(b, out, 2, "collection append"@, value_step(b, out, 2,
            |r: Result<RuntimeValue, Seq<char>>| append_post(top(b, 1), top(b, 0), r))),
        Instruction::Print => needs(b, out, 1, "print"@, out matches Ok(a)
            && a.stack@ == b.stack@.drop_last() && a.ip == b.ip + 1
            && a.output@.len() == b.output@.len() + 1 && a.output@.drop_last() == b.output@
            && (float_free(top(b, 0)) ==> a.output@.last()@ == display(top(b, 0)))
            && (top(b, 0) matches RuntimeValue::Float(bits) ==> printed_float(host, bits, a.output@.last()@))
            && prints_as(host, top(b, 0), a.output@.last()@)
            && a.globals@ == b.globals@ && a.frames@ == b.frames@ && a.inputs@ == b.inputs@
            && a.next_input == b.next_input),
        Instruction::Pop => needs(b, out, 1, "discard call result"@, out matches Ok(a)
            && a.stack@ == b.stack@.drop_last() && a.ip == b.ip + 1 && rest_unchanged(b, a)),
        Instruction::Call { target, arity } => if target > code.len() {
            out == Err::<Machine, Seq<char>>("invalid jump target "@ + decimal(target as nat))
        } else if n < arity {
            out == Err::<Machine, Seq<char>>("not enough arguments on the stack for function call"@)
        } else {
            out matches Ok(a) && a.ip == target && a.stack@ == b.stack@ && a.globals@ == b.globals@
                && a.frames@.len() == b.frames@.len() + 1 && a.frames@.drop_last() == b.frames@
                && a.frames@.last().return_address == Some((b.ip + 1) as usize)
                && a.frames@.last().stack_base == n - arity && a.frames@.last().locals@.len() == 0
                && a.output@ == b.output@ && a.inputs@ == b.inputs@ && a.next_input == b.next_input
        },
        Instruction::Return => needs(b, out, 1, "return"@, if b.frames@.len() == 1 {
            out == Err::<Machine, Seq<char>>("return executed outside a function"@)
        } else {
            let f = b.frames@.last();
            let kept = if f.stack_base <= n - 1 { b.stack@.subrange(0, f.stack_base as int) } else { b.stack@.drop_last() };
            match f.return_address {
                Some(address) => out matches Ok(a) && a.ip == address && a.stack@ == kept.push(top(b, 0))
                    && a.frames@ == b.frames@.drop_last() && a.globals@ == b.globals@ && a.output@ == b.output@
                    && a.inputs@ == b.inputs@ && a.next_input == b.next_input,
                None => out == Err::<Machine, Seq<char>>("return executed outside a function"@),
            }
        }),
        Instruction::Jump(target) => if target > code.len() {
            out == Err::<Machine, Seq<char>>("invalid jump target "@ + decimal(target as nat))
        } else {
            out matches Ok(a) && jumped(b, a, target)
        },
        Instruction::JumpIfFalse(target) => if target > code.len() {
            out == Err::<Machine, Seq<char>>("invalid jump target "@ + decimal(target as nat))
        } else {
            needs(b, out, 1, "conditional jump"@, match top(b, 0) {
                RuntimeValue::Bool(condition) => out matches Ok(a) && a.stack@ == b.stack@.drop_last()
                    && a.ip == (if condition { (b.ip + 1) as usize } else { target }) && rest_unchanged(b, a),
                _ => out == Err::<Machine, Seq<char>>("conditional jump requires a bool value"@),
            })
        },
    }
}

/// Popping values leaves a prefix of the stack.
proof fn lemma_stack_prefixes(s: Seq<RuntimeValue>)
    ensures
        s.subrange(0, s.len() as int) == s,
        s.len() >= 1 ==> s.subrange(0, s.len() - 1) == s.drop_last(),
        s.len() >= 2 ==> s.subrange(0, s.len() - 2) == s.drop_last().drop_last(),
        s.len() >= 2 ==> s.drop_last().last() == s[s.len() - 2],
{
    assert(s.subrange(0, s.len() as int) =~= s);
    if s.len() >= 1 {
        assert(s.subrange(0, s.len() - 1) =~= s.drop_last());
    }
    if s.len() >= 2 {
        assert(s.subrange(0, s.len() - 2) =~= s.drop_last().drop_last());
    }
}

/// The message of a diagnostic that reports an empty stack.
fn underflow(operation: &str) -> (r: String)
    ensures
        r@ == underflow_text(operation@),
{
    concat("stack underflow during ", operation)
}

impl Machine {
    /// Pop one value from the operand stack.
    fn pop(&mut self, operation: &str) -> (r: Result<RuntimeValue, String>)
        ensures
            match r {
                Ok(v) => old(self).stack@.len() > 0 && v == old(self).stack@.last()
                    && final(self).stack@ == old(self).stack@.drop_last(),
                Err(m) => old(self).stack@.len() == 0 && m@ == underflow_text(operation@)
                    && final(self).stack@ == old(self).stack@,
            },
            final(self).ip == old(self).ip,
            rest_unchanged(*old(self), *final(self)),
    {
        match self.stack.pop() {
            Some(v) => Ok(v),
            None => Err(underflow(operation)),
        }
    }

    /// The next input line: queued lines first, then the reader.
    fn read<R: Fn(InputKind) -> Result<String, String>>(&mut self, kind: InputKind, read_input: &R) -> (r: Result<String, String>)
        requires
            forall|k: InputKind| read_input.requires((k,)),
        ensures
            final(self).ip == old(self).ip,
            final(self).stack@ == old(self).stack@,
            final(self).globals@ == old(self).globals@,
            final(self).frames@ == old(self).frames@,
            final(self).output@ == old(self).output@,
            final(self).inputs@ == old(self).inputs@,
            old(self).next_input < old(self).inputs@.len() ==> r == Ok::<String, String>(old(self).inputs@[old(self).next_input as int])
                && final(self).next_input == old(self).next_input + 1,
            old(self).next_input >= old(self).inputs@.len() ==> final(self).next_input == old(self).next_input
                && read_input.ensures((kind,), r),
    {
        if self.next_input < self.inputs.len() {
            let line = self.inputs[self.next_input].clone();
            self.next_input = self.next_input + 1;
            Ok(line)
        } else {
            read_input(kind)
        }
    }

    /// The value of the top-level variable `name`.
    fn load_global(&self, name: &String) -> (r: Result<RuntimeValue, String>)
        ensures
            match lookup(self.globals@, name@) {
                Some(w) => r matches Ok(v) && equiv(v, w),
                None => result_view(r) == Err::<RuntimeValue, Seq<char>>("runtime variable "@ + name@ + " is not declared"@),
            },
    {
        match lookup_value(&self.globals, name.as_str()) {
            Some(v) => Ok(v),
            None => {
                let mut m = owned("runtime variable ");
                push_str(&mut m, name.as_str());
                push_str(&mut m, " is not declared");
                Err(m)
            },
        }
    }

    /// The value of the variable `name` of the current call.
    fn load_local(&self, name: &String) -> (r: Result<RuntimeValue, String>)
        requires
            self.frames@.len() > 0,
        ensures
            match lookup(self.frames@.last().locals@, name@) {
                Some(w) => r matches Ok(v) && equiv(v, w),
                None => result_view(r) == Err::<RuntimeValue, Seq<char>>("runtime local "@ + name@ + " is not declared"@),
            },
    {
        match lookup_value(&self.frames[self.frames.len() - 1].locals, name.as_str()) {
            Some(v) => Ok(v),
            None => {
                let mut m = owned("runtime local ");
                push_str(&mut m, name.as_str());
                push_str(&mut m, " is not declared");
                Err(m)
            },
        }
    }

    /// Store a value into the variable `name` of the current call.
    fn store_local(&mut self, name: String, value: RuntimeValue)
        requires
            old(self).frames@.len() > 0,
        ensures
            final(self).frames@.len() == old(self).frames@.len(),
            final(self).frames@.drop_last() == old(self).frames@.drop_last(),
            final(self).frames@.last().locals@ == inserted(old(self).frames@.last().locals@, name, value),
            final(self).frames@.last().return_address == old(self).frames@.last().return_address,
            final(self).frames@.last().stack_base == old(self).frames@.last().stack_base,
            final(self).ip == old(self).ip,
            final(self).stack@ == old(self).stack@,
            final(self).globals@ == old(self).globals@,
            final(self).output@ == old(self).output@,
            final(self).inputs@ == old(self).inputs@,
            final(self).next_input == old(self).next_input,
    {
        let mut frame = self.frames.pop().unwrap();
        insert_entry(&mut frame.locals, name, value);
        self.frames.push(frame);
        proof {
            assert(self.frames@.drop_last() =~= old(self).frames@.drop_last());
        }
    }

    /// Ensure a jump target points inside the instruction stream or just past it.
    fn validate_jump(target: usize, length: usize) -> (r: Result<(), String>)
        ensures
            match r {
                Ok(_) => target <= length,
                Err(m) => target > length && m@ == "invalid jump target "@ + decimal(target as nat),
            },
    {
        if target <= length {
            Ok(())
        } else {
            let mut m = owned("invalid jump target ");
            push_decimal(&mut m, target);
            Err(m)
        }
    }

    /// Push the value of an operation and move on.
    fn push_result(&mut self, value: RuntimeValue, length: usize)
        requires
            old(self).ip < length,
        ensures
            final(self).stack@ == old(self).stack@.push(value),
            final(self).ip == old(self).ip + 1,
            rest_unchanged(*old(self), *final(self)),
    {
        self.stack.push(value);
        self.ip = self.ip + 1;
    }

    /// Execute a constant, input, conversion or variable instruction.
    fn step_value<R: Fn(InputKind) -> Result<String, String>, F: Fn(FloatRequest) -> FloatReply>(
        &mut self,
        code: &[Instruction],
        read_input: &R,
        float_ops: &F,
    ) -> (r: Result<(), String>)
    requires
            old(self).ip < code@.len(),
            old(self).frames@.len() > 0,
            forall|k: InputKind| read_input.requires((k,)),
            forall|q: FloatRequest| float_ops.requires((q,)),
            (code@[old(self).ip as int] is LoadConst || code@[old(self).ip as int] is Input
                || code@[old(self).ip as int] is Convert || code@[old(self).ip as int] is LoadVar
                || code@[old(self).ip as int] is StoreVar || code@[old(self).ip as int] is LoadLocal
                || code@[old(self).ip as int] is StoreLocal),
        ensures
            final(self).frames@.len() > 0,
            step_allows(code@, reads(read_input), hosts(float_ops), *old(self), match r {
                Ok(_) => Ok::<Machine, Seq<char>>(*final(self)),
                Err(m) => Err::<Machine, Seq<char>>(m@),
            }),
            r is Err ==> final(self).output@ == old(self).output@,
    {
        reveal(step_allows);
        proof {
            lemma_stack_prefixes(self.stack@);
        }
        let length = code.len();
        let ghost b = *self;
        match &code[self.ip] {
            Instruction::LoadConst(value) => {
                let v = match constant_value(value, float_ops) {
                    Ok(x) => x,
                    Err(m) => {
                        assert(step_allows(code@, reads(read_input), hosts(float_ops), b, Err::<Machine, Seq<char>>(m@)));
                        return Err(m);
                    },
                };
                self.push_result(v, length);
                assert(step_allows(code@, reads(read_input), hosts(float_ops), b, Ok::<Machine, Seq<char>>(*self)));
            },
            Instruction::Input(kind) => {
                let got = self.read(*kind, read_input);
                let ghost answer = got;
                proof {
                    if b.next_input >= b.inputs@.len() {
                        assert(reads(read_input)(*kind, answer));
                    }
                }
                let raw = match got {
                    Ok(x) => x,
                    Err(m) => {
                        assert(step_allows(code@, reads(read_input), hosts(float_ops), b, Err::<Machine, Seq<char>>(m@)));
                        return Err(m);
                    },
                };
                let v = match parse_input(*kind, raw, float_ops) {
                    Ok(x) => x,
                    Err(m) => {
                        assert(step_allows(code@, reads(read_input), hosts(float_ops), b, Err::<Machine, Seq<char>>(m@)));
                        return Err(m);
                    },
                };
                self.push_result(v, length);
                assert(step_allows(code@, reads(read_input), hosts(float_ops), b, Ok::<Machine, Seq<char>>(*self)));
            },
            Instruction::Convert(kind) => {
                let value = match self.pop("convert") {
                    Ok(x) => x,
                    Err(m) => {
                        assert(step_allows(code@, reads(read_input), hosts(float_ops), b, Err::<Machine, Seq<char>>(m@)));
                        return Err(m);
                    },
                };
                let v = match convert_value(*kind, value, float_ops) {
                    Ok(x) => x,
                    Err(m) => {
                        assert(step_allows(code@, reads(read_input), hosts(float_ops), b, Err::<Machine, Seq<char>>(m@)));
                        return Err(m);
                    },
                };
                self.push_result(v, length);
                assert(step_allows(code@, reads(read_input), hosts(float_ops), b, Ok::<Machine, Seq<char>>(*self)));
            },
            Instruction::LoadVar(name) => {
                let v = match self.load_global(name) {
                    Ok(x) => x,
                    Err(m) => {
                        assert(step_allows(code@, reads(read_input), hosts(float_ops), b, Err::<Machine, Seq<char>>(m@)));
                        return Err(m);
                    },
                };
                self.push_result(v, length);
                assert(step_allows(code@, reads(read_input), hosts(float_ops), b, Ok::<Machine, Seq<char>>(*self)));
            },
            Instruction::StoreVar(name) => {
                let value = match self.pop("store variable") {
                    Ok(x) => x,
                    Err(m) => {
                        assert(step_allows(code@, reads(read_input), hosts(float_ops), b, Err::<Machine, Seq<char>>(m@)));
                        return Err(m);
                    },
                };
                insert_entry(&mut self.globals, name.clone(), value);
                self.ip = self.ip + 1;
                assert(step_allows(code@, reads(read_input), hosts(float_ops), b, Ok::<Machine, Seq<char>>(*self)));
            },
            Instruction::LoadLocal(name) => {
                let v = match self.load_local(name) {
                    Ok(x) => x,
                    Err(m) => {
                        assert(step_allows(code@, reads(read_input), hosts(float_ops), b, Err::<Machine, Seq<char>>(m@)));
                        return Err(m);
                    },
                };
                self.push_result(v, length);
                assert(step_allows(code@, reads(read_input), hosts(float_ops), b, Ok::<Machine, Seq<char>>(*self)));
            },
            Instruction::StoreLocal(name) => {
                let value = match self.pop("store local") {
                    Ok(x) => x,
                    Err(m) => {
                        assert(step_allows(code@, reads(read_input), hosts(float_ops), b, Err::<Machine, Seq<char>>(m@)));
                        return Err(m);
                    },
                };
                self.store_local(name.clone(), value);
                self.ip = self.ip + 1;
                assert(step_allows(code@, reads(read_input), hosts(float_ops), b, Ok::<Machine, Seq<char>>(*self)));
            },
            _ => {},
        }
        Ok(())
    }

    /// Execute an arithmetic, equality or ordering instruction.
    fn step_operator<R: Fn(InputKind) -> Result<String, String>, F: Fn(FloatRequest) -> FloatReply>(
        &mut self,
        code: &[Instruction],
        read_input: &R,
        float_ops: &F,
    ) -> (r: Result<(), String>)
    requires
            old(self).ip < code@.len(),
            old(self).frames@.len() > 0,
            forall|k: InputKind| read_input.requires((k,)),
            forall|q: FloatRequest| float_ops.requires((q,)),
            (code@[old(self).ip as int] is Add || code@[old(self).ip as int] is Sub
                || code@[old(self).ip as int] is Mul || code@[old(self).ip as int] is Div
                || code@[old(self).ip as int] is Eq || code@[old(self).ip as int] is NotEq
                || code@[old(self).ip as int] is Lt || code@[old(self).ip as int] is Gt
                || code@[old(self).ip as int] is LtEq || code@[old(self).ip as int] is GtEq),
        ensures
            final(self).frames@.len() > 0,
            step_allows(code@, reads(read_input), hosts(float_ops), *old(self), match r {
                Ok(_) => Ok::<Machine, Seq<char>>(*final(self)),
                Err(m) => Err::<Machine, Seq<char>>(m@),
            }),
            r is Err ==> final(self).output@ == old(self).output@,
    {
        reveal(step_allows);
        proof {
            lemma_stack_prefixes(self.stack@);
        }
        let length = code.len();
        let ghost b = *self;
        match &code[self.ip] {
            Instruction::Add | Instruction::Sub | Instruction::Mul | Instruction::Div => {
                let op = match &code[self.ip] {
                    Instruction::Add => FloatOperation::Add,
                    Instruction::Sub => FloatOperation::Sub,
                    Instruction::Mul => FloatOperation::Mul,
                    _ => FloatOperation::Div,
                };
                let name = operation_text(op);
                let right = match self.pop(name) {
                    Ok(x) => x,
                    Err(m) => {
                        assert(step_allows(code@, reads(read_input), hosts(float_ops), b, Err::<Machine, Seq<char>>(m@)));
                        return Err(m);
                    },
                };
                let left = match self.pop(name) {
                    Ok(x) => x,
                    Err(m) => {
                        assert(step_allows(code@, reads(read_input), hosts(float_ops), b, Err::<Machine, Seq<char>>(m@)));
                        return Err(m);
                    },
                };
                let v = match arithmetic(op, left, right, float_ops) {
                    Ok(x) => x,
                    Err(m) => {
                        assert(step_allows(code@, reads(read_input), hosts(float_ops), b, Err::<Machine, Seq<char>>(m@)));
                        return Err(m);
                    },
                };
                self.push_result(v, length);
                assert(step_allows(code@, reads(read_input), hosts(float_ops), b, Ok::<Machine, Seq<char>>(*self)));
            },
            Instruction::Eq | Instruction::NotEq => {
                let invert = matches!(&code[self.ip], Instruction::NotEq);
                let right = match self.pop("compare equality") {
                    Ok(x) => x,
                    Err(m) => {
                        assert(step_allows(code@, reads(read_input), hosts(float_ops), b, Err::<Machine, Seq<char>>(m@)));
                        return Err(m);
                    },
                };
                let left = match self.pop("compare equality") {
                    Ok(x) => x,
                    Err(m) => {
                        assert(step_allows(code@, reads(read_input), hosts(float_ops), b, Err::<Machine, Seq<char>>(m@)));
                        return Err(m);
                    },
                };
                let equal = match values_equal(&left, &right, float_ops) {
                    Ok(x) => x,
                    Err(m) => {
                        assert(step_allows(code@, reads(read_input), hosts(float_ops), b, Err::<Machine, Seq<char>>(m@)));
                        return Err(m);
                    },
                };
                self.push_result(RuntimeValue::Bool(if invert { !equal } else { equal }), length);
                assert(step_allows(code@, reads(read_input), hosts(float_ops), b, Ok::<Machine, Seq<char>>(*self)));
            },
            Instruction::Lt | Instruction::Gt | Instruction::LtEq | Instruction::GtEq => {
                let c = match &code[self.ip] {
                    Instruction::Lt => Comparison::Less,
                    Instruction::Gt => Comparison::Greater,
                    Instruction::LtEq => Comparison::LessOrEqual,
                    _ => Comparison::GreaterOrEqual,
                };
                let right = match self.pop("compare") {
                    Ok(x) => x,
                    Err(m) => {
                        assert(step_allows(code@, reads(read_input), hosts(float_ops), b, Err::<Machine, Seq<char>>(m@)));
                        return Err(m);
                    },
                };
                let left = match self.pop("compare") {
                    Ok(x) => x,
                    Err(m) => {
                        assert(step_allows(code@, reads(read_input), hosts(float_ops), b, Err::<Machine, Seq<char>>(m@)));
                        return Err(m);
                    },
                };
                let result = match compare(c, &left, &right, float_ops) {
                    Ok(x) => x,
                    Err(m) => {
                        assert(step_allows(code@, reads(read_input), hosts(float_ops), b, Err::<Machine, Seq<char>>(m@)));
                        return Err(m);
                    },
                };
                self.push_result(RuntimeValue::Bool(result), length);
                assert(step_allows(code@, reads(read_input), hosts(float_ops), b, Ok::<Machine, Seq<char>>(*self)));
            },
            _ => {},
        }
        Ok(())
    }

    /// Execute a list or map instruction.
    fn step_collection<R: Fn(InputKind) -> Result<String, String>, F: Fn(FloatRequest) -> FloatReply>(
        &mut self,
        code: &[Instruction],
        read_input: &R,
        float_ops: &F,
    ) -> (r: Result<(), String>)
    requires
            old(self).ip < code@.len(),
            old(self).frames@.len() > 0,
            forall|k: InputKind| read_input.requires((k,)),
            forall|q: FloatRequest| float_ops.requires((q,)),
            (code@[old(self).ip as int] is MakeList || code@[old(self).ip as int] is MakeMap
                || code@[old(self).ip as int] is ListLen || code@[old(self).ip as int] is ListGet
                || code@[old(self).ip as int] is MapHas || code@[old(self).ip as int] is ListAppend),
        ensures
            final(self).frames@.len() > 0,
            step_allows(code@, reads(read_input), hosts(float_ops), *old(self), match r {
                Ok(_) => Ok::<Machine, Seq<char>>(*final(self)),
                Err(m) => Err::<Machine, Seq<char>>(m@),
            }),
            r is Err ==> final(self).output@ == old(self).output@,
    {
        reveal(step_allows);
        proof {
            lemma_stack_prefixes(self.stack@);
        }
        let length = code.len();
        let ghost b = *self;
        match &code[self.ip] {
            Instruction::MakeList(count) => {
                if self.stack.len() < *count {
                    return Err(owned("not enough values on the stack to build list"));
                }
                let start = self.stack.len() - *count;
                let elements = self.stack.split_off(start);
                self.push_result(RuntimeValue::List(elements), length);
                assert(step_allows(code@, reads(read_input), hosts(float_ops), b, Ok::<Machine, Seq<char>>(*self)));
            },
            Instruction::MakeMap(count) => {
                let value_count = match count.checked_mul(2) {
                    Some(n) => n,
                    None => {
                        return Err(owned("map is too large"));
                    },
                };
                if self.stack.len() < value_count {
                    return Err(owned("not enough values on the stack to build map"));
                }
                let start = self.stack.len() - value_count;
                let values = self.stack.split_off(start);
                let map = match make_map(values, *count) {
                    Ok(x) => x,
                    Err(m) => {
                        assert(step_allows(code@, reads(read_input), hosts(float_ops), b, Err::<Machine, Seq<char>>(m@)));
                        return Err(m);
                    },
                };
                self.push_result(map, length);
                assert(step_allows(code@, reads(read_input), hosts(float_ops), b, Ok::<Machine, Seq<char>>(*self)));
            },
            Instruction::ListLen => {
                let value = match self.pop("collection length") {
                    Ok(x) => x,
                    Err(m) => {
                        assert(step_allows(code@, reads(read_input), hosts(float_ops), b, Err::<Machine, Seq<char>>(m@)));
                        return Err(m);
                    },
                };
                let n = match collection_length(&value) {
                    Ok(x) => x,
                    Err(m) => {
                        assert(step_allows(code@, reads(read_input), hosts(float_ops), b, Err::<Machine, Seq<char>>(m@)));
                        return Err(m);
                    },
                };
                self.push_result(RuntimeValue::Num(Int::from_usize(n)), length);
                assert(step_allows(code@, reads(read_input), hosts(float_ops), b, Ok::<Machine, Seq<char>>(*self)));
            },
            Instruction::ListGet => {
                let key = match self.pop("collection lookup") {
                    Ok(x) => x,
                    Err(m) => {
                        assert(step_allows(code@, reads(read_input), hosts(float_ops), b, Err::<Machine, Seq<char>>(m@)));
                        return Err(m);
                    },
                };
                let collection = match self.pop("collection lookup") {
                    Ok(x) => x,
                    Err(m) => {
                        assert(step_allows(code@, reads(read_input), hosts(float_ops), b, Err::<Machine, Seq<char>>(m@)));
                        return Err(m);
                    },
                };
                let v = match collection_get(collection, key) {
                    Ok(x) => x,
                    Err(m) => {
                        assert(step_allows(code@, reads(read_input), hosts(float_ops), b, Err::<Machine, Seq<char>>(m@)));
                        return Err(m);
                    },
                };
                self.push_result(v, length);
                assert(step_allows(code@, reads(read_input), hosts(float_ops), b, Ok::<Machine, Seq<char>>(*self)));
            },
            Instruction::MapHas => {
                let key = match self.pop("map key existence") {
                    Ok(x) => x,
                    Err(m) => {
                        assert(step_allows(code@, reads(read_input), hosts(float_ops), b, Err::<Machine, Seq<char>>(m@)));
                        return Err(m);
                    },
                };
                let map = match self.pop("map key existence") {
                    Ok(x) => x,
                    Err(m) => {
                        assert(step_allows(code@, reads(read_input), hosts(float_ops), b, Err::<Machine, Seq<char>>(m@)));
                        return Err(m);
                    },
                };
                let found = match map_has(&map, &key) {
                    Ok(x) => x,
                    Err(m) => {
                        assert(step_allows(code@, reads(read_input), hosts(float_ops), b, Err::<Machine, Seq<char>>(m@)));
                        return Err(m);
                    },
                };
                self.push_result(RuntimeValue::Bool(found), length);
                assert(step_allows(code@, reads(read_input), hosts(float_ops), b, Ok::<Machine, Seq<char>>(*self)));
            },
            Instruction::ListAppend => {
                let right = match self.pop("collection append") {
                    Ok(x) => x,
                    Err(m) => {
                        assert(step_allows(code@, reads(read_input), hosts(float_ops), b, Err::<Machine, Seq<char>>(m@)));
                        return Err(m);
                    },
                };
                let left = match self.pop("collection append") {
                    Ok(x) => x,
                    Err(m) => {
                        assert(step_allows(code@, reads(read_input), hosts(float_ops), b, Err::<Machine, Seq<char>>(m@)));
                        return Err(m);
                    },
                };
                let v = match append_values(left, right) {
                    Ok(x) => x,
                    Err(m) => {
                        assert(step_allows(code@, reads(read_input), hosts(float_ops), b, Err::<Machine, Seq<char>>(m@)));
                        return Err(m);
                    },
                };
                self.push_result(v, length);
                assert(step_allows(code@, reads(read_input), hosts(float_ops), b, Ok::<Machine, Seq<char>>(*self)));
            },
            _ => {},
        }
        Ok(())
    }

    /// Execute a print, discard, call, return or jump instruction.
    fn step_control<R: Fn(InputKind) -> Result<String, String>, F: Fn(FloatRequest) -> FloatReply>(
        &mut self,
        code: &[Instruction],
        read_input: &R,
        float_ops: &F,
    ) -> (r: Result<(), String>)
    requires
            old(self).ip < code@.len(),
            old(self).frames@.len() > 0,
            forall|k: InputKind| read_input.requires((k,)),
            forall|q: FloatRequest| float_ops.requires((q,)),
            (code@[old(self).ip as int] is Print || code@[old(self).ip as int] is Pop
                || code@[old(self).ip as int] is Call || code@[old(self).ip as int] is Return
                || code@[old(self).ip as int] is Jump || code@[old(self).ip as int] is JumpIfFalse),
        ensures
            final(self).frames@.len() > 0,
            step_allows(code@, reads(read_input), hosts(float_ops), *old(self), match r {
                Ok(_) => Ok::<Machine, Seq<char>>(*final(self)),
                Err(m) => Err::<Machine, Seq<char>>(m@),
            }),
            r is Err ==> final(self).output@ == old(self).output@,
    {
        reveal(step_allows);
        proof {
            lemma_stack_prefixes(self.stack@);
        }
        let length = code.len();
        let ghost b = *self;
        match &code[self.ip] {
            Instruction::Print => {
                let value = match self.pop("print") {
                    Ok(x) => x,
                    Err(m) => {
                        assert(step_allows(code@, reads(read_input), hosts(float_ops), b, Err::<Machine, Seq<char>>(m@)));
                        return Err(m);
                    },
                };
                let text = format_value(&value, float_ops);
                self.output.push(text);
                self.ip = self.ip + 1;
                assert(self.output@.drop_last() =~= b.output@);
                assert(step_allows(code@, reads(read_input), hosts(float_ops), b, Ok::<Machine, Seq<char>>(*self)));
            },
            Instruction::Pop => {
                match self.pop("discard call result") {
                    Ok(_) => {},
                    Err(m) => {
                        assert(step_allows(code@, reads(read_input), hosts(float_ops), b, Err::<Machine, Seq<char>>(m@)));
                        return Err(m);
                    },
                }
                self.ip = self.ip + 1;
                assert(step_allows(code@, reads(read_input), hosts(float_ops), b, Ok::<Machine, Seq<char>>(*self)));
            },
            Instruction::Call { target, arity } => {
                match Self::validate_jump(*target, length) {
                    Ok(_) => {},
                    Err(m) => {
                        assert(step_allows(code@, reads(read_input), hosts(float_ops), b, Err::<Machine, Seq<char>>(m@)));
                        return Err(m);
                    },
                }
                if self.stack.len() < *arity {
                    return Err(owned("not enough arguments on the stack for function call"));
                }
                let frame = Frame {
                    return_address: Some(self.ip + 1),
                    stack_base: self.stack.len() - *arity,
                    locals: Vec::new(),
                };
                self.frames.push(frame);
                self.ip = *target;
                assert(self.frames@.drop_last() =~= b.frames@);
                assert(step_allows(code@, reads(read_input), hosts(float_ops), b, Ok::<Machine, Seq<char>>(*self)));
            },
            Instruction::Return => {
                let value = match self.pop("return") {
                    Ok(x) => x,
                    Err(m) => {
                        assert(step_allows(code@, reads(read_input), hosts(float_ops), b, Err::<Machine, Seq<char>>(m@)));
                        return Err(m);
                    },
                };
                if self.frames.len() == 1 {
                    return Err(owned("return executed outside a function"));
                }
                let frame = self.frames.pop().unwrap();
                match frame.return_address {
                    Some(address) => {
                        assert(b.stack@.drop_last().subrange(0, frame.stack_base as int)
                            =~= b.stack@.subrange(0, frame.stack_base as int) || frame.stack_base > b.stack@.len() - 1);
                        self.stack.truncate(frame.stack_base);
                        self.stack.push(value);
                        self.ip = address;
                        assert(step_allows(code@, reads(read_input), hosts(float_ops), b, Ok::<Machine, Seq<char>>(*self)));
                    },
                    None => {
                        return Err(owned("return executed outside a function"));
                    },
                }
            },
            Instruction::Jump(target) => {
                match Self::validate_jump(*target, length) {
                    Ok(_) => {},
                    Err(m) => {
                        assert(step_allows(code@, reads(read_input), hosts(float_ops), b, Err::<Machine, Seq<char>>(m@)));
                        return Err(m);
                    },
                }
                self.ip = *target;
                assert(step_allows(code@, reads(read_input), hosts(float_ops), b, Ok::<Machine, Seq<char>>(*self)));
            },
            Instruction::JumpIfFalse(target) => {
                match Self::validate_jump(*target, length) {
                    Ok(_) => {},
                    Err(m) => {
                        assert(step_allows(code@, reads(read_input), hosts(float_ops), b, Err::<Machine, Seq<char>>(m@)));
                        return Err(m);
                    },
                }
                let popped = match self.pop("conditional jump") {
                    Ok(x) => x,
                    Err(m) => {
                        assert(step_allows(code@, reads(read_input), hosts(float_ops), b, Err::<Machine, Seq<char>>(m@)));
                        return Err(m);
                    },
                };
                let condition = match popped {
                    RuntimeValue::Bool(b) => b,
                    _ => {
                        return Err(owned("conditional jump requires a bool value"));
                    },
                };
                if condition {
                    self.ip = self.ip + 1;
                    assert(step_allows(code@, reads(read_input), hosts(float_ops), b, Ok::<Machine, Seq<char>>(*self)));
                } else {
                    self.ip = *target;
                    assert(step_allows(code@, reads(read_input), hosts(float_ops), b, Ok::<Machine, Seq<char>>(*self)));
                }
            },
            _ => {},
        }
        Ok(())
    }

    /// Execute the instruction at the instruction pointer.
    fn step<R: Fn(InputKind) -> Result<String, String>, F: Fn(FloatRequest) -> FloatReply>(
        &mut self,
        code: &[Instruction],
        read_input: &R,
        float_ops: &F,
    ) -> (r: Result<(), String>)
        requires
            old(self).ip < code@.len(),
            old(self).frames@.len() > 0,
            forall|k: InputKind| read_input.requires((k,)),
            forall|q: FloatRequest| float_ops.requires((q,)),
        ensures
            final(self).frames@.len() > 0,
            step_allows(code@, reads(read_input), hosts(float_ops), *old(self), match r {
                Ok(_) => Ok::<Machine, Seq<char>>(*final(self)),
                Err(m) => Err::<Machine, Seq<char>>(m@),
            }),
            r is Err ==> final(self).output@ == old(self).output@,
    {
        match &code[self.ip] {
            Instruction::LoadConst(_) | Instruction::Input(_) | Instruction::Convert(_) | Instruction::LoadVar(_)
            | Instruction::StoreVar(_) | Instruction::LoadLocal(_) | Instruction::StoreLocal(_) => {
                self.step_value(code, read_input, float_ops)
            },
            Instruction::Add | Instruction::Sub | Instruction::Mul | Instruction::Div | Instruction::Eq
            | Instruction::NotEq | Instruction::Lt | Instruction::Gt | Instruction::LtEq | Instruction::GtEq => {
                self.step_operator(code, read_input, float_ops)
            },
            Instruction::MakeList(_) | Instruction::MakeMap(_) | Instruction::ListLen | Instruction::ListGet
            | Instruction::MapHas | Instruction::ListAppend => self.step_collection(code, read_input, float_ops),
            _ => self.step_control(code, read_input, float_ops),
        }
    }
}

/// The message a run stops with when it has used its step budget.
pub open spec fn stop_message(limit: ExecutionLimit) -> Seq<char> {
    match limit {
        ExecutionLimit::Steps(_) => step_limit_message(),
        ExecutionLimit::Unlimited => "execution stopped after the largest number of steps a run can count"@,
    }
}

/// How many instructions a run may execute: the limit, or `usize::MAX` for an
/// unlimited run.
pub open spec fn step_budget(limit: ExecutionLimit) -> nat {
    match limit {
        ExecutionLimit::Steps(n) => n as nat,
        ExecutionLimit::Unlimited => usize::MAX as nat,
    }
}

/// The state a run starts in: the first instruction, nothing on the stack, no
/// variables, one top-level frame, no output, and the queued inputs unused.
pub open spec fn initial_machine(m: Machine, inputs: Seq<String>) -> bool {
    &&& m.ip == 0
    &&& m.stack@.len() == 0
    &&& m.globals@.len() == 0
    &&& m.frames@.len() == 1
    &&& m.frames@[0].return_address is None
    &&& m.frames@[0].stack_base == 0
    &&& m.frames@[0].locals@.len() == 0
    &&& m.output@.len() == 0
    &&& m.inputs@ == inputs
    &&& m.next_input == 0
}

/// Each machine state follows from the one before by executing one instruction.
pub open spec fn steps_through(
    code: Seq<Instruction>,
    reader: spec_fn(InputKind, Result<String, String>) -> bool,
    host: spec_fn(FloatRequest, FloatReply) -> bool,
    trace: Seq<Machine>,
) -> bool {
    forall|i: int| #![trigger trace[i]] 0 <= i < trace.len() - 1 ==> trace[i].ip < code.len()
        && step_allows(code, reader, host, trace[i], Ok(trace[i + 1]))
}

/// What running `code` from the start with queued `inputs` may give, where
/// `reader` says what the reader may answer once the queue is used up: the
/// output of a run that executes instructions one by one (within the step
/// budget) until the instruction pointer leaves the code; or the output so far
/// and a message, when an instruction fails (a reader's error among them) or
/// the budget runs out first.
pub open spec fn run_allows(
    code: Seq<Instruction>,
    limit: ExecutionLimit,
    inputs: Seq<String>,
    reader: spec_fn(InputKind, Result<String, String>) -> bool,
    host: spec_fn(FloatRequest, FloatReply) -> bool,
    result: Result<Seq<String>, (Seq<String>, Seq<char>)>,
) -> bool {
    exists|trace: Seq<Machine>| {
        &&& trace.len() > 0
        &&& initial_machine(trace[0], inputs)
        &&& steps_through(code, reader, host, trace)
        &&& trace.len() - 1 <= step_budget(limit)
        &&& match result {
            Ok(out) => trace.last().ip >= code.len() && out == trace.last().output@,
            Err((out, message)) => trace.last().ip < code.len() && out == trace.last().output@ && (
                (trace.len() - 1 < step_budget(limit) && step_allows(code, reader, host, trace.last(), Err(message)))
                || (trace.len() - 1 == step_budget(limit) && message == stop_message(limit))),
        }
    }
}

/// What the reader `read_input` may answer when asked for a value of kind `k`.
pub open spec fn reads<R: Fn(InputKind) -> Result<String, String>>(read_input: &R) -> spec_fn(InputKind, Result<String, String>) -> bool {
    |k: InputKind, answer: Result<String, String>| read_input.ensures((k,), answer)
}

/// The answer when only queued input is available: the run needs a value of kind `k`.
pub open spec fn input_required(k: InputKind, answer: Result<String, String>) -> bool {
    answer matches Err(m) && m@ == "input required: "@ + k.spec_name()
}

/// A run whose queued input is all there is: once the queue is used up, an
/// input fails with "input required: " and the kind's name.
pub open spec fn queue_only() -> spec_fn(InputKind, Result<String, String>) -> bool {
    |k: InputKind, answer: Result<String, String>| input_required(k, answer)
}

/// The error a run stops with: the output so far and one diagnostic.
fn run_error(output: &Vec<String>, message: String) -> (e: RunError)
    ensures
        e.output@ == output@,
        e.diagnostics@.len() == 1,
        e.diagnostics@[0].message@ == message@,
        e.diagnostics@[0].span is None,
{
    let mut diagnostics = Vec::new();
    diagnostics.push(Diagnostic { message, span: None });
    let copied = output.clone();
    proof {
        assert(copied@ =~= output@);
    }
    RunError { output: copied, diagnostics }
}

/// The reader used when only queued input is available: it reports which
/// input the program needed.
fn no_more_input(kind: InputKind) -> (r: Result<String, String>)
    ensures
        r matches Err(m) && m@ == "input required: "@ + kind.spec_name(),
{
    Err(concat(INPUT_REQUIRED_PREFIX, kind.name()))
}

/// Run bytecode until it ends, fails, or reaches the step limit. An
/// unlimited run stops, with its own diagnostic, only after `usize::MAX`
/// instructions.
fn run_machine<R: Fn(InputKind) -> Result<String, String>, F: Fn(FloatRequest) -> FloatReply>(
    code: &[Instruction],
    execution_limit: ExecutionLimit,
    inputs: Vec<String>,
    read_input: &R,
    float_ops: &F,
) -> (r: Result<Vec<String>, RunError>)
    requires
        forall|k: InputKind| read_input.requires((k,)),
        forall|q: FloatRequest| float_ops.requires((q,)),
    ensures
        match r {
            Ok(out) => run_allows(code@, execution_limit, inputs@, reads(read_input), hosts(float_ops), Ok(out@)),
            Err(e) => e.diagnostics@.len() == 1 && e.diagnostics@[0].span is None
                && run_allows(code@, execution_limit, inputs@, reads(read_input), hosts(float_ops), Err((e.output@, e.diagnostics@[0].message@))),
        },
        execution_limit == ExecutionLimit::Steps(0) && code@.len() > 0 ==> (r matches Err(e) && e.output@.len() == 0
            && e.diagnostics@[0].message@ == step_limit_message()),
        code@.len() == 0 ==> (r matches Ok(out) && out@.len() == 0),
{
    let mut frames: Vec<Frame> = Vec::new();
    frames.push(Frame { return_address: None, stack_base: 0, locals: Vec::new() });
    let ghost queued = inputs@;
    let mut machine = Machine {
        ip: 0,
        stack: Vec::new(),
        globals: Vec::new(),
        frames,
        output: Vec::new(),
        inputs,
        next_input: 0,
    };
    let budget: usize = match execution_limit {
        ExecutionLimit::Unlimited => usize::MAX,
        ExecutionLimit::Steps(n) => n,
    };
    let mut steps: usize = 0;
    let ghost mut trace: Seq<Machine> = seq![machine];
    proof {
        assert(initial_machine(trace[0], queued));
    }
    while machine.ip < code.len()
        invariant
            steps <= budget,
            budget == step_budget(execution_limit),
            machine.frames@.len() > 0,
            trace.len() == steps + 1,
            trace.last() == machine,
            queued == inputs@,
            initial_machine(trace[0], queued),
            steps_through(code@, reads(read_input), hosts(float_ops), trace),
            steps == 0 ==> machine.output@.len() == 0,
            steps == 0 ==> machine.ip == 0,
            code@.len() == 0 ==> steps == 0,
            forall|k: InputKind| read_input.requires((k,)),
            forall|q: FloatRequest| float_ops.requires((q,)),
        decreases budget - steps,
    {
        if steps >= budget {
            let message = match execution_limit {
                ExecutionLimit::Steps(_) => owned(
                    "execution step limit reached; the program may contain a non-terminating loop",
                ),
                ExecutionLimit::Unlimited => owned("execution stopped after the largest number of steps a run can count"),
            };
            let e = run_error(&machine.output, message);
            proof {
                assert(run_allows(code@, execution_limit, queued, reads(read_input), hosts(float_ops), Err((e.output@, e.diagnostics@[0].message@)))) by {
                    assert(trace.last().ip < code@.len());
                }
            }
            return Err(e);
        }
        let ghost before = machine;
        steps = steps + 1;
        match machine.step(code, read_input, float_ops) {
            Ok(()) => {
                proof {
                    let old_trace = trace;
                    trace = trace.push(machine);
                    assert forall|i: int| #![trigger trace[i]] 0 <= i < trace.len() - 1 implies trace[i].ip < code@.len()
                        && step_allows(code@, reads(read_input), hosts(float_ops), trace[i], Ok(trace[i + 1])) by {
                        if i < trace.len() - 2 {
                            assert(trace[i] == old_trace[i]);
                            assert(trace[i + 1] == old_trace[i + 1]);
                        } else {
                            assert(trace[i] == before);
                        }
                    }
                }
            },
            Err(message) => {
                let e = run_error(&machine.output, message);
                proof {
                    assert(run_allows(code@, execution_limit, queued, reads(read_input), hosts(float_ops), Err((e.output@, e.diagnostics@[0].message@)))) by {
                        assert(trace.last() == before);
                    }
                }
                return Err(e);
            },
        }
    }
    proof {
        assert(run_allows(code@, execution_limit, queued, reads(read_input), hosts(float_ops), Ok(machine.output@)));
    }
    Ok(machine.output)
}

// ---------------------------------------------------------------------------
// Running bytecode
// ---------------------------------------------------------------------------

/// A run's result is one that running the machine allows, with `reader`
/// answering once the queued `inputs` are used up; a failure carries one
/// diagnostic, without a source location.
pub open spec fn runs_reading(
    code: Seq<Instruction>,
    limit: ExecutionLimit,
    inputs: Seq<String>,
    reader: spec_fn(InputKind, Result<String, String>) -> bool,
    host: spec_fn(FloatRequest, FloatReply) -> bool,
    r: Result<Vec<String>, RunError>,
) -> bool {
    match r {
        Ok(out) => run_allows(code, limit, inputs, reader, host, Ok(out@)),
        Err(e) => e.diagnostics@.len() == 1 && e.diagnostics@[0].span is None
            && run_allows(code, limit, inputs, reader, host, Err((e.output@, e.diagnostics@[0].message@))),
    }
}

/// A run's result when the queued `inputs` are all the input there is and the
/// caller's float arithmetic answers as `host` allows.
pub open spec fn runs_as(
    code: Seq<Instruction>,
    limit: ExecutionLimit,
    inputs: Seq<String>,
    host: spec_fn(FloatRequest, FloatReply) -> bool,
    r: Result<Vec<String>, RunError>,
) -> bool {
    runs_reading(code, limit, inputs, queue_only(), host, r)
}

/// A step that a reader allows is allowed by a reader that may answer more.
proof fn lemma_step_allows_weaken(
    code: Seq<Instruction>,
    narrow: spec_fn(InputKind, Result<String, String>) -> bool,
    wide: spec_fn(InputKind, Result<String, String>) -> bool,
    host: spec_fn(FloatRequest, FloatReply) -> bool,
    b: Machine,
    out: Result<Machine, Seq<char>>,
)
    requires
        b.ip < code.len(),
        step_allows(code, narrow, host, b, out),
        forall|k: InputKind, answer: Result<String, String>| narrow(k, answer) ==> #[trigger] wide(k, answer),
    ensures
        step_allows(code, wide, host, b, out),
{
    reveal(step_allows);
    if code[b.ip as int] is Input && b.next_input >= b.inputs@.len() {
        let kind = code[b.ip as int]->Input_0;
        let answer = choose|answer: Result<String, String>| #[trigger] narrow(kind, answer) && match answer {
            Ok(line) => match out {
                Ok(a) => a.stack@.len() > 0 && input_post(host, kind, line@, Ok(a.stack@.last()))
                    && pushed_after(b, a, 0, a.stack@.last()),
                Err(m) => input_post(host, kind, line@, Err(m)),
            },
            Err(m) => out == Err::<Machine, Seq<char>>(m@),
        };
        assert(wide(kind, answer));
    }
}

/// A run that a reader allows is allowed by a reader that may answer more.
pub proof fn lemma_run_allows_weaken(
    code: Seq<Instruction>,
    limit: ExecutionLimit,
    inputs: Seq<String>,
    narrow: spec_fn(InputKind, Result<String, String>) -> bool,
    wide: spec_fn(InputKind, Result<String, String>) -> bool,
    host: spec_fn(FloatRequest, FloatReply) -> bool,
    result: Result<Seq<String>, (Seq<String>, Seq<char>)>,
)
    requires
        run_allows(code, limit, inputs, narrow, host, result),
        forall|k: InputKind, answer: Result<String, String>| narrow(k, answer) ==> #[trigger] wide(k, answer),
    ensures
        run_allows(code, limit, inputs, wide, host, result),
{
    let trace = choose|trace: Seq<Machine>| {
        &&& trace.len() > 0
        &&& initial_machine(trace[0], inputs)
        &&& steps_through(code, narrow, host, trace)
        &&& trace.len() - 1 <= step_budget(limit)
        &&& match result {
            Ok(out) => trace.last().ip >= code.len() && out == trace.last().output@,
            Err((out, message)) => trace.last().ip < code.len() && out == trace.last().output@ && (
                (trace.len() - 1 < step_budget(limit) && step_allows(code, narrow, host, trace.last(), Err(message)))
                || (trace.len() - 1 == step_budget(limit) && message == stop_message(limit))),
        }
    };
    assert forall|i: int| #![trigger trace[i]] 0 <= i < trace.len() - 1 implies trace[i].ip < code.len()
        && step_allows(code, wide, host, trace[i], Ok(trace[i + 1])) by {
        lemma_step_allows_weaken(code, narrow, wide, host, trace[i], Ok(trace[i + 1]));
    }
    if result is Err && trace.len() - 1 < step_budget(limit) && step_allows(code, narrow, host, trace.last(), Err(result->Err_0.1)) {
        lemma_step_allows_weaken(code, narrow, wide, host, trace.last(), Err(result->Err_0.1));
    }
    assert(steps_through(code, wide, host, trace));
}

/// A step keeps what was printed before it.
pub proof fn lemma_step_keeps_output(
    code: Seq<Instruction>,
    reader: spec_fn(InputKind, Result<String, String>) -> bool,
    host: spec_fn(FloatRequest, FloatReply) -> bool,
    b: Machine,
    a: Machine,
)
    requires
        b.ip < code.len(),
        step_allows(code, reader, host, b, Ok(a)),
    ensures
        b.output@.is_prefix_of(a.output@),
{
    reveal(step_allows);
    if code[b.ip as int] is Print {
        assert(a.output@.subrange(0, b.output@.len() as int) =~= a.output@.drop_last());
    } else {
        assert(a.output@ == b.output@);
    }
}

/// Only a print prints: it adds one line, the text of the value it took, with
/// any float in it as the caller formats it, and every other step leaves the
/// output as it was.
pub proof fn law_only_print_prints(
    code: Seq<Instruction>,
    reader: spec_fn(InputKind, Result<String, String>) -> bool,
    host: spec_fn(FloatRequest, FloatReply) -> bool,
    b: Machine,
    a: Machine,
)
    requires
        b.ip < code.len(),
        step_allows(code, reader, host, b, Ok(a)),
    ensures
        code[b.ip as int] is Print ==> {
            &&& b.stack@.len() > 0
            &&& a.output@ == b.output@.push(a.output@.last())
            &&& float_free(top(b, 0)) ==> a.output@.last()@ == display(top(b, 0))
            &&& top(b, 0) matches RuntimeValue::Float(bits) ==> printed_float(host, bits, a.output@.last()@)
            &&& prints_as(host, top(b, 0), a.output@.last()@)
        },
        !(code[b.ip as int] is Print) ==> a.output@ == b.output@,
{
    reveal(step_allows);
    if code[b.ip as int] is Print {
        assert(a.output@ =~= a.output@.drop_last().push(a.output@.last()));
    }
}

/// Along a run, what is printed only grows.
pub proof fn lemma_trace_keeps_output(
    code: Seq<Instruction>,
    reader: spec_fn(InputKind, Result<String, String>) -> bool,
    host: spec_fn(FloatRequest, FloatReply) -> bool,
    trace: Seq<Machine>,
    i: int,
    j: int,
)
    requires
        steps_through(code, reader, host, trace),
        0 <= i <= j < trace.len(),
    ensures
        trace[i].output@.is_prefix_of(trace[j].output@),
    decreases j - i,
{
    if i < j {
        lemma_trace_keeps_output(code, reader, host, trace, i, j - 1);
        lemma_step_keeps_output(code, reader, host, trace[j - 1], trace[j]);
    }
}

/// The lines a run's result carries: its output, or the output before its error.
pub open spec fn printed(result: Result<Seq<String>, (Seq<String>, Seq<char>)>) -> Seq<String> {
    match result {
        Ok(out) => out,
        Err((out, _)) => out,
    }
}

/// `run_allows` with the number of instructions that completed: a trace of
/// `steps + 1` machine states ends in `result`.
pub open spec fn run_takes(
    code: Seq<Instruction>,
    limit: ExecutionLimit,
    inputs: Seq<String>,
    reader: spec_fn(InputKind, Result<String, String>) -> bool,
    host: spec_fn(FloatRequest, FloatReply) -> bool,
    result: Result<Seq<String>, (Seq<String>, Seq<char>)>,
    steps: nat,
) -> bool {
    exists|trace: Seq<Machine>| #![trigger trace.len()] {
        &&& trace.len() == steps + 1
        &&& initial_machine(trace[0], inputs)
        &&& steps_through(code, reader, host, trace)
        &&& trace.len() - 1 <= step_budget(limit)
        &&& match result {
            Ok(out) => trace.last().ip >= code.len() && out == trace.last().output@,
            Err((out, message)) => trace.last().ip < code.len() && out == trace.last().output@ && (
                (trace.len() - 1 < step_budget(limit) && step_allows(code, reader, host, trace.last(), Err(message)))
                || (trace.len() - 1 == step_budget(limit) && message == stop_message(limit))),
        }
    }
}

/// Every result a run allows is reached after some number of completed
/// instructions, and a result reached after a number of them is allowed.
pub proof fn lemma_run_takes_some_steps(
    code: Seq<Instruction>,
    limit: ExecutionLimit,
    inputs: Seq<String>,
    reader: spec_fn(InputKind, Result<String, String>) -> bool,
    host: spec_fn(FloatRequest, FloatReply) -> bool,
    result: Result<Seq<String>, (Seq<String>, Seq<char>)>,
)
    ensures
        run_allows(code, limit, inputs, reader, host, result)
            <==> exists|steps: nat| #[trigger] run_takes(code, limit, inputs, reader, host, result, steps),
{
    if run_allows(code, limit, inputs, reader, host, result) {
        let trace = choose|trace: Seq<Machine>| {
            &&& trace.len() > 0
            &&& initial_machine(trace[0], inputs)
            &&& steps_through(code, reader, host, trace)
            &&& trace.len() - 1 <= step_budget(limit)
            &&& match result {
                Ok(out) => trace.last().ip >= code.len() && out == trace.last().output@,
                Err((out, message)) => trace.last().ip < code.len() && out == trace.last().output@ && (
                    (trace.len() - 1 < step_budget(limit) && step_allows(code, reader, host, trace.last(), Err(message)))
                    || (trace.len() - 1 == step_budget(limit) && message == stop_message(limit))),
            }
        };
        assert(run_takes(code, limit, inputs, reader, host, result, (trace.len() - 1) as nat));
    }
    if exists|steps: nat| #[trigger] run_takes(code, limit, inputs, reader, host, result, steps) {
        let steps = choose|steps: nat| #[trigger] run_takes(code, limit, inputs, reader, host, result, steps);
        let trace = choose|trace: Seq<Machine>| #![trigger trace.len()] {
            &&& trace.len() == steps + 1
            &&& initial_machine(trace[0], inputs)
            &&& steps_through(code, reader, host, trace)
            &&& trace.len() - 1 <= step_budget(limit)
            &&& match result {
                Ok(out) => trace.last().ip >= code.len() && out == trace.last().output@,
                Err((out, message)) => trace.last().ip < code.len() && out == trace.last().output@ && (
                    (trace.len() - 1 < step_budget(limit) && step_allows(code, reader, host, trace.last(), Err(message)))
                    || (trace.len() - 1 == step_budget(limit) && message == stop_message(limit))),
            }
        };
        assert(trace.len() > 0);
    }
}

/// A step limit only cuts a run short. Take a run without a limit that ends in
/// `result` after `k` completed instructions. Under a limit of `n` steps, a run
/// that finishes within `n` instructions, or fails on an instruction before the
/// limit is used up, ends the same way after the same `k` instructions; any
/// other run is stopped after exactly `n` instructions with the step-limit error
/// and the lines printed by those instructions, a prefix of what the run
/// without a limit printed.
pub proof fn law_step_limit_cuts_short(
    code: Seq<Instruction>,
    n: usize,
    inputs: Seq<String>,
    reader: spec_fn(InputKind, Result<String, String>) -> bool,
    host: spec_fn(FloatRequest, FloatReply) -> bool,
    result: Result<Seq<String>, (Seq<String>, Seq<char>)>,
    k: nat,
)
    requires
        run_takes(code, ExecutionLimit::Unlimited, inputs, reader, host, result, k),
    ensures
        (result is Ok && k <= n) || (result is Err && k < n)
            ==> run_takes(code, ExecutionLimit::Steps(n), inputs, reader, host, result, k),
        !((result is Ok && k <= n) || (result is Err && k < n))
            ==> exists|out: Seq<String>| #[trigger] out.is_prefix_of(printed(result))
                && run_takes(code, ExecutionLimit::Steps(n), inputs, reader, host, Err((out, step_limit_message())), n as nat),
{
    let unlimited = ExecutionLimit::Unlimited;
    let trace = choose|trace: Seq<Machine>| #![trigger trace.len()] {
        &&& trace.len() == k + 1
        &&& initial_machine(trace[0], inputs)
        &&& steps_through(code, reader, host, trace)
        &&& trace.len() - 1 <= step_budget(unlimited)
        &&& match result {
            Ok(out) => trace.last().ip >= code.len() && out == trace.last().output@,
            Err((out, message)) => trace.last().ip < code.len() && out == trace.last().output@ && (
                (trace.len() - 1 < step_budget(unlimited) && step_allows(code, reader, host, trace.last(), Err(message)))
                || (trace.len() - 1 == step_budget(unlimited) && message == stop_message(unlimited))),
        }
    };
    let limit = ExecutionLimit::Steps(n);
    if (result is Ok && k <= n) || (result is Err && k < n) {
        assert(trace.len() == k + 1);
        assert(run_takes(code, limit, inputs, reader, host, result, k));
    } else {
        let cut = trace.subrange(0, n + 1);
        assert(cut.len() == n + 1);
        assert(cut[0] == trace[0]);
        assert forall|i: int| #![trigger cut[i]] 0 <= i < cut.len() - 1 implies cut[i].ip < code.len()
            && step_allows(code, reader, host, cut[i], Ok(cut[i + 1])) by {
            assert(cut[i] == trace[i]);
            assert(cut[i + 1] == trace[i + 1]);
        }
        assert(cut.last() == trace[n as int]);
        if n < k {
            assert(trace[n as int].ip < code.len());
        } else {
            assert(trace[n as int] == trace.last());
        }
        assert(steps_through(code, reader, host, cut));
        assert(stop_message(limit) == step_limit_message());
        lemma_trace_keeps_output(code, reader, host, trace, n as int, k as int);
        assert(cut.last().output@.is_prefix_of(printed(result)));
        assert(cut.len() == n + 1);
        assert(run_takes(code, limit, inputs, reader, host, Err((cut.last().output@, step_limit_message())), n as nat));
    }
}

/// Whether the instruction at `m.ip` is an input that finds a queued line.
pub open spec fn reads_queue(code: Seq<Instruction>, m: Machine) -> bool {
    code[m.ip as int] is Input && m.next_input < m.inputs@.len()
}

/// One step keeps the queue of inputs. An input that finds a queued line takes
/// the next one and pushes what that line gives for its kind; every other step
/// takes none.
pub proof fn lemma_step_uses_queue(
    code: Seq<Instruction>,
    reader: spec_fn(InputKind, Result<String, String>) -> bool,
    host: spec_fn(FloatRequest, FloatReply) -> bool,
    b: Machine,
    a: Machine,
)
    requires
        b.ip < code.len(),
        step_allows(code, reader, host, b, Ok(a)),
    ensures
        a.inputs@ == b.inputs@,
        a.next_input == if reads_queue(code, b) { b.next_input + 1 } else { b.next_input as int },
        reads_queue(code, b) ==> (code[b.ip as int] matches Instruction::Input(kind) && a.stack@.len() > 0
            && input_post(host, kind, b.inputs@[b.next_input as int]@, Ok(a.stack@.last()))),
{
    reveal(step_allows);
}

/// How many of the first `j` steps of `trace` took a queued line.
pub open spec fn queue_reads(code: Seq<Instruction>, trace: Seq<Machine>, j: int) -> nat
    decreases j,
{
    if j <= 0 {
        0
    } else {
        queue_reads(code, trace, j - 1) + if reads_queue(code, trace[j - 1]) { 1nat } else { 0nat }
    }
}

/// Queued inputs are used in order: along a run the queue stays the one the
/// run started with, and each machine state has used exactly as many lines as
/// inputs before it took a queued line, so the input that takes the `i`-th
/// queued line (counting from zero) is the `i`-th to take one.
pub proof fn law_inputs_in_order(
    code: Seq<Instruction>,
    inputs: Seq<String>,
    reader: spec_fn(InputKind, Result<String, String>) -> bool,
    host: spec_fn(FloatRequest, FloatReply) -> bool,
    trace: Seq<Machine>,
    j: int,
)
    requires
        trace.len() > 0,
        initial_machine(trace[0], inputs),
        steps_through(code, reader, host, trace),
        0 <= j < trace.len(),
    ensures
        trace[j].inputs@ == inputs,
        trace[j].next_input == queue_reads(code, trace, j),
    decreases j,
{
    if j > 0 {
        law_inputs_in_order(code, inputs, reader, host, trace, j - 1);
        lemma_step_uses_queue(code, reader, host, trace[j - 1], trace[j]);
    }
}

/// With only queued input, an input that finds the queue used up fails with
/// "input required: " and the name of its kind.
pub proof fn law_input_required_when_queue_is_used_up(
    code: Seq<Instruction>,
    host: spec_fn(FloatRequest, FloatReply) -> bool,
    b: Machine,
    out: Result<Machine, Seq<char>>,
)
    requires
        b.ip < code.len(),
        code[b.ip as int] is Input,
        b.next_input >= b.inputs@.len(),
        step_allows(code, queue_only(), host, b, out),
    ensures
        out == Err::<Machine, Seq<char>>("input required: "@ + (code[b.ip as int]->Input_0).spec_name()),
{
    reveal(step_allows);
}

/// The value a run of stores into distinct frame variables leaves: the first
/// `m` of `n` stores have written the variables `names[n - m..n]` with the
/// values that were the top `m` of the stack.
pub open spec fn stored_from(trace: Seq<Machine>, names: Seq<Seq<char>>, m: int) -> bool {
    let n = names.len() as int;
    let s0 = trace[0].stack@;
    let b = trace[m];
    &&& b.ip == trace[0].ip + m
    &&& b.stack@ == s0.subrange(0, s0.len() - m)
    &&& b.frames@.len() == trace[0].frames@.len()
    &&& forall|j: int| n - m <= j < n ==> lookup(b.frames@.last().locals@, #[trigger] names[j]) == Some(s0[s0.len() - n + j])
}

/// Storing a call's arguments into the variables of its frame, the variable
/// of the last parameter first (as a function's entry does): whatever the
/// stack held below them, after the `n` stores parameter `j` holds the
/// argument that was pushed `j`-th, i.e. the `j`-th argument.
pub proof fn law_stores_bind_arguments_in_order(
    code: Seq<Instruction>,
    reader: spec_fn(InputKind, Result<String, String>) -> bool,
    host: spec_fn(FloatRequest, FloatReply) -> bool,
    trace: Seq<Machine>,
    names: Seq<Seq<char>>,
)
    requires
        trace.len() == names.len() + 1,
        steps_through(code, reader, host, trace),
        forall|a: int, b: int| 0 <= a < b < names.len() ==> names[a] != names[b],
        trace[0].stack@.len() >= names.len(),
        trace[0].frames@.len() > 0,
        forall|m: int| #![trigger code[trace[0].ip + m]] 0 <= m < names.len() ==> trace[0].ip + m < code.len()
            && (code[trace[0].ip + m] matches Instruction::StoreLocal(x) && x@ == names[names.len() - 1 - m]),
    ensures
        forall|j: int| 0 <= j < names.len() ==> lookup(trace[names.len() as int].frames@.last().locals@, #[trigger] names[j])
            == Some(trace[0].stack@[trace[0].stack@.len() - names.len() + j]),
        trace[names.len() as int].stack@ == trace[0].stack@.subrange(0, trace[0].stack@.len() - names.len()),
{
    lemma_stores_from(code, reader, host, trace, names, names.len() as int);
}

/// The first `m` stores of such a run leave what `stored_from` says.
proof fn lemma_stores_from(
    code: Seq<Instruction>,
    reader: spec_fn(InputKind, Result<String, String>) -> bool,
    host: spec_fn(FloatRequest, FloatReply) -> bool,
    trace: Seq<Machine>,
    names: Seq<Seq<char>>,
    m: int,
)
    requires
        trace.len() == names.len() + 1,
        0 <= m <= names.len(),
        steps_through(code, reader, host, trace),
        forall|a: int, b: int| 0 <= a < b < names.len() ==> names[a] != names[b],
        trace[0].stack@.len() >= names.len(),
        trace[0].frames@.len() > 0,
        forall|m: int| #![trigger code[trace[0].ip + m]] 0 <= m < names.len() ==> trace[0].ip + m < code.len()
            && (code[trace[0].ip + m] matches Instruction::StoreLocal(x) && x@ == names[names.len() - 1 - m]),
    ensures
        stored_from(trace, names, m),
    decreases m,
{
    let n = names.len() as int;
    let s0 = trace[0].stack@;
    if m == 0 {
        assert(s0.subrange(0, s0.len() as int) =~= s0);
        return;
    }
    lemma_stores_from(code, reader, host, trace, names, m - 1);
    let b = trace[m - 1];
    let a = trace[m];
    assert(b.ip < code.len() && step_allows(code, reader, host, b, Ok(a)));
    assert(code[trace[0].ip + (m - 1)] matches Instruction::StoreLocal(x) && x@ == names[n - 1 - (m - 1)]);
    let x = code[b.ip as int]->StoreLocal_0;
    reveal(step_allows);
    assert(b.stack@.len() == s0.len() - (m - 1));
    let v = top(b, 0);
    assert(v == s0[s0.len() - n + (n - m)]);
    let before = b.frames@.last().locals@;
    let after = a.frames@.last().locals@;
    assert(after == inserted(before, x, v));
    if has_key(before, x@) {
        law_insert_present_key_keeps_position(before, x, v);
    } else {
        law_insert_new_key_goes_last(before, x, v);
    }
    assert(a.stack@ =~= s0.subrange(0, s0.len() - m));
    assert forall|j: int| n - m <= j < n implies lookup(after, #[trigger] names[j]) == Some(s0[s0.len() - n + j]) by {
        if j != n - m {
            assert(names[j] != names[n - m]);
            law_insert_other_keys_unchanged(before, x, v, names[j]);
        }
    }
}

/// A conditional jump on a boolean takes it off the stack and goes on with
/// the next instruction when it is `✅`, or jumps to its target when it is `❌`.
pub proof fn law_jump_if_false_step(
    code: Seq<Instruction>,
    reader: spec_fn(InputKind, Result<String, String>) -> bool,
    host: spec_fn(FloatRequest, FloatReply) -> bool,
    b: Machine,
    a: Machine,
    target: usize,
    condition: bool,
)
    requires
        b.ip < code.len(),
        code[b.ip as int] == Instruction::JumpIfFalse(target),
        target <= code.len(),
        code.len() < usize::MAX,
        b.stack@.len() > 0,
        b.stack@.last() == RuntimeValue::Bool(condition),
        step_allows(code, reader, host, b, Ok(a)),
    ensures
        a.stack@ == b.stack@.drop_last(),
        a.ip == if condition { b.ip + 1 } else { target as int },
        a.frames@ == b.frames@,
        a.output@ == b.output@,
{
    reveal(step_allows);
}

/// Loading a boolean constant pushes it and goes on with the next instruction.
pub proof fn law_load_bool_step(
    code: Seq<Instruction>,
    reader: spec_fn(InputKind, Result<String, String>) -> bool,
    host: spec_fn(FloatRequest, FloatReply) -> bool,
    b: Machine,
    a: Machine,
    value: bool,
)
    requires
        b.ip < code.len(),
        code[b.ip as int] == Instruction::LoadConst(Value::Bool(value)),
        step_allows(code, reader, host, b, Ok(a)),
    ensures
        a.stack@ == b.stack@.push(RuntimeValue::Bool(value)),
        a.ip == b.ip + 1,
        a.frames@ == b.frames@,
        a.output@ == b.output@,
{
    reveal(step_allows);
    assert(b.stack@.subrange(0, b.stack@.len() - 0) =~= b.stack@);
}

/// A jump goes to its target and leaves the stack as it was.
pub proof fn law_jump_step(
    code: Seq<Instruction>,
    reader: spec_fn(InputKind, Result<String, String>) -> bool,
    host: spec_fn(FloatRequest, FloatReply) -> bool,
    b: Machine,
    a: Machine,
    target: usize,
)
    requires
        b.ip < code.len(),
        code[b.ip as int] == Instruction::Jump(target),
        target <= code.len(),
        step_allows(code, reader, host, b, Ok(a)),
    ensures
        a.stack@ == b.stack@,
        a.ip == target,
        a.frames@ == b.frames@,
        a.output@ == b.output@,
{
    reveal(step_allows);
}

/// Every run of `n` steps of `code` that starts at `at` with the boolean
/// `condition` on top of the stack is at `to` after the `n` steps, with that
/// boolean replaced by `result` (or just taken off when `result` is `None`).
pub open spec fn bool_run(
    code: Seq<Instruction>,
    reader: spec_fn(InputKind, Result<String, String>) -> bool,
    host: spec_fn(FloatRequest, FloatReply) -> bool,
    at: int,
    condition: bool,
    n: int,
    to: int,
    result: Option<bool>,
) -> bool {
    forall|trace: Seq<Machine>| #![trigger steps_through(code, reader, host, trace)]
        trace.len() == n + 1 && steps_through(code, reader, host, trace) && trace[0].ip == at
            && trace[0].stack@.len() > 0 && trace[0].stack@.last() == RuntimeValue::Bool(condition)
            ==> trace[n].ip == to && trace[n].stack@ == match result {
                Some(v) => trace[0].stack@.drop_last().push(RuntimeValue::Bool(v)),
                None => trace[0].stack@.drop_last(),
            }
}

/// What the reader of the queue-only runners answers is what `queue_only` allows.
proof fn lemma_no_more_input()
    ensures
        forall|k: InputKind, answer: Result<String, String>|
            reads(&no_more_input)(k, answer) ==> #[trigger] queue_only()(k, answer),
{
}

/// Execute bytecode without an instruction limit; float arithmetic is `float_ops`'s.
pub fn execute<F: Fn(FloatRequest) -> FloatReply>(instructions: &[Instruction], float_ops: &F) -> (r: Result<Vec<String>, RunError>)
    requires
        forall|q: FloatRequest| float_ops.requires((q,)),
    ensures
        runs_as(instructions@, ExecutionLimit::Unlimited, Seq::empty(), hosts(float_ops), r),
        instructions@.len() == 0 ==> (r matches Ok(out) && out@.len() == 0),
{
    let ghost queued = Seq::<String>::empty();
    let r = run_machine(instructions, ExecutionLimit::Unlimited, Vec::new(), &no_more_input, float_ops);
    proof {
        lemma_no_more_input();
        if r is Ok {
            lemma_run_allows_weaken(instructions@, ExecutionLimit::Unlimited, queued, reads(&no_more_input), queue_only(), hosts(float_ops), Ok(r->Ok_0@));
        } else {
            let e = r->Err_0;
            lemma_run_allows_weaken(instructions@, ExecutionLimit::Unlimited, queued, reads(&no_more_input), queue_only(), hosts(float_ops),
                Err((e.output@, e.diagnostics@[0].message@)));
        }
    }
    r
}

/// Execute bytecode with a caller-provided instruction step limit.
///
/// The returned vector contains each value printed by the program. If execution
/// fails, [`RunError::output`] preserves any prints that happened first.
pub fn execute_with_step_limit<F: Fn(FloatRequest) -> FloatReply>(
    instructions: &[Instruction],
    step_limit: usize,
    float_ops: &F,
) -> (r: Result<Vec<String>, RunError>)
    requires
        forall|q: FloatRequest| float_ops.requires((q,)),
    ensures
        runs_as(instructions@, ExecutionLimit::Steps(step_limit), Seq::empty(), hosts(float_ops), r),
        step_limit == 0 && instructions@.len() > 0 ==> (r matches Err(e) && e.output@.len() == 0
            && e.diagnostics@[0].message@ == step_limit_message()),
        instructions@.len() == 0 ==> (r matches Ok(out) && out@.len() == 0),
{
    let ghost queued = Seq::<String>::empty();
    let r = run_machine(instructions, ExecutionLimit::Steps(step_limit), Vec::new(), &no_more_input, float_ops);
    proof {
        lemma_no_more_input();
        if r is Ok {
            lemma_run_allows_weaken(instructions@, ExecutionLimit::Steps(step_limit), queued, reads(&no_more_input), queue_only(), hosts(float_ops), Ok(r->Ok_0@));
        } else {
            let e = r->Err_0;
            lemma_run_allows_weaken(instructions@, ExecutionLimit::Steps(step_limit), queued, reads(&no_more_input), queue_only(), hosts(float_ops),
                Err((e.output@, e.diagnostics@[0].message@)));
        }
    }
    r
}

/// Execute bytecode with an explicit instruction-limit policy.
pub fn execute_with_limit<F: Fn(FloatRequest) -> FloatReply>(
    instructions: &[Instruction],
    execution_limit: ExecutionLimit,
    float_ops: &F,
) -> (r: Result<Vec<String>, RunError>)
    requires
        forall|q: FloatRequest| float_ops.requires((q,)),
    ensures
        runs_as(instructions@, execution_limit, Seq::empty(), hosts(float_ops), r),
        execution_limit == ExecutionLimit::Steps(0) && instructions@.len() > 0 ==> (r matches Err(e)
            && e.output@.len() == 0 && e.diagnostics@[0].message@ == step_limit_message()),
        instructions@.len() == 0 ==> (r matches Ok(out) && out@.len() == 0),
{
    let ghost queued = Seq::<String>::empty();
    let r = run_machine(instructions, execution_limit, Vec::new(), &no_more_input, float_ops);
    proof {
        lemma_no_more_input();
        if r is Ok {
            lemma_run_allows_weaken(instructions@, execution_limit, queued, reads(&no_more_input), queue_only(), hosts(float_ops), Ok(r->Ok_0@));
        } else {
            let e = r->Err_0;
            lemma_run_allows_weaken(instructions@, execution_limit, queued, reads(&no_more_input), queue_only(), hosts(float_ops),
                Err((e.output@, e.diagnostics@[0].message@)));
        }
    }
    r
}

/// Execute bytecode using input lines supplied in source order.
pub fn execute_with_inputs<F: Fn(FloatRequest) -> FloatReply>(
    instructions: &[Instruction],
    inputs: Vec<String>,
    float_ops: &F,
) -> (r: Result<Vec<String>, RunError>)
    requires
        forall|q: FloatRequest| float_ops.requires((q,)),
    ensures
        runs_as(instructions@, ExecutionLimit::Unlimited, inputs@, hosts(float_ops), r),
        instructions@.len() == 0 ==> (r matches Ok(out) && out@.len() == 0),
{
    let ghost queued = inputs@;
    let r = run_machine(instructions, ExecutionLimit::Unlimited, inputs, &no_more_input, float_ops);
    proof {
        lemma_no_more_input();
        if r is Ok {
            lemma_run_allows_weaken(instructions@, ExecutionLimit::Unlimited, queued, reads(&no_more_input), queue_only(), hosts(float_ops), Ok(r->Ok_0@));
        } else {
            let e = r->Err_0;
            lemma_run_allows_weaken(instructions@, ExecutionLimit::Unlimited, queued, reads(&no_more_input), queue_only(), hosts(float_ops),
                Err((e.output@, e.diagnostics@[0].message@)));
        }
    }
    r
}

/// Execute bytecode with queued inputs and an explicit instruction limit.
pub fn execute_with_inputs_and_limit<F: Fn(FloatRequest) -> FloatReply>(
    instructions: &[Instruction],
    inputs: Vec<String>,
    execution_limit: ExecutionLimit,
    float_ops: &F,
) -> (r: Result<Vec<String>, RunError>)
    requires
        forall|q: FloatRequest| float_ops.requires((q,)),
    ensures
        runs_as(instructions@, execution_limit, inputs@, hosts(float_ops), r),
        execution_limit == ExecutionLimit::Steps(0) && instructions@.len() > 0 ==> (r matches Err(e)
            && e.output@.len() == 0 && e.diagnostics@[0].message@ == step_limit_message()),
        instructions@.len() == 0 ==> (r matches Ok(out) && out@.len() == 0),
{
    let ghost queued = inputs@;
    let r = run_machine(instructions, execution_limit, inputs, &no_more_input, float_ops);
    proof {
        lemma_no_more_input();
        if r is Ok {
            lemma_run_allows_weaken(instructions@, execution_limit, queued, reads(&no_more_input), queue_only(), hosts(float_ops), Ok(r->Ok_0@));
        } else {
            let e = r->Err_0;
            lemma_run_allows_weaken(instructions@, execution_limit, queued, reads(&no_more_input), queue_only(), hosts(float_ops),
                Err((e.output@, e.diagnostics@[0].message@)));
        }
    }
    r
}

/// Execute bytecode with an on-demand input reader; a reader error stops the
/// run with the reader's message.
pub fn execute_with_input_reader<R: Fn(InputKind) -> Result<String, String>, F: Fn(FloatRequest) -> FloatReply>(
    instructions: &[Instruction],
    execution_limit: ExecutionLimit,
    read_input: &R,
    float_ops: &F,
) -> (r: Result<Vec<String>, RunError>)
    requires
        forall|k: InputKind| read_input.requires((k,)),
        forall|q: FloatRequest| float_ops.requires((q,)),
    ensures
        runs_reading(instructions@, execution_limit, Seq::empty(), reads(read_input), hosts(float_ops), r),
        execution_limit == ExecutionLimit::Steps(0) && instructions@.len() > 0 ==> (r matches Err(e)
            && e.output@.len() == 0 && e.diagnostics@[0].message@ == step_limit_message()),
        instructions@.len() == 0 ==> (r matches Ok(out) && out@.len() == 0),
{
    run_machine(instructions, execution_limit, Vec::new(), read_input, float_ops)
}

} // verus!
