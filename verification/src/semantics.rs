//! The meaning of KelpyShark programs: a big-step semantics with a depth
//! budget (`fuel`).
//!
//! Each function takes the host's answers (`o`), the budget, the state
//! before, and the piece of syntax; it gives the state after and the result
//! or an error message. The state after an error is the state at the point
//! where the error arose: scopes entered before it are not left, except that
//! a function call always gives its caller back the caller's own scopes.
//!
//! Scoping is lexical: a function records how many scopes there were where
//! it was defined, and a call runs its body on those scopes of the caller (at
//! least the global one) and a new scope holding its parameters. A function
//! defined at the top level sees the globals and its parameters, not its
//! caller's locals; a function defined inside another sees that one's
//! locals when called from within it.

use crate::ast::{BinaryOperator, CompoundOp, Expr, Statement, StringPart, UnaryOperator};
use crate::builtins::{apply_builtin, builtin_arity, count_number};
use crate::display::show;
use crate::environment::{assign, bind, call_scopes, enter, leave, lookup, return_scopes};
use crate::host::{
    answer_flag, answer_index, answer_number, answer_text, Answer, ArithOp, CompareOp, MathOp,
    Query,
};
use crate::methods::{dict_get, dict_insert, prim_method};
use crate::text::decimal;
use crate::value::{data_equal, names_view, number_is_zero, truthy, type_label_of, Data};
use vstd::prelude::*;

verus! {

/// The state a program runs in: the scopes, the number of lines of input
/// read, the lines printed into the buffer, the lines handed to the host to
/// print, and whether printed lines go to the buffer (or to the host).
#[verifier::ext_equal]
pub struct State {
    pub scopes: Seq<Map<Seq<char>, Data>>,
    pub reads: u64,
    pub out: Seq<Seq<char>>,
    pub sent: Seq<Seq<char>>,
    pub buffered: bool,
}

/// How a statement ends.
pub enum Flow {
    Normal,
    Return(Data),
    Break,
    Continue,
    Throw(Data),
}

pub open spec fn with_scopes(st: State, scopes: Seq<Map<Seq<char>, Data>>) -> State {
    State { scopes, ..st }
}

/// Printing a line: it is kept in the buffer when the state is buffered,
/// and handed to the host otherwise.
pub open spec fn emit(st: State, line: Seq<char>) -> State {
    if st.buffered {
        State { out: st.out.push(line), ..st }
    } else {
        State { sent: st.sent.push(line), ..st }
    }
}

/// Binding parameters to arguments, in order.
pub open spec fn bind_params(
    scopes: Seq<Map<Seq<char>, Data>>,
    names: Seq<Seq<char>>,
    vals: Seq<Data>,
) -> Seq<Map<Seq<char>, Data>>
    decreases names.len(),
{
    if names.len() == 0 || vals.len() == 0 {
        scopes
    } else {
        bind(
            bind_params(scopes, names.drop_last(), vals.drop_last()),
            names.last(),
            vals.last(),
        )
    }
}

/// Making the methods of a class visible in a method call: each method is
/// bound unless its name can already be read.
pub open spec fn inject_methods(
    scopes: Seq<Map<Seq<char>, Data>>,
    methods: Seq<(Seq<char>, Data)>,
) -> Seq<Map<Seq<char>, Data>>
    decreases methods.len(),
{
    if methods.len() == 0 {
        scopes
    } else {
        let s = inject_methods(scopes, methods.drop_last());
        if lookup(s, methods.last().0) is Some {
            s
        } else {
            bind(s, methods.last().0, methods.last().1)
        }
    }
}

/// The methods a class definition collects, when there are `depth` scopes:
/// its function definitions.
pub open spec fn class_methods(stmts: Seq<Statement>, depth: usize) -> Seq<(Seq<char>, Data)>
    decreases stmts.len(),
{
    if stmts.len() == 0 {
        Seq::empty()
    } else {
        let m = class_methods(stmts.drop_last(), depth);
        match stmts.last() {
            Statement::FunctionDef { name, params, body } => dict_insert(
                m,
                name@,
                Data::Function { name: name@, params: names_view(params@), body: body@, depth },
            ),
            _ => m,
        }
    }
}

pub open spec fn fuel_message() -> Seq<char> {
    "Evaluation nested too deeply"@
}

pub open spec fn undefined_message(name: Seq<char>) -> Seq<char> {
    "Undefined variable: '"@ + name + "'"@
}

/// How an operator is written in messages.
pub open spec fn operator_text(op: BinaryOperator) -> Seq<char> {
    match op {
        BinaryOperator::Add => "+"@,
        BinaryOperator::Subtract => "-"@,
        BinaryOperator::Multiply => "*"@,
        BinaryOperator::Divide => "/"@,
        BinaryOperator::Modulo => "%"@,
        BinaryOperator::Equal => "=="@,
        BinaryOperator::NotEqual => "!="@,
        BinaryOperator::LessThan => "<"@,
        BinaryOperator::LessEqual => "<="@,
        BinaryOperator::GreaterThan => ">"@,
        BinaryOperator::GreaterEqual => ">="@,
        BinaryOperator::And => "and"@,
        BinaryOperator::Or => "or"@,
    }
}

/// How a compound operator is named in messages.
pub open spec fn compound_text(op: CompoundOp) -> Seq<char> {
    match op {
        CompoundOp::Add => "Add"@,
        CompoundOp::Subtract => "Subtract"@,
        CompoundOp::Multiply => "Multiply"@,
        CompoundOp::Divide => "Divide"@,
    }
}

pub open spec fn num_arith(o: spec_fn(Query) -> Answer, op: ArithOp, a: u64, b: u64) -> u64 {
    answer_number(o(Query::Arith(op, a, b)))
}

pub open spec fn num_compare(o: spec_fn(Query) -> Answer, op: CompareOp, a: u64, b: u64) -> bool {
    answer_flag(o(Query::Compare(op, a, b)))
}

/// Arithmetic operators on numbers.
pub open spec fn arith_of(op: BinaryOperator) -> ArithOp {
    match op {
        BinaryOperator::Add => ArithOp::Add,
        BinaryOperator::Subtract => ArithOp::Subtract,
        BinaryOperator::Multiply => ArithOp::Multiply,
        BinaryOperator::Divide => ArithOp::Divide,
        _ => ArithOp::Remainder,
    }
}

/// Comparison operators on numbers.
pub open spec fn compare_of(op: BinaryOperator) -> CompareOp {
    match op {
        BinaryOperator::LessThan => CompareOp::Less,
        BinaryOperator::LessEqual => CompareOp::LessEqual,
        BinaryOperator::GreaterThan => CompareOp::Greater,
        _ => CompareOp::GreaterEqual,
    }
}

pub open spec fn is_arith(op: BinaryOperator) -> bool {
    op == BinaryOperator::Add || op == BinaryOperator::Subtract || op == BinaryOperator::Multiply
        || op == BinaryOperator::Divide || op == BinaryOperator::Modulo
}

pub open spec fn is_comparison(op: BinaryOperator) -> bool {
    op == BinaryOperator::LessThan || op == BinaryOperator::LessEqual || op
        == BinaryOperator::GreaterThan || op == BinaryOperator::GreaterEqual
}

/// What a binary operator gives for two values.
pub open spec fn binary_result(o: spec_fn(Query) -> Answer, l: Data, op: BinaryOperator, r: Data) -> Result<Data, Seq<char>> {
    if l is Number && r is Number && is_arith(op) {
        let a = l->Number_0;
        let b = r->Number_0;
        if op == BinaryOperator::Divide && number_is_zero(b) {
            Err("Division by zero"@)
        } else if op == BinaryOperator::Modulo && number_is_zero(b) {
            Err("Modulo by zero"@)
        } else {
            Ok(Data::Number(num_arith(o, arith_of(op), a, b)))
        }
    } else if op == BinaryOperator::Add && l is Str {
        Ok(Data::Str(l->Str_0 + show(o, r)))
    } else if op == BinaryOperator::Add && r is Str {
        Ok(Data::Str(show(o, l) + r->Str_0))
    } else if l is Number && r is Number && is_comparison(op) {
        Ok(Data::Boolean(num_compare(o, compare_of(op), l->Number_0, r->Number_0)))
    } else if op == BinaryOperator::Equal {
        Ok(Data::Boolean(data_equal(l, r)))
    } else if op == BinaryOperator::NotEqual {
        Ok(Data::Boolean(!data_equal(l, r)))
    } else if op == BinaryOperator::And {
        Ok(Data::Boolean(truthy(l) && truthy(r)))
    } else if op == BinaryOperator::Or {
        Ok(Data::Boolean(truthy(l) || truthy(r)))
    } else {
        Err(
            "Cannot apply '"@ + operator_text(op) + "' to "@ + type_label_of(l) + " and "@
                + type_label_of(r),
        )
    }
}

/// What a unary operator gives.
pub open spec fn unary_result(o: spec_fn(Query) -> Answer, op: UnaryOperator, v: Data) -> Result<Data, Seq<char>> {
    match op {
        UnaryOperator::Negate => match v {
            Data::Number(n) => Ok(Data::Number(answer_number(o(Query::Math(MathOp::Negate, n))))),
            _ => Err("Cannot negate "@ + type_label_of(v)),
        },
        UnaryOperator::Not => Ok(Data::Boolean(!truthy(v))),
    }
}

/// What a compound assignment stores, from the current value and the
/// right-hand side.
pub open spec fn compound_result(o: spec_fn(Query) -> Answer, cur: Data, op: CompoundOp, rhs: Data) -> Result<Data, Seq<char>> {
    match cur {
        Data::Number(a) => match op {
            CompoundOp::Add => match rhs {
                Data::Number(b) => Ok(Data::Number(num_arith(o, ArithOp::Add, a, b))),
                Data::Str(b) => Ok(Data::Str(answer_text(o(Query::FormatWhole(a))) + b)),
                _ => Err("Cannot += "@ + type_label_of(rhs) + " to number"@),
            },
            CompoundOp::Subtract => match rhs {
                Data::Number(b) => Ok(Data::Number(num_arith(o, ArithOp::Subtract, a, b))),
                _ => Err("Cannot -= "@ + type_label_of(rhs) + " from number"@),
            },
            CompoundOp::Multiply => match rhs {
                Data::Number(b) => Ok(Data::Number(num_arith(o, ArithOp::Multiply, a, b))),
                _ => Err("Cannot *= "@ + type_label_of(rhs) + " with number"@),
            },
            CompoundOp::Divide => match rhs {
                Data::Number(b) => if number_is_zero(b) {
                    Err("Division by zero"@)
                } else {
                    Ok(Data::Number(num_arith(o, ArithOp::Divide, a, b)))
                },
                _ => Err("Cannot /= "@ + type_label_of(rhs) + " with number"@),
            },
        },
        Data::Str(a) => match op {
            CompoundOp::Add => Ok(Data::Str(a + show(o, rhs))),
            _ => Err("Cannot apply "@ + compound_text(op) + " to "@ + type_label_of(cur)),
        },
        _ => Err("Cannot apply "@ + compound_text(op) + " to "@ + type_label_of(cur)),
    }
}

/// What indexing gives.
pub open spec fn index_result(o: spec_fn(Query) -> Answer, obj: Data, idx: Data) -> Result<Data, Seq<char>> {
    match (obj, idx) {
        (Data::List(items), Data::Number(n)) => {
            let i = answer_index(o(Query::ToIndex(n)));
            if i < items.len() {
                Ok(items[i as int])
            } else {
                Err(
                    "Index "@ + decimal(i as nat) + " out of bounds (list length "@ + decimal(
                        items.len(),
                    ) + ")"@,
                )
            }
        },
        (Data::Dict(entries), Data::Str(key)) => match dict_get(entries, key) {
            Some(v) => Ok(v),
            None => Err("Key '"@ + key + "' not found in dict"@),
        },
        _ => Err("Cannot index "@ + type_label_of(obj) + " with "@ + type_label_of(idx)),
    }
}

/// What member access gives.
pub open spec fn member_result(obj: Data, member: Seq<char>) -> Result<Data, Seq<char>> {
    match obj {
        Data::Dict(entries) => match dict_get(entries, member) {
            Some(v) => Ok(v),
            None => Err("Key '"@ + member + "' not found in dict"@),
        },
        Data::Instance { fields, .. } => match dict_get(fields, member) {
            Some(v) => Ok(v),
            None => Err("Field '"@ + member + "' not found on instance"@),
        },
        _ => Err("Cannot access member '"@ + member + "' on "@ + type_label_of(obj)),
    }
}

/// The numbers that `range` yields from `i` on, at most `fuel` of them.
pub open spec fn range_from(
    o: spec_fn(Query) -> Answer,
    fuel: nat,
    i: u64,
    stop: u64,
    step: u64,
    zero: u64,
    acc: Seq<Data>,
) -> Result<Data, Seq<char>>
    decreases fuel,
{
    if fuel == 0 {
        Err(fuel_message())
    } else {
        let up = num_compare(o, CompareOp::Greater, step, zero) && num_compare(o, CompareOp::Less, i, stop);
        let down = num_compare(o, CompareOp::Less, step, zero) && num_compare(o, CompareOp::Greater, i, stop);
        if up || down {
            range_from(
                o,
                (fuel - 1) as nat,
                num_arith(o, ArithOp::Add, i, step),
                stop,
                step,
                zero,
                acc.push(Data::Number(i)),
            )
        } else {
            Ok(Data::List(acc))
        }
    }
}

/// `range(stop)`, `range(start, stop)` or `range(start, stop, step)`.
pub open spec fn range_result(o: spec_fn(Query) -> Answer, fuel: nat, args: Seq<Data>) -> Result<Data, Seq<char>> {
    let zero = count_number(o, 0);
    let one = count_number(o, 1);
    let bounds: Result<(u64, u64, u64), Seq<char>> = if args.len() == 1 {
        match args[0] {
            Data::Number(n) => Ok((zero, n, one)),
            _ => Err("range() expects numbers"@),
        }
    } else if args.len() == 2 {
        match (args[0], args[1]) {
            (Data::Number(a), Data::Number(b)) => Ok((a, b, one)),
            _ => Err("range() expects numbers"@),
        }
    } else if args.len() == 3 {
        match (args[0], args[1], args[2]) {
            (Data::Number(a), Data::Number(b), Data::Number(c)) => Ok((a, b, c)),
            _ => Err("range() expects numbers"@),
        }
    } else {
        Err("range() expects 1–3 arguments"@)
    };
    match bounds {
        Err(m) => Err(m),
        Ok((start, stop, step)) => if number_is_zero(step) {
            Err("range() step cannot be zero"@)
        } else {
            range_from(o, fuel, start, stop, step, zero, Seq::empty())
        },
    }
}

/// Evaluating an expression.
pub open spec fn eval(o: spec_fn(Query) -> Answer, fuel: nat, st: State, e: Expr) -> (State, Result<
    Data,
    Seq<char>,
>)
    decreases fuel, 0nat, 0nat,
{
    if fuel == 0 {
        (st, Err(fuel_message()))
    } else {
        let g = (fuel - 1) as nat;
        match e {
            Expr::NumberLiteral { value } => (st, Ok(Data::Number(value))),
            Expr::StringLiteral { value } => (st, Ok(Data::Str(value@))),
            Expr::BooleanLiteral { value } => (st, Ok(Data::Boolean(value))),
            Expr::NullLiteral => (st, Ok(Data::Null)),
            Expr::Identifier { name } => match lookup(st.scopes, name@) {
                Some(v) => (st, Ok(v)),
                None => (st, Err(undefined_message(name@))),
            },
            Expr::BinaryOp { left, op, right } => eval_binary(o, g, st, *left, op, *right),
            Expr::UnaryOp { op, operand } => {
                let (s1, r) = eval(o, g, st, *operand);
                match r {
                    Err(m) => (s1, Err(m)),
                    Ok(v) => (s1, unary_result(o, op, v)),
                }
            },
            Expr::FunctionCall { callee, args } => eval_call(o, g, st, *callee, args@),
            Expr::Index { object, index } => {
                let (s1, r1) = eval(o, g, st, *object);
                match r1 {
                    Err(m) => (s1, Err(m)),
                    Ok(obj) => {
                        let (s2, r2) = eval(o, g, s1, *index);
                        match r2 {
                            Err(m) => (s2, Err(m)),
                            Ok(idx) => (s2, index_result(o, obj, idx)),
                        }
                    },
                }
            },
            Expr::MemberAccess { object, member } => {
                let (s1, r) = eval(o, g, st, *object);
                match r {
                    Err(m) => (s1, Err(m)),
                    Ok(obj) => (s1, member_result(obj, member@)),
                }
            },
            Expr::ListLiteral { elements } => {
                let (s1, r) = eval_list(o, g, st, elements@, 0, Seq::empty());
                match r {
                    Err(m) => (s1, Err(m)),
                    Ok(vals) => (s1, Ok(Data::List(vals))),
                }
            },
            Expr::DictLiteral { entries } => {
                let (s1, r) = eval_dict(o, g, st, entries@, 0, Seq::empty());
                match r {
                    Err(m) => (s1, Err(m)),
                    Ok(es) => (s1, Ok(Data::Dict(es))),
                }
            },
            Expr::StringInterpolation { parts } => {
                let (s1, r) = eval_parts(o, g, st, parts@, 0, Seq::empty());
                match r {
                    Err(m) => (s1, Err(m)),
                    Ok(t) => (s1, Ok(Data::Str(t))),
                }
            },
            Expr::MethodCall { object, method, args } => eval_method_call(
                o,
                g,
                st,
                *object,
                method@,
                args@,
            ),
            Expr::New { class_name, args } => eval_new(o, g, st, class_name@, args@),
        }
    }
}

/// Evaluating both operands, then applying a binary operator.
pub open spec fn eval_binary(
    o: spec_fn(Query) -> Answer,
    fuel: nat,
    st: State,
    left: Expr,
    op: BinaryOperator,
    right: Expr,
) -> (State, Result<Data, Seq<char>>)
    decreases fuel, 4nat, 0nat,
{
    let (s1, r1) = eval(o, fuel, st, left);
    match r1 {
        Err(m) => (s1, Err(m)),
        Ok(lv) => {
            let (s2, r2) = eval(o, fuel, s1, right);
            match r2 {
                Err(m) => (s2, Err(m)),
                Ok(rv) => (s2, binary_result(o, lv, op, rv)),
            }
        },
    }
}

/// A call: `range(...)` is handled by its own rule; otherwise the callee,
/// then the arguments are evaluated, and the function is called.
pub open spec fn eval_call(
    o: spec_fn(Query) -> Answer,
    fuel: nat,
    st: State,
    callee: Expr,
    args: Seq<Expr>,
) -> (State, Result<Data, Seq<char>>)
    decreases fuel, 4nat, 0nat,
{
    if callee matches Expr::Identifier { name } && name@ == "range"@ {
        let (s1, r) = eval_list(o, fuel, st, args, 0, Seq::empty());
        match r {
            Err(m) => (s1, Err(m)),
            Ok(vals) => (s1, range_result(o, fuel, vals)),
        }
    } else {
        let (s1, r1) = eval(o, fuel, st, callee);
        match r1 {
            Err(m) => (s1, Err(m)),
            Ok(f) => {
                let (s2, r2) = eval_list(o, fuel, s1, args, 0, Seq::empty());
                match r2 {
                    Err(m) => (s2, Err(m)),
                    Ok(vals) => call_function(o, fuel, s2, f, vals),
                }
            },
        }
    }
}

/// A method call: the object, then the arguments are evaluated.
pub open spec fn eval_method_call(
    o: spec_fn(Query) -> Answer,
    fuel: nat,
    st: State,
    object: Expr,
    method: Seq<char>,
    args: Seq<Expr>,
) -> (State, Result<Data, Seq<char>>)
    decreases fuel, 4nat, 0nat,
{
    let (s1, r1) = eval(o, fuel, st, object);
    match r1 {
        Err(m) => (s1, Err(m)),
        Ok(obj) => {
            let (s2, r2) = eval_list(o, fuel, s1, args, 0, Seq::empty());
            match r2 {
                Err(m) => (s2, Err(m)),
                Ok(vals) => call_method(o, fuel, s2, obj, method, vals),
            }
        },
    }
}

/// `new Class(args)`: an instance with no fields, passed with the
/// arguments to `__init__` when the class has one (the call's result is the
/// result); without `__init__` the arguments are not evaluated.
pub open spec fn eval_new(
    o: spec_fn(Query) -> Answer,
    fuel: nat,
    st: State,
    class_name: Seq<char>,
    args: Seq<Expr>,
) -> (State, Result<Data, Seq<char>>)
    decreases fuel, 4nat, 0nat,
{
    match lookup(st.scopes, class_name) {
        None => (st, Err("Undefined class: '"@ + class_name + "'"@)),
        Some(Data::Class { name, methods }) => {
            let inst = Data::Instance { class_name: name, fields: Seq::empty() };
            match dict_get(methods, "__init__"@) {
                Some(init) => {
                    let (s1, r) = eval_list(o, fuel, st, args, 0, seq![inst]);
                    match r {
                        Err(m) => (s1, Err(m)),
                        Ok(vals) => call_with_self(o, fuel, s1, init, methods, vals),
                    }
                },
                None => (st, Ok(inst)),
            }
        },
        Some(other) => (st, Err("'"@ + type_label_of(other) + "' is not a class"@)),
    }
}

/// Evaluating expressions from position `i` on, after the values `acc`.
pub open spec fn eval_list(
    o: spec_fn(Query) -> Answer,
    fuel: nat,
    st: State,
    es: Seq<Expr>,
    i: int,
    acc: Seq<Data>,
) -> (State, Result<Seq<Data>, Seq<char>>)
    decreases fuel, 1nat, es.len() - i,
{
    if i < 0 || i >= es.len() {
        (st, Ok(acc))
    } else {
        let (s1, r) = eval(o, fuel, st, es[i]);
        match r {
            Err(m) => (s1, Err(m)),
            Ok(v) => eval_list(o, fuel, s1, es, i + 1, acc.push(v)),
        }
    }
}

/// The key of a dictionary literal entry: a string as it is, another value
/// as printed.
pub open spec fn key_text(o: spec_fn(Query) -> Answer, k: Data) -> Seq<char> {
    match k {
        Data::Str(s) => s,
        _ => show(o, k),
    }
}

/// Evaluating dictionary entries from position `i` on.
pub open spec fn eval_dict(
    o: spec_fn(Query) -> Answer,
    fuel: nat,
    st: State,
    es: Seq<(Expr, Expr)>,
    i: int,
    acc: Seq<(Seq<char>, Data)>,
) -> (State, Result<Seq<(Seq<char>, Data)>, Seq<char>>)
    decreases fuel, 1nat, es.len() - i,
{
    if i < 0 || i >= es.len() {
        (st, Ok(acc))
    } else {
        let (s1, r1) = eval(o, fuel, st, es[i].0);
        match r1 {
            Err(m) => (s1, Err(m)),
            Ok(k) => {
                let (s2, r2) = eval(o, fuel, s1, es[i].1);
                match r2 {
                    Err(m) => (s2, Err(m)),
                    Ok(v) => eval_dict(o, fuel, s2, es, i + 1, dict_insert(acc, key_text(o, k), v)),
                }
            },
        }
    }
}

/// Evaluating the parts of an interpolated string from position `i` on.
pub open spec fn eval_parts(
    o: spec_fn(Query) -> Answer,
    fuel: nat,
    st: State,
    parts: Seq<StringPart>,
    i: int,
    acc: Seq<char>,
) -> (State, Result<Seq<char>, Seq<char>>)
    decreases fuel, 1nat, parts.len() - i,
{
    if i < 0 || i >= parts.len() {
        (st, Ok(acc))
    } else {
        match parts[i] {
            StringPart::Literal(s) => eval_parts(o, fuel, st, parts, i + 1, acc + s@),
            StringPart::Expression(e) => {
                let (s1, r) = eval(o, fuel, st, e);
                match r {
                    Err(m) => (s1, Err(m)),
                    Ok(v) => eval_parts(o, fuel, s1, parts, i + 1, acc + show(o, v)),
                }
            },
        }
    }
}

/// Calling a value with arguments. A function's body runs on the scopes that
/// enclosed its definition and a new scope binding its parameters; afterwards
/// the caller has its own scopes back, those the body saw as it left them.
pub open spec fn call_function(
    o: spec_fn(Query) -> Answer,
    fuel: nat,
    st: State,
    f: Data,
    args: Seq<Data>,
) -> (State, Result<Data, Seq<char>>)
    decreases fuel, 2nat, 0nat,
{
    match f {
        Data::Function { name, params, body, depth } => if args.len() != params.len() {
            (
                st,
                Err(
                    "Function '"@ + name + "' expects "@ + decimal(params.len()) + " arguments, got "@
                        + decimal(args.len()),
                ),
            )
        } else {
            let s1 = with_scopes(st, bind_params(call_scopes(st.scopes, depth), params, args));
            let (s2, r) = run_body(o, fuel, s1, body, 0);
            (with_scopes(s2, return_scopes(st.scopes, s2.scopes, depth)), r)
        },
        Data::NativeFunction { name, arity, builtin } => if args.len() != arity {
            (
                st,
                Err(
                    "Native function '"@ + name + "' expects "@ + decimal(arity as nat)
                        + " arguments, got "@ + decimal(args.len()),
                ),
            )
        } else if args.len() != builtin_arity(builtin) {
            (
                st,
                Err(
                    "Native function '"@ + name + "' expects "@ + decimal(builtin_arity(builtin) as nat)
                        + " arguments, got "@ + decimal(args.len()),
                ),
            )
        } else {
            let (k, r) = apply_builtin(o, st.reads, builtin, args);
            (State { reads: k, ..st }, r)
        },
        _ => (st, Err("'"@ + type_label_of(f) + "' is not a function"@)),
    }
}

/// Calling a method of a class: like a function call, with the class's
/// methods bound in the call's scope unless their names can already be read.
pub open spec fn call_with_self(
    o: spec_fn(Query) -> Answer,
    fuel: nat,
    st: State,
    f: Data,
    methods: Seq<(Seq<char>, Data)>,
    args: Seq<Data>,
) -> (State, Result<Data, Seq<char>>)
    decreases fuel, 2nat, 0nat,
{
    match f {
        Data::Function { name, params, body, depth } => if args.len() != params.len() {
            (
                st,
                Err(
                    "Method '"@ + name + "' expects "@ + decimal(params.len()) + " arguments, got "@
                        + decimal(args.len()),
                ),
            )
        } else {
            let s1 = with_scopes(
                st,
                inject_methods(bind_params(call_scopes(st.scopes, depth), params, args), methods),
            );
            let (s2, r) = run_body(o, fuel, s1, body, 0);
            (with_scopes(s2, return_scopes(st.scopes, s2.scopes, depth)), r)
        },
        _ => (st, Err("'"@ + type_label_of(f) + "' is not callable"@)),
    }
}

/// Calling a method on a value.
pub open spec fn call_method(
    o: spec_fn(Query) -> Answer,
    fuel: nat,
    st: State,
    obj: Data,
    method: Seq<char>,
    args: Seq<Data>,
) -> (State, Result<Data, Seq<char>>)
    decreases fuel, 3nat, 0nat,
{
    match obj {
        Data::Instance { class_name, fields } => match lookup(st.scopes, class_name) {
            None => (st, Err("Class '"@ + class_name + "' not found"@)),
            Some(Data::Class { name, methods }) => match dict_get(methods, method) {
                None => (st, Err("'"@ + class_name + "' has no method '"@ + method + "'"@)),
                Some(mf) => call_with_self(
                    o,
                    fuel,
                    st,
                    mf,
                    methods,
                    seq![Data::Instance { class_name: name, fields }] + args,
                ),
            },
            Some(_) => (st, Err("'"@ + class_name + "' is not a class"@)),
        },
        _ => (st, prim_method(o, obj, method, args)),
    }
}

/// Running a function body from position `i`: statements run until one
/// returns; other ways of ending a statement are passed over. Without a
/// `return` the result is null.
pub open spec fn run_body(
    o: spec_fn(Query) -> Answer,
    fuel: nat,
    st: State,
    body: Seq<Statement>,
    i: int,
) -> (State, Result<Data, Seq<char>>)
    decreases fuel, 1nat, body.len() - i,
{
    if i < 0 || i >= body.len() {
        (st, Ok(Data::Null))
    } else {
        let (s1, r) = exec_stmt(o, fuel, st, body[i]);
        match r {
            Err(m) => (s1, Err(m)),
            Ok(Flow::Return(v)) => (s1, Ok(v)),
            Ok(_) => run_body(o, fuel, s1, body, i + 1),
        }
    }
}

/// Running a block from position `i`: statements run until one ends other
/// than normally, and that is how the block ends.
pub open spec fn run_block(
    o: spec_fn(Query) -> Answer,
    fuel: nat,
    st: State,
    body: Seq<Statement>,
    i: int,
) -> (State, Result<Flow, Seq<char>>)
    decreases fuel, 1nat, body.len() - i,
{
    if i < 0 || i >= body.len() {
        (st, Ok(Flow::Normal))
    } else {
        let (s1, r) = exec_stmt(o, fuel, st, body[i]);
        match r {
            Err(m) => (s1, Err(m)),
            Ok(Flow::Normal) => run_block(o, fuel, s1, body, i + 1),
            Ok(other) => (s1, Ok(other)),
        }
    }
}

/// A `while` loop: each round costs a unit of the budget.
pub open spec fn while_loop(
    o: spec_fn(Query) -> Answer,
    fuel: nat,
    st: State,
    cond: Expr,
    body: Seq<Statement>,
) -> (State, Result<Flow, Seq<char>>)
    decreases fuel, 0nat, 0nat,
{
    if fuel == 0 {
        (st, Err(fuel_message()))
    } else {
        let h = (fuel - 1) as nat;
        let (s1, c) = eval(o, h, st, cond);
        match c {
            Err(m) => (s1, Err(m)),
            Ok(v) => if !truthy(v) {
                (s1, Ok(Flow::Normal))
            } else {
                let (s2, r) = run_block(o, h, s1, body, 0);
                match r {
                    Err(m) => (s2, Err(m)),
                    Ok(Flow::Normal) => while_loop(o, h, s2, cond, body),
                    Ok(Flow::Continue) => while_loop(o, h, s2, cond, body),
                    Ok(Flow::Break) => (s2, Ok(Flow::Normal)),
                    Ok(other) => (s2, Ok(other)),
                }
            },
        }
    }
}

/// A `for` loop over the items from position `k` on.
pub open spec fn for_loop(
    o: spec_fn(Query) -> Answer,
    fuel: nat,
    st: State,
    var: Seq<char>,
    items: Seq<Data>,
    k: int,
    body: Seq<Statement>,
) -> (State, Result<Flow, Seq<char>>)
    decreases fuel, 2nat, items.len() - k,
{
    if k < 0 || k >= items.len() {
        (st, Ok(Flow::Normal))
    } else {
        let s1 = with_scopes(st, assign(st.scopes, var, items[k]));
        let (s2, r) = run_block(o, fuel, s1, body, 0);
        match r {
            Err(m) => (s2, Err(m)),
            Ok(Flow::Normal) => for_loop(o, fuel, s2, var, items, k + 1, body),
            Ok(Flow::Continue) => for_loop(o, fuel, s2, var, items, k + 1, body),
            Ok(Flow::Break) => (s2, Ok(Flow::Normal)),
            Ok(other) => (s2, Ok(other)),
        }
    }
}

/// Executing a statement.
pub open spec fn exec_stmt(o: spec_fn(Query) -> Answer, fuel: nat, st: State, s: Statement) -> (State, Result<
    Flow,
    Seq<char>,
>)
    decreases fuel, 0nat, 0nat,
{
    if fuel == 0 {
        (st, Err(fuel_message()))
    } else {
        let g = (fuel - 1) as nat;
        match s {
            Statement::Assignment { name, value } => {
                let (s1, r) = eval(o, g, st, value);
                match r {
                    Err(m) => (s1, Err(m)),
                    Ok(v) => (with_scopes(s1, assign(s1.scopes, name@, v)), Ok(Flow::Normal)),
                }
            },
            Statement::FunctionDef { name, params, body } => (
                with_scopes(
                    st,
                    bind(
                        st.scopes,
                        name@,
                        Data::Function {
                            name: name@,
                            params: names_view(params@),
                            body: body@,
                            depth: st.scopes.len() as usize,
                        },
                    ),
                ),
                Ok(Flow::Normal),
            ),
            Statement::If { condition, then_body, else_body } => exec_if(
                o,
                g,
                st,
                condition,
                then_body@,
                else_body,
            ),
            Statement::While { condition, body } => while_loop(o, g, st, condition, body@),
            Statement::For { variable, iterable, body } => exec_for(
                o,
                g,
                st,
                variable@,
                iterable,
                body@,
            ),
            Statement::Return { value } => match value {
                Some(e) => {
                    let (s1, r) = eval(o, g, st, e);
                    match r {
                        Err(m) => (s1, Err(m)),
                        Ok(v) => (s1, Ok(Flow::Return(v))),
                    }
                },
                None => (st, Ok(Flow::Return(Data::Null))),
            },
            Statement::Import { module } => (
                emit(st, "[import: "@ + module@ + "]"@),
                Ok(Flow::Normal),
            ),
            Statement::Print { value } => {
                let (s1, r) = eval(o, g, st, value);
                match r {
                    Err(m) => (s1, Err(m)),
                    Ok(v) => (emit(s1, show(o, v)), Ok(Flow::Normal)),
                }
            },
            Statement::ExprStatement { expr } => {
                let (s1, r) = eval(o, g, st, expr);
                match r {
                    Err(m) => (s1, Err(m)),
                    Ok(_) => (s1, Ok(Flow::Normal)),
                }
            },
            Statement::Break => (st, Ok(Flow::Break)),
            Statement::Continue => (st, Ok(Flow::Continue)),
            Statement::Throw { value } => {
                let (s1, r) = eval(o, g, st, value);
                match r {
                    Err(m) => (s1, Err(m)),
                    Ok(v) => (s1, Ok(Flow::Throw(v))),
                }
            },
            Statement::TryCatch { try_body, catch_var, catch_body } => exec_try(
                o,
                g,
                st,
                try_body@,
                catch_var@,
                catch_body@,
            ),
            Statement::CompoundAssignment { name, op, value } => exec_compound(
                o,
                g,
                st,
                name@,
                op,
                value,
            ),
            Statement::ClassDef { name, methods } => (
                with_scopes(
                    st,
                    bind(
                        st.scopes,
                        name@,
                        Data::Class {
                            name: name@,
                            methods: class_methods(methods@, st.scopes.len() as usize),
                        },
                    ),
                ),
                Ok(Flow::Normal),
            ),
        }
    }
}

/// An `if` statement.
pub open spec fn exec_if(
    o: spec_fn(Query) -> Answer,
    fuel: nat,
    st: State,
    cond: Expr,
    then_body: Seq<Statement>,
    else_body: Option<Vec<Statement>>,
) -> (State, Result<Flow, Seq<char>>)
    decreases fuel, 4nat, 0nat,
{
    let (s1, c) = eval(o, fuel, st, cond);
    match c {
        Err(m) => (s1, Err(m)),
        Ok(v) => if truthy(v) {
            run_block(o, fuel, s1, then_body, 0)
        } else {
            match else_body {
                Some(b) => run_block(o, fuel, s1, b@, 0),
                None => (s1, Ok(Flow::Normal)),
            }
        },
    }
}

/// A `for` statement.
pub open spec fn exec_for(
    o: spec_fn(Query) -> Answer,
    fuel: nat,
    st: State,
    var: Seq<char>,
    iterable: Expr,
    body: Seq<Statement>,
) -> (State, Result<Flow, Seq<char>>)
    decreases fuel, 4nat, 0nat,
{
    let (s1, r) = eval(o, fuel, st, iterable);
    match r {
        Err(m) => (s1, Err(m)),
        Ok(Data::List(items)) => for_loop(o, fuel, s1, var, items, 0, body),
        Ok(other) => (s1, Err("Cannot iterate over "@ + type_label_of(other))),
    }
}

/// A `try`/`catch` statement: a value thrown in the try block is bound to
/// the catch variable (unless it is empty) in a new scope for the catch
/// block; the scope is left when the catch block ends without an error.
pub open spec fn exec_try(
    o: spec_fn(Query) -> Answer,
    fuel: nat,
    st: State,
    try_body: Seq<Statement>,
    catch_var: Seq<char>,
    catch_body: Seq<Statement>,
) -> (State, Result<Flow, Seq<char>>)
    decreases fuel, 4nat, 0nat,
{
    let (s1, r) = run_block(o, fuel, st, try_body, 0);
    match r {
        Err(m) => (s1, Err(m)),
        Ok(Flow::Throw(v)) => {
            let sc = enter(s1.scopes);
            let s2 = with_scopes(
                s1,
                if catch_var.len() == 0 {
                    sc
                } else {
                    bind(sc, catch_var, v)
                },
            );
            let (s3, r2) = run_block(o, fuel, s2, catch_body, 0);
            match r2 {
                Err(m) => (s3, Err(m)),
                Ok(flow) => (with_scopes(s3, leave(s3.scopes)), Ok(flow)),
            }
        },
        Ok(flow) => (s1, Ok(flow)),
    }
}

/// A compound assignment: the variable is read before the right-hand side
/// is evaluated.
pub open spec fn exec_compound(
    o: spec_fn(Query) -> Answer,
    fuel: nat,
    st: State,
    name: Seq<char>,
    op: CompoundOp,
    value: Expr,
) -> (State, Result<Flow, Seq<char>>)
    decreases fuel, 4nat, 0nat,
{
    match lookup(st.scopes, name) {
        None => (st, Err(undefined_message(name))),
        Some(cur) => {
            let (s1, r) = eval(o, fuel, st, value);
            match r {
                Err(m) => (s1, Err(m)),
                Ok(rhs) => match compound_result(o, cur, op, rhs) {
                    Err(m) => (s1, Err(m)),
                    Ok(res) => (with_scopes(s1, assign(s1.scopes, name, res)), Ok(Flow::Normal)),
                },
            }
        },
    }
}

/// Running a program: statements run in order until one ends other than
/// normally; a value thrown out of the program is an error.
pub open spec fn run_program(
    o: spec_fn(Query) -> Answer,
    fuel: nat,
    st: State,
    stmts: Seq<Statement>,
) -> (State, Result<(), Seq<char>>) {
    let (s1, r) = run_block(o, fuel, st, stmts, 0);
    match r {
        Err(m) => (s1, Err(m)),
        Ok(Flow::Throw(v)) => (s1, Err("Uncaught exception: "@ + show(o, v))),
        Ok(_) => (s1, Ok(())),
    }
}

} // verus!
