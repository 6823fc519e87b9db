//! The tree-walking evaluator: each function computes what the semantics in
//! `semantics` says, for a deterministic host.

use crate::ast::{BinaryOperator, CompoundOp, Expr, Program, Statement, StringPart, UnaryOperator};
use crate::builtins::{
    arity_of, builtin_arity, builtin_label, builtin_name, call_builtin, read_input,
};
use crate::display::{value_text, write_value};
use crate::environment::{bind, call_scopes, lookup, return_scopes, Environment};
use crate::host::{
    arith, compare, format_whole, from_count, host_deterministic, host_ready, math, oracle_of,
    print_line, to_index, ArithOp, CompareOp, MathOp, Reply, Request,
};
use crate::laws::{keeps, law_run_keeps};
use crate::methods::{
    call_prim_method, dict_get, dict_insert, find_key, lemma_key_index, lemma_keys_of_entries,
};
use crate::semantics::{
    binary_result, bind_params, call_function, call_method, call_with_self, class_methods,
    compound_result, compound_text, emit, eval, eval_binary, eval_call, eval_dict, eval_list,
    eval_method_call, eval_new, eval_parts, exec_compound, exec_for, exec_if, exec_stmt,
    exec_try, for_loop, fuel_message, index_result, inject_methods, key_text, member_result,
    operator_text, range_from, range_result, run_block, run_body, run_program, unary_result,
    undefined_message, while_loop, with_scopes, Flow, State,
};
use crate::text::{decimal, decimal_text, push_text};
use crate::value::{
    duplicate_names, entries_view, is_zero, lemma_values_view_empty, lemma_values_view_len,
    lemma_values_view_push, names_view, result_view, share_body, values_view, Builtin, Data,
    Value,
};
use std::rc::Rc;
use vstd::prelude::*;

verus! {

/// How a statement ended.
pub enum Signal {
    Normal,
    Return(Value),
    Break,
    Continue,
    Throw(Value),
}

impl View for Signal {
    type V = Flow;

    open spec fn view(&self) -> Flow {
        match self {
            Signal::Normal => Flow::Normal,
            Signal::Return(v) => Flow::Return(v@),
            Signal::Break => Flow::Break,
            Signal::Continue => Flow::Continue,
            Signal::Throw(v) => Flow::Throw(v@),
        }
    }
}

pub open spec fn flow_view(r: Result<Signal, String>) -> Result<Flow, Seq<char>> {
    match r {
        Ok(s) => Ok(s@),
        Err(m) => Err(m@),
    }
}

pub open spec fn list_view(r: Result<Vec<Value>, String>) -> Result<Seq<Data>, Seq<char>> {
    match r {
        Ok(v) => Ok(values_view(v@)),
        Err(m) => Err(m@),
    }
}

/// An error raised while a program runs.
#[derive(Debug)]
pub struct RuntimeError {
    pub message: String,
}

/// The depth budget of a run: far more than any program can use.
pub const FUEL: u64 = 0xffff_ffff_ffff_ffffu64;

/// A KelpyShark interpreter: the scopes of a running program and, when it
/// was made with a buffer, the lines it printed; without a buffer, printed
/// lines go to the host.
pub struct Interpreter {
    pub env: Environment<Value>,
    /// Whether printed lines are kept in `output` (or handed to the host).
    pub buffered: bool,
    /// The lines printed into the buffer.
    pub output: Vec<String>,
    /// How many lines of input have been read.
    pub reads: u64,
    /// The lines handed to the host to print.
    pub sent: Ghost<Seq<Seq<char>>>,
}

impl View for Interpreter {
    type V = State;

    open spec fn view(&self) -> State {
        State {
            scopes: self.env@,
            reads: self.reads,
            out: self.output@.map_values(|s: String| s@),
            sent: self.sent@,
            buffered: self.buffered,
        }
    }
}

fn message(text: &str) -> (r: String)
    ensures
        r@ == text@,
{
    let mut m = String::new();
    push_text(&mut m, text);
    m
}

fn undefined(name: &String) -> (r: String)
    ensures
        r@ == undefined_message(name@),
{
    let mut m = message("Undefined variable: '");
    push_text(&mut m, name.as_str());
    push_text(&mut m, "'");
    m
}

fn out_of_fuel() -> (r: String)
    ensures
        r@ == fuel_message(),
{
    message("Evaluation nested too deeply")
}

fn operator_label(op: BinaryOperator) -> (r: &'static str)
    ensures
        r@ == operator_text(op),
{
    match op {
        BinaryOperator::Add => "+",
        BinaryOperator::Subtract => "-",
        BinaryOperator::Multiply => "*",
        BinaryOperator::Divide => "/",
        BinaryOperator::Modulo => "%",
        BinaryOperator::Equal => "==",
        BinaryOperator::NotEqual => "!=",
        BinaryOperator::LessThan => "<",
        BinaryOperator::LessEqual => "<=",
        BinaryOperator::GreaterThan => ">",
        BinaryOperator::GreaterEqual => ">=",
        BinaryOperator::And => "and",
        BinaryOperator::Or => "or",
    }
}

fn compound_label(op: CompoundOp) -> (r: &'static str)
    ensures
        r@ == compound_text(op),
{
    match op {
        CompoundOp::Add => "Add",
        CompoundOp::Subtract => "Subtract",
        CompoundOp::Multiply => "Multiply",
        CompoundOp::Divide => "Divide",
    }
}

/// What a binary operator gives for two values.
pub fn binary_op<F: Fn(Request) -> Reply>(l: &Value, op: BinaryOperator, r: &Value, host: &F) -> (res:
    Result<Value, String>)
    requires
        host_ready(*host),
        host_deterministic(*host),
    ensures
        result_view(res) == binary_result(oracle_of(*host), l@, op, r@),
{
    let arith_op = match op {
        BinaryOperator::Add | BinaryOperator::Subtract | BinaryOperator::Multiply
        | BinaryOperator::Divide | BinaryOperator::Modulo => true,
        _ => false,
    };
    let comparison = match op {
        BinaryOperator::LessThan | BinaryOperator::LessEqual | BinaryOperator::GreaterThan
        | BinaryOperator::GreaterEqual => true,
        _ => false,
    };
    match (l, r) {
        (Value::Number(a), Value::Number(b)) => {
            if arith_op {
                if op == BinaryOperator::Divide && is_zero(*b) {
                    return Err(message("Division by zero"));
                }
                if op == BinaryOperator::Modulo && is_zero(*b) {
                    return Err(message("Modulo by zero"));
                }
                let aop = match op {
                    BinaryOperator::Add => ArithOp::Add,
                    BinaryOperator::Subtract => ArithOp::Subtract,
                    BinaryOperator::Multiply => ArithOp::Multiply,
                    BinaryOperator::Divide => ArithOp::Divide,
                    _ => ArithOp::Remainder,
                };
                return Ok(Value::Number(arith(host, aop, *a, *b)));
            }
            if comparison {
                let cop = match op {
                    BinaryOperator::LessThan => CompareOp::Less,
                    BinaryOperator::LessEqual => CompareOp::LessEqual,
                    BinaryOperator::GreaterThan => CompareOp::Greater,
                    _ => CompareOp::GreaterEqual,
                };
                return Ok(Value::Boolean(compare(host, cop, *a, *b)));
            }
        },
        _ => {},
    }
    if op == BinaryOperator::Add {
        match l {
            Value::String(a) => {
                let mut s = a.clone();
                write_value(&mut s, r, host);
                return Ok(Value::String(s));
            },
            _ => {},
        }
        match r {
            Value::String(b) => {
                let mut s = value_text(l, host);
                push_text(&mut s, b.as_str());
                return Ok(Value::String(s));
            },
            _ => {},
        }
    }
    match op {
        BinaryOperator::Equal => Ok(Value::Boolean(l.equals(r))),
        BinaryOperator::NotEqual => Ok(Value::Boolean(!l.equals(r))),
        BinaryOperator::And => Ok(Value::Boolean(l.is_truthy() && r.is_truthy())),
        BinaryOperator::Or => Ok(Value::Boolean(l.is_truthy() || r.is_truthy())),
        _ => {
            let mut m = message("Cannot apply '");
            push_text(&mut m, operator_label(op));
            push_text(&mut m, "' to ");
            push_text(&mut m, l.type_label());
            push_text(&mut m, " and ");
            push_text(&mut m, r.type_label());
            Err(m)
        },
    }
}

/// What a unary operator gives.
pub fn unary_op<F: Fn(Request) -> Reply>(op: UnaryOperator, v: &Value, host: &F) -> (res: Result<
    Value,
    String,
>)
    requires
        host_ready(*host),
        host_deterministic(*host),
    ensures
        result_view(res) == unary_result(oracle_of(*host), op, v@),
{
    match op {
        UnaryOperator::Negate => match v {
            Value::Number(n) => Ok(Value::Number(math(host, MathOp::Negate, *n))),
            _ => {
                let mut m = message("Cannot negate ");
                push_text(&mut m, v.type_label());
                Err(m)
            },
        },
        UnaryOperator::Not => Ok(Value::Boolean(!v.is_truthy())),
    }
}

fn typed_error(before: &str, v: &Value, after: &str) -> (r: String)
    ensures
        r@ == before@ + crate::value::type_label_of(v@) + after@,
{
    let mut m = message(before);
    push_text(&mut m, v.type_label());
    push_text(&mut m, after);
    m
}

/// What a compound assignment stores.
pub fn compound_op<F: Fn(Request) -> Reply>(cur: &Value, op: CompoundOp, rhs: &Value, host: &F) -> (res:
    Result<Value, String>)
    requires
        host_ready(*host),
        host_deterministic(*host),
    ensures
        result_view(res) == compound_result(oracle_of(*host), cur@, op, rhs@),
{
    match cur {
        Value::Number(a) => match op {
            CompoundOp::Add => match rhs {
                Value::Number(b) => Ok(Value::Number(arith(host, ArithOp::Add, *a, *b))),
                Value::String(b) => {
                    let mut s = format_whole(host, *a);
                    push_text(&mut s, b.as_str());
                    Ok(Value::String(s))
                },
                _ => Err(typed_error("Cannot += ", rhs, " to number")),
            },
            CompoundOp::Subtract => match rhs {
                Value::Number(b) => Ok(Value::Number(arith(host, ArithOp::Subtract, *a, *b))),
                _ => Err(typed_error("Cannot -= ", rhs, " from number")),
            },
            CompoundOp::Multiply => match rhs {
                Value::Number(b) => Ok(Value::Number(arith(host, ArithOp::Multiply, *a, *b))),
                _ => Err(typed_error("Cannot *= ", rhs, " with number")),
            },
            CompoundOp::Divide => match rhs {
                Value::Number(b) => {
                    if is_zero(*b) {
                        Err(message("Division by zero"))
                    } else {
                        Ok(Value::Number(arith(host, ArithOp::Divide, *a, *b)))
                    }
                },
                _ => Err(typed_error("Cannot /= ", rhs, " with number")),
            },
        },
        Value::String(a) => match op {
            CompoundOp::Add => {
                let mut s = a.clone();
                write_value(&mut s, rhs, host);
                Ok(Value::String(s))
            },
            _ => {
                let mut m = message("Cannot apply ");
                push_text(&mut m, compound_label(op));
                push_text(&mut m, " to ");
                push_text(&mut m, cur.type_label());
                Err(m)
            },
        },
        _ => {
            let mut m = message("Cannot apply ");
            push_text(&mut m, compound_label(op));
            push_text(&mut m, " to ");
            push_text(&mut m, cur.type_label());
            Err(m)
        },
    }
}

/// The value under a key of a dictionary.
fn entry_value(entries: &Vec<(String, Value)>, key: &str) -> (r: Option<Value>)
    ensures
        match r {
            Some(v) => dict_get(entries_view(entries@), key@) == Some(v@),
            None => dict_get(entries_view(entries@), key@) is None,
        },
{
    let found = find_key(entries, key);
    proof {
        lemma_keys_of_entries(entries@, key@);
        lemma_key_index(entries_view(entries@), key@);
    }
    match found {
        Some(i) => {
            assert(entries_view(entries@)[i as int].1 == entries@[i as int].1@);
            Some(entries[i].1.duplicate())
        },
        None => None,
    }
}

/// What indexing gives.
pub fn index_op<F: Fn(Request) -> Reply>(obj: &Value, idx: &Value, host: &F) -> (res: Result<
    Value,
    String,
>)
    requires
        host_ready(*host),
        host_deterministic(*host),
    ensures
        result_view(res) == index_result(oracle_of(*host), obj@, idx@),
{
    match (obj, idx) {
        (Value::List(items), Value::Number(n)) => {
            let i = to_index(host, *n);
            proof {
                lemma_values_view_len(items@);
            }
            if i < items.len() {
                Ok(items[i].duplicate())
            } else {
                let mut m = message("Index ");
                let d = decimal_text(i);
                push_text(&mut m, d.as_str());
                push_text(&mut m, " out of bounds (list length ");
                let d2 = decimal_text(items.len());
                push_text(&mut m, d2.as_str());
                push_text(&mut m, ")");
                Err(m)
            }
        },
        (Value::Dict(entries), Value::String(key)) => match entry_value(entries, key.as_str()) {
            Some(v) => Ok(v),
            None => {
                let mut m = message("Key '");
                push_text(&mut m, key.as_str());
                push_text(&mut m, "' not found in dict");
                Err(m)
            },
        },
        _ => {
            let mut m = message("Cannot index ");
            push_text(&mut m, obj.type_label());
            push_text(&mut m, " with ");
            push_text(&mut m, idx.type_label());
            Err(m)
        },
    }
}

/// What member access gives.
pub fn member_op(obj: &Value, member: &String) -> (res: Result<Value, String>)
    ensures
        result_view(res) == member_result(obj@, member@),
{
    match obj {
        Value::Dict(entries) => match entry_value(entries, member.as_str()) {
            Some(v) => Ok(v),
            None => {
                let mut m = message("Key '");
                push_text(&mut m, member.as_str());
                push_text(&mut m, "' not found in dict");
                Err(m)
            },
        },
        Value::Instance { fields, .. } => match entry_value(fields, member.as_str()) {
            Some(v) => Ok(v),
            None => {
                let mut m = message("Field '");
                push_text(&mut m, member.as_str());
                push_text(&mut m, "' not found on instance");
                Err(m)
            },
        },
        _ => {
            let mut m = message("Cannot access member '");
            push_text(&mut m, member.as_str());
            push_text(&mut m, "' on ");
            push_text(&mut m, obj.type_label());
            Err(m)
        },
    }
}

/// `range(...)` on evaluated arguments, with at most `fuel` numbers.
pub fn range_op<F: Fn(Request) -> Reply>(args: &Vec<Value>, fuel: u64, host: &F) -> (res: Result<
    Value,
    String,
>)
    requires
        host_ready(*host),
        host_deterministic(*host),
    ensures
        result_view(res) == range_result(oracle_of(*host), fuel as nat, values_view(args@)),
{
    let ghost o = oracle_of(*host);
    let ghost vs = values_view(args@);
    proof {
        lemma_values_view_len(args@);
    }
    let zero = from_count(host, 0);
    let one = from_count(host, 1);
    let n = args.len();
    let bounds: Option<(u64, u64, u64)> = if n == 1 {
        match &args[0] {
            Value::Number(x) => Some((zero, *x, one)),
            _ => None,
        }
    } else if n == 2 {
        match (&args[0], &args[1]) {
            (Value::Number(a), Value::Number(b)) => Some((*a, *b, one)),
            _ => None,
        }
    } else if n == 3 {
        match (&args[0], &args[1], &args[2]) {
            (Value::Number(a), Value::Number(b), Value::Number(c)) => Some((*a, *b, *c)),
            _ => None,
        }
    } else {
        return Err(message("range() expects 1–3 arguments"));
    };
    match bounds {
        None => Err(message("range() expects numbers")),
        Some((start, stop, step)) => {
            if is_zero(step) {
                return Err(message("range() step cannot be zero"));
            }
            let mut items: Vec<Value> = Vec::new();
            assert(values_view(items@) =~= Seq::<Data>::empty());
            assert(range_result(o, fuel as nat, vs) == range_from(
                o,
                fuel as nat,
                start,
                stop,
                step,
                zero,
                Seq::empty(),
            ));
            let mut i = start;
            let mut f = fuel;
            loop
                invariant
                    host_ready(*host),
                    host_deterministic(*host),
                    o == oracle_of(*host),
                    vs == values_view(args@),
                    range_result(o, fuel as nat, vs) == range_from(
                        o,
                        f as nat,
                        i,
                        stop,
                        step,
                        zero,
                        values_view(items@),
                    ),
                decreases f,
            {
                if f == 0 {
                    return Err(out_of_fuel());
                }
                let up = compare(host, CompareOp::Greater, step, zero) && compare(
                    host,
                    CompareOp::Less,
                    i,
                    stop,
                );
                let down = compare(host, CompareOp::Less, step, zero) && compare(
                    host,
                    CompareOp::Greater,
                    i,
                    stop,
                );
                if !(up || down) {
                    return Ok(Value::List(items));
                }
                proof {
                    lemma_values_view_push(items@, Value::Number(i));
                }
                items.push(Value::Number(i));
                i = arith(host, ArithOp::Add, i, step);
                f = f - 1;
            }
        },
    }
}

impl Interpreter {
    /// Prints a line: into the buffer, or through the host.
    fn emit<F: Fn(Request) -> Reply>(&mut self, line: String, host: &F)
        requires
            host_ready(*host),
            host_deterministic(*host),
        ensures
            final(self)@ == emit(old(self)@, line@),
    {
        if self.buffered {
            self.output.push(line);
            assert(self@.out =~= old(self)@.out.push(line@));
            assert(self@ =~= emit(old(self)@, line@));
        } else {
            let ghost printed = line@;
            print_line(host, line);
            self.sent = Ghost(self.sent@.push(printed));
            assert(self@ =~= emit(old(self)@, printed));
        }
    }

    /// Evaluates an expression.
    pub fn eval<F: Fn(Request) -> Reply>(&mut self, e: &Expr, fuel: u64, host: &F) -> (r: Result<
        Value,
        String,
    >)
        requires
            host_ready(*host),
            host_deterministic(*host),
        ensures
            final(self)@ == eval(oracle_of(*host), fuel as nat, old(self)@, *e).0,
            result_view(r) == eval(oracle_of(*host), fuel as nat, old(self)@, *e).1,
        decreases fuel, 0nat, 0nat,
    {
        proof {
            lemma_values_view_empty();
        }
        if fuel == 0 {
            return Err(out_of_fuel());
        }
        let g = fuel - 1;
        match e {
            Expr::NumberLiteral { value } => Ok(Value::Number(*value)),
            Expr::StringLiteral { value } => Ok(Value::String(value.clone())),
            Expr::BooleanLiteral { value } => Ok(Value::Boolean(*value)),
            Expr::NullLiteral => Ok(Value::Null),
            Expr::Identifier { name } => match self.env.get(name.as_str()) {
                Some(v) => Ok(v.duplicate()),
                None => Err(undefined(name)),
            },
            Expr::BinaryOp { left, op, right } => self.eval_binary(left, *op, right, g, host),
            Expr::UnaryOp { op, operand } => {
                match self.eval(operand, g, host) {
                    Err(m) => Err(m),
                    Ok(v) => unary_op(*op, &v, host),
                }
            },
            Expr::FunctionCall { callee, args } => self.eval_call(callee, args, g, host),
            Expr::Index { object, index } => {
                match self.eval(object, g, host) {
                    Err(m) => Err(m),
                    Ok(obj) => match self.eval(index, g, host) {
                        Err(m) => Err(m),
                        Ok(idx) => index_op(&obj, &idx, host),
                    },
                }
            },
            Expr::MemberAccess { object, member } => {
                match self.eval(object, g, host) {
                    Err(m) => Err(m),
                    Ok(obj) => member_op(&obj, member),
                }
            },
            Expr::ListLiteral { elements } => {
                match self.eval_list(elements, Vec::new(), g, host) {
                    Err(m) => Err(m),
                    Ok(vals) => Ok(Value::List(vals)),
                }
            },
            Expr::DictLiteral { entries } => {
                match self.eval_dict(entries, g, host) {
                    Err(m) => Err(m),
                    Ok(es) => Ok(Value::Dict(es)),
                }
            },
            Expr::StringInterpolation { parts } => {
                match self.eval_parts(parts, g, host) {
                    Err(m) => Err(m),
                    Ok(t) => Ok(Value::String(t)),
                }
            },
            Expr::MethodCall { object, method, args } => self.eval_method_call(
                object,
                method,
                args,
                g,
                host,
            ),
            Expr::New { class_name, args } => self.eval_new(class_name, args, g, host),
        }
    }

    fn eval_binary<F: Fn(Request) -> Reply>(
        &mut self,
        left: &Expr,
        op: BinaryOperator,
        right: &Expr,
        fuel: u64,
        host: &F,
    ) -> (r: Result<Value, String>)
        requires
            host_ready(*host),
            host_deterministic(*host),
        ensures
            final(self)@ == eval_binary(oracle_of(*host), fuel as nat, old(self)@, *left, op, *right).0,
            result_view(r) == eval_binary(oracle_of(*host), fuel as nat, old(self)@, *left, op, *right).1,
        decreases fuel, 4nat, 0nat,
    {
        match self.eval(left, fuel, host) {
            Err(m) => Err(m),
            Ok(lv) => match self.eval(right, fuel, host) {
                Err(m) => Err(m),
                Ok(rv) => binary_op(&lv, op, &rv, host),
            },
        }
    }

    fn eval_call<F: Fn(Request) -> Reply>(
        &mut self,
        callee: &Expr,
        args: &Vec<Expr>,
        fuel: u64,
        host: &F,
    ) -> (r: Result<Value, String>)
        requires
            host_ready(*host),
            host_deterministic(*host),
        ensures
            final(self)@ == eval_call(oracle_of(*host), fuel as nat, old(self)@, *callee, args@).0,
            result_view(r) == eval_call(oracle_of(*host), fuel as nat, old(self)@, *callee, args@).1,
        decreases fuel, 4nat, 0nat,
    {
        proof {
            lemma_values_view_empty();
        }
        let is_range = match callee {
            Expr::Identifier { name } => crate::text::same_text(name.as_str(), "range"),
            _ => false,
        };
        if is_range {
            match self.eval_list(args, Vec::new(), fuel, host) {
                Err(m) => Err(m),
                Ok(vals) => range_op(&vals, fuel, host),
            }
        } else {
            match self.eval(callee, fuel, host) {
                Err(m) => Err(m),
                Ok(f) => match self.eval_list(args, Vec::new(), fuel, host) {
                    Err(m) => Err(m),
                    Ok(vals) => self.call_function(&f, vals, fuel, host),
                },
            }
        }
    }

    fn eval_method_call<F: Fn(Request) -> Reply>(
        &mut self,
        object: &Expr,
        method: &String,
        args: &Vec<Expr>,
        fuel: u64,
        host: &F,
    ) -> (r: Result<Value, String>)
        requires
            host_ready(*host),
            host_deterministic(*host),
        ensures
            final(self)@ == eval_method_call(oracle_of(*host), fuel as nat, old(self)@, *object, method@, args@).0,
            result_view(r) == eval_method_call(oracle_of(*host), fuel as nat, old(self)@, *object, method@, args@).1,
        decreases fuel, 4nat, 0nat,
    {
        proof {
            lemma_values_view_empty();
        }
        match self.eval(object, fuel, host) {
            Err(m) => Err(m),
            Ok(obj) => match self.eval_list(args, Vec::new(), fuel, host) {
                Err(m) => Err(m),
                Ok(vals) => self.call_method(obj, method.as_str(), vals, fuel, host),
            },
        }
    }

    fn eval_new<F: Fn(Request) -> Reply>(
        &mut self,
        class_name: &String,
        args: &Vec<Expr>,
        fuel: u64,
        host: &F,
    ) -> (r: Result<Value, String>)
        requires
            host_ready(*host),
            host_deterministic(*host),
        ensures
            final(self)@ == eval_new(oracle_of(*host), fuel as nat, old(self)@, class_name@, args@).0,
            result_view(r) == eval_new(oracle_of(*host), fuel as nat, old(self)@, class_name@, args@).1,
        decreases fuel, 4nat, 0nat,
    {
        let found = match self.env.get(class_name.as_str()) {
            Some(v) => Some(v.duplicate()),
            None => None,
        };
        match found {
            None => {
                let mut m = message("Undefined class: '");
                push_text(&mut m, class_name.as_str());
                push_text(&mut m, "'");
                Err(m)
            },
            Some(Value::Class { name, methods }) => {
                let inst = Value::Instance { class_name: name.clone(), fields: Vec::new() };
                assert(entries_view(Seq::<(String, Value)>::empty()) =~= Seq::<(Seq<char>, Data)>::empty());
                match entry_value(&methods, "__init__") {
                    Some(init) => {
                        let mut first: Vec<Value> = Vec::new();
                        first.push(inst);
                        assert(values_view(first@) =~= seq![inst@]);
                        match self.eval_list(args, first, fuel, host) {
                            Err(m) => Err(m),
                            Ok(vals) => self.call_with_self(&init, &methods, vals, fuel, host),
                        }
                    },
                    None => Ok(inst),
                }
            },
            Some(other) => Err(typed_error("'", &other, "' is not a class")),
        }
    }

    /// Evaluates expressions in order after the values `acc`.
    fn eval_list<F: Fn(Request) -> Reply>(
        &mut self,
        es: &Vec<Expr>,
        init: Vec<Value>,
        fuel: u64,
        host: &F,
    ) -> (r: Result<Vec<Value>, String>)
        requires
            host_ready(*host),
            host_deterministic(*host),
        ensures
            final(self)@ == eval_list(oracle_of(*host), fuel as nat, old(self)@, es@, 0, values_view(init@)).0,
            list_view(r) == eval_list(oracle_of(*host), fuel as nat, old(self)@, es@, 0, values_view(init@)).1,
        decreases fuel, 1nat, 0nat,
    {
        let ghost o = oracle_of(*host);
        let ghost target = eval_list(o, fuel as nat, self@, es@, 0, values_view(init@));
        let mut acc = init;
        let n = es.len();
        let mut i: usize = 0;
        while i < n
            invariant
                host_ready(*host),
                host_deterministic(*host),
                o == oracle_of(*host),
                n == es@.len(),
                i <= n,
                target == eval_list(o, fuel as nat, self@, es@, i as int, values_view(acc@)),
                target == eval_list(o, fuel as nat, old(self)@, es@, 0, values_view(init@)),
            decreases n - i,
        {
            match self.eval(&es[i], fuel, host) {
                Err(m) => {
                    return Err(m);
                },
                Ok(v) => {
                    proof {
                        lemma_values_view_push(acc@, v);
                    }
                    acc.push(v);
                },
            }
            i = i + 1;
        }
        Ok(acc)
    }

    fn eval_dict<F: Fn(Request) -> Reply>(&mut self, es: &Vec<(Expr, Expr)>, fuel: u64, host: &F) -> (r:
        Result<Vec<(String, Value)>, String>)
        requires
            host_ready(*host),
            host_deterministic(*host),
        ensures
            final(self)@ == eval_dict(oracle_of(*host), fuel as nat, old(self)@, es@, 0, Seq::empty()).0,
            match r {
                Ok(v) => eval_dict(oracle_of(*host), fuel as nat, old(self)@, es@, 0, Seq::empty()).1
                    == Ok::<Seq<(Seq<char>, Data)>, Seq<char>>(entries_view(v@)),
                Err(m) => eval_dict(oracle_of(*host), fuel as nat, old(self)@, es@, 0, Seq::empty()).1
                    == Err::<Seq<(Seq<char>, Data)>, Seq<char>>(m@),
            },
        decreases fuel, 1nat, 0nat,
    {
        let ghost o = oracle_of(*host);
        let ghost target = eval_dict(o, fuel as nat, self@, es@, 0, Seq::empty());
        let mut acc: Vec<(String, Value)> = Vec::new();
        assert(entries_view(acc@) =~= Seq::<(Seq<char>, Data)>::empty());
        let n = es.len();
        let mut i: usize = 0;
        while i < n
            invariant
                host_ready(*host),
                host_deterministic(*host),
                o == oracle_of(*host),
                n == es@.len(),
                i <= n,
                target == eval_dict(o, fuel as nat, self@, es@, i as int, entries_view(acc@)),
                target == eval_dict(o, fuel as nat, old(self)@, es@, 0, Seq::empty()),
            decreases n - i,
        {
            let k = match self.eval(&es[i].0, fuel, host) {
                Err(m) => {
                    return Err(m);
                },
                Ok(k) => k,
            };
            let v = match self.eval(&es[i].1, fuel, host) {
                Err(m) => {
                    return Err(m);
                },
                Ok(v) => v,
            };
            let key = match &k {
                Value::String(s) => s.clone(),
                _ => value_text(&k, host),
            };
            assert(key@ == key_text(o, k@));
            insert_entry(&mut acc, key, v);
            i = i + 1;
        }
        Ok(acc)
    }

    fn eval_parts<F: Fn(Request) -> Reply>(&mut self, parts: &Vec<StringPart>, fuel: u64, host: &F) -> (r:
        Result<String, String>)
        requires
            host_ready(*host),
            host_deterministic(*host),
        ensures
            final(self)@ == eval_parts(oracle_of(*host), fuel as nat, old(self)@, parts@, 0, Seq::empty()).0,
            match r {
                Ok(t) => eval_parts(oracle_of(*host), fuel as nat, old(self)@, parts@, 0, Seq::empty()).1
                    == Ok::<Seq<char>, Seq<char>>(t@),
                Err(m) => eval_parts(oracle_of(*host), fuel as nat, old(self)@, parts@, 0, Seq::empty()).1
                    == Err::<Seq<char>, Seq<char>>(m@),
            },
        decreases fuel, 1nat, 0nat,
    {
        let ghost o = oracle_of(*host);
        let ghost target = eval_parts(o, fuel as nat, self@, parts@, 0, Seq::empty());
        let mut acc = String::new();
        let n = parts.len();
        let mut i: usize = 0;
        while i < n
            invariant
                host_ready(*host),
                host_deterministic(*host),
                o == oracle_of(*host),
                n == parts@.len(),
                i <= n,
                target == eval_parts(o, fuel as nat, self@, parts@, i as int, acc@),
                target == eval_parts(o, fuel as nat, old(self)@, parts@, 0, Seq::empty()),
            decreases n - i,
        {
            match &parts[i] {
                StringPart::Literal(s) => {
                    push_text(&mut acc, s.as_str());
                },
                StringPart::Expression(e) => {
                    match self.eval(e, fuel, host) {
                        Err(m) => {
                            return Err(m);
                        },
                        Ok(v) => {
                            write_value(&mut acc, &v, host);
                        },
                    }
                },
            }
            i = i + 1;
        }
        Ok(acc)
    }
}

/// Stores `v` under `key` in a dictionary's entries.
fn insert_entry(entries: &mut Vec<(String, Value)>, key: String, v: Value)
    ensures
        entries_view(final(entries)@) == dict_insert(entries_view(old(entries)@), key@, v@),
{
    let found = find_key(entries, key.as_str());
    proof {
        lemma_keys_of_entries(old(entries)@, key@);
        lemma_key_index(entries_view(old(entries)@), key@);
    }
    assert(entries_view(old(entries)@).len() == old(entries)@.len());
    match found {
        Some(i) => {
            let ghost k = key@;
            entries.set(i, (key, v));
            assert(entries_view(entries@) =~= entries_view(old(entries)@).update(i as int, (k, v@)));
        },
        None => {
            let ghost k = key@;
            entries.push((key, v));
            assert(entries_view(entries@) =~= entries_view(old(entries)@).push((k, v@)));
        },
    }
}

/// The function value that a definition makes.
fn function_value(
    name: &String,
    params: &Vec<String>,
    body: &Rc<Vec<Statement>>,
    depth: usize,
) -> (r: Value)
    ensures
        r@ == (Data::Function { name: name@, params: names_view(params@), body: body@, depth }),
{
    Value::Function {
        name: name.clone(),
        params: duplicate_names(params),
        body: share_body(body),
        depth,
    }
}

/// The methods that a class body defines.
fn collect_methods(stmts: &Vec<Statement>, depth: usize) -> (r: Vec<(String, Value)>)
    ensures
        entries_view(r@) == class_methods(stmts@, depth),
{
    let mut acc: Vec<(String, Value)> = Vec::new();
    assert(entries_view(acc@) =~= class_methods(stmts@.take(0), depth));
    let n = stmts.len();
    let mut i: usize = 0;
    while i < n
        invariant
            n == stmts@.len(),
            i <= n,
            entries_view(acc@) == class_methods(stmts@.take(i as int), depth),
        decreases n - i,
    {
        assert(stmts@.take(i + 1).drop_last() =~= stmts@.take(i as int));
        match &stmts[i] {
            Statement::FunctionDef { name, params, body } => {
                let f = function_value(name, params, body, depth);
                insert_entry(&mut acc, name.clone(), f);
            },
            _ => {},
        }
        i = i + 1;
    }
    assert(stmts@.take(n as int) =~= stmts@);
    acc
}

/// `first`, then `rest`.
fn prepend(first: Value, rest: Vec<Value>) -> (r: Vec<Value>)
    ensures
        values_view(r@) == seq![first@] + values_view(rest@),
{
    let ghost f = first@;
    let mut out: Vec<Value> = Vec::new();
    out.push(first);
    let mut rest = rest;
    let ghost tail = rest@;
    out.append(&mut rest);
    assert(values_view(out@) =~= seq![f] + values_view(tail));
    out
}

/// `"<what><name>' expects <n> arguments, got <k>"`.
fn arity_message(what: &str, name: &String, n: usize, k: usize) -> (r: String)
    ensures
        r@ == what@ + name@ + "' expects "@ + decimal(n as nat) + " arguments, got "@ + decimal(k as nat),
{
    let mut m = message(what);
    push_text(&mut m, name.as_str());
    push_text(&mut m, "' expects ");
    let d = decimal_text(n);
    push_text(&mut m, d.as_str());
    push_text(&mut m, " arguments, got ");
    let d2 = decimal_text(k);
    push_text(&mut m, d2.as_str());
    m
}

proof fn lemma_bind_params_step(
    scopes: Seq<Map<Seq<char>, Data>>,
    names: Seq<Seq<char>>,
    vals: Seq<Data>,
    i: int,
)
    requires
        0 <= i < names.len(),
        names.len() == vals.len(),
    ensures
        bind_params(scopes, names.take(i + 1), vals.take(i + 1)) == bind(
            bind_params(scopes, names.take(i), vals.take(i)),
            names[i],
            vals[i],
        ),
{
    assert(names.take(i + 1).drop_last() =~= names.take(i));
    assert(vals.take(i + 1).drop_last() =~= vals.take(i));
}

proof fn lemma_inject_methods_step(
    scopes: Seq<Map<Seq<char>, Data>>,
    methods: Seq<(Seq<char>, Data)>,
    i: int,
)
    requires
        0 <= i < methods.len(),
    ensures
        inject_methods(scopes, methods.take(i + 1)) == ({
            let s = inject_methods(scopes, methods.take(i));
            if lookup(s, methods[i].0) is Some {
                s
            } else {
                bind(s, methods[i].0, methods[i].1)
            }
        }),
{
    assert(methods.take(i + 1).drop_last() =~= methods.take(i));
}

impl Interpreter {
    /// Binds parameters to arguments, in order, in the innermost scope.
    fn bind_arguments(&mut self, params: &Vec<String>, args: Vec<Value>)
        requires
            params@.len() == args@.len(),
        ensures
            final(self)@ == with_scopes(
                old(self)@,
                bind_params(old(self)@.scopes, names_view(params@), values_view(args@)),
            ),
    {
        let ghost names = names_view(params@);
        let ghost vals = values_view(args@);
        let ghost start = self@;
        let mut args = args;
        let n = params.len();
        assert(bind_params(start.scopes, names.take(0), vals.take(0)) == start.scopes);
        assert(self@ =~= with_scopes(start, start.scopes));
        let mut i: usize = 0;
        while i < n
            invariant
                n == params@.len(),
                n == args@.len(),
                i <= n,
                names == names_view(params@),
                vals.len() == n,
                forall|j: int| i <= j < n ==> (#[trigger] args@[j])@ == vals[j],
                self@ == with_scopes(
                    start,
                    bind_params(start.scopes, names.take(i as int), vals.take(i as int)),
                ),
            decreases n - i,
        {
            let mut v = Value::Null;
            args.set_and_swap(i, &mut v);
            self.env.set(params[i].as_str(), v);
            proof {
                lemma_bind_params_step(start.scopes, names, vals, i as int);
            }
            i = i + 1;
            assert(self@ =~= with_scopes(
                start,
                bind_params(start.scopes, names.take(i as int), vals.take(i as int)),
            ));
        }
        assert(names.take(n as int) =~= names);
        assert(vals.take(n as int) =~= vals);
    }

    /// Binds each method of a class whose name cannot already be read.
    fn inject(&mut self, methods: &Vec<(String, Value)>)
        ensures
            final(self)@ == with_scopes(
                old(self)@,
                inject_methods(old(self)@.scopes, entries_view(methods@)),
            ),
    {
        let ghost ms = entries_view(methods@);
        let ghost start = self@;
        let n = methods.len();
        assert(inject_methods(start.scopes, ms.take(0)) == start.scopes);
        assert(self@ =~= with_scopes(start, start.scopes));
        let mut i: usize = 0;
        while i < n
            invariant
                n == methods@.len(),
                i <= n,
                ms == entries_view(methods@),
                self@ == with_scopes(start, inject_methods(start.scopes, ms.take(i as int))),
            decreases n - i,
        {
            proof {
                lemma_inject_methods_step(start.scopes, ms, i as int);
            }
            assert(ms[i as int] == (methods@[i as int].0@, methods@[i as int].1@));
            let unbound = self.env.get(methods[i].0.as_str()).is_none();
            if unbound {
                let f = methods[i].1.duplicate();
                self.env.set(methods[i].0.as_str(), f);
            }
            i = i + 1;
            assert(self@ =~= with_scopes(start, inject_methods(start.scopes, ms.take(i as int))));
        }
        assert(ms.take(n as int) =~= ms);
    }

    /// Calls a function value with arguments.
    pub fn call_function<F: Fn(Request) -> Reply>(
        &mut self,
        f: &Value,
        args: Vec<Value>,
        fuel: u64,
        host: &F,
    ) -> (r: Result<Value, String>)
        requires
            host_ready(*host),
            host_deterministic(*host),
        ensures
            final(self)@ == call_function(oracle_of(*host), fuel as nat, old(self)@, f@, values_view(args@)).0,
            result_view(r) == call_function(oracle_of(*host), fuel as nat, old(self)@, f@, values_view(args@)).1,
        decreases fuel, 2nat, 0nat,
    {
        proof {
            lemma_values_view_len(args@);
        }
        match f {
            Value::Function { name, params, body, depth } => {
                if args.len() != params.len() {
                    return Err(arity_message("Function '", name, params.len(), args.len()));
                }
                let ghost caller = self@;
                let saved = self.env.enter_call(*depth);
                assert(self@ =~= with_scopes(caller, call_scopes(caller.scopes, *depth)));
                self.bind_arguments(params, args);
                let r = self.run_body(&**body, fuel, host);
                let ghost callee = self@;
                self.env.leave_call(saved);
                assert(self@ =~= with_scopes(callee, return_scopes(caller.scopes, callee.scopes, *depth)));
                r
            },
            Value::NativeFunction { name, arity, builtin } => {
                if args.len() != *arity {
                    return Err(arity_message("Native function '", name, *arity, args.len()));
                }
                let takes = arity_of(*builtin);
                if args.len() != takes {
                    return Err(arity_message("Native function '", name, takes, args.len()));
                }
                if *builtin == Builtin::Input {
                    let mut reads = self.reads;
                    let line = read_input(&args[0], &mut reads, host);
                    self.reads = reads;
                    Ok(line)
                } else {
                    call_builtin(*builtin, args, host)
                }
            },
            _ => Err(typed_error("'", f, "' is not a function")),
        }
    }

    /// Calls a method of a class, with the class's methods visible.
    fn call_with_self<F: Fn(Request) -> Reply>(
        &mut self,
        f: &Value,
        methods: &Vec<(String, Value)>,
        args: Vec<Value>,
        fuel: u64,
        host: &F,
    ) -> (r: Result<Value, String>)
        requires
            host_ready(*host),
            host_deterministic(*host),
        ensures
            final(self)@ == call_with_self(oracle_of(*host), fuel as nat, old(self)@, f@, entries_view(methods@), values_view(args@)).0,
            result_view(r) == call_with_self(oracle_of(*host), fuel as nat, old(self)@, f@, entries_view(methods@), values_view(args@)).1,
        decreases fuel, 2nat, 0nat,
    {
        proof {
            lemma_values_view_len(args@);
        }
        match f {
            Value::Function { name, params, body, depth } => {
                if args.len() != params.len() {
                    return Err(arity_message("Method '", name, params.len(), args.len()));
                }
                let ghost caller = self@;
                let saved = self.env.enter_call(*depth);
                assert(self@ =~= with_scopes(caller, call_scopes(caller.scopes, *depth)));
                self.bind_arguments(params, args);
                self.inject(methods);
                let r = self.run_body(&**body, fuel, host);
                let ghost callee = self@;
                self.env.leave_call(saved);
                assert(self@ =~= with_scopes(callee, return_scopes(caller.scopes, callee.scopes, *depth)));
                r
            },
            _ => Err(typed_error("'", f, "' is not callable")),
        }
    }

    /// Calls a method on a value: an instance's class method, or a method of
    /// a list, a string or a dictionary.
    #[verifier::rlimit(40)]
    fn call_method<F: Fn(Request) -> Reply>(
        &mut self,
        obj: Value,
        method: &str,
        args: Vec<Value>,
        fuel: u64,
        host: &F,
    ) -> (r: Result<Value, String>)
        requires
            host_ready(*host),
            host_deterministic(*host),
        ensures
            final(self)@ == call_method(oracle_of(*host), fuel as nat, old(self)@, obj@, method@, values_view(args@)).0,
            result_view(r) == call_method(oracle_of(*host), fuel as nat, old(self)@, obj@, method@, values_view(args@)).1,
        decreases fuel, 3nat, 0nat,
    {
        match obj {
            Value::Instance { class_name, fields } => {
                let found = match self.env.get(class_name.as_str()) {
                    Some(v) => Some(v.duplicate()),
                    None => None,
                };
                match found {
                    None => {
                        let mut m = message("Class '");
                        push_text(&mut m, class_name.as_str());
                        push_text(&mut m, "' not found");
                        Err(m)
                    },
                    Some(Value::Class { name, methods }) => match entry_value(&methods, method) {
                        None => {
                            let mut m = message("'");
                            push_text(&mut m, class_name.as_str());
                            push_text(&mut m, "' has no method '");
                            push_text(&mut m, method);
                            push_text(&mut m, "'");
                            Err(m)
                        },
                        Some(mf) => {
                            let full = prepend(Value::Instance { class_name: name, fields }, args);
                            self.call_with_self(&mf, &methods, full, fuel, host)
                        },
                    },
                    Some(_) => {
                        let mut m = message("'");
                        push_text(&mut m, class_name.as_str());
                        push_text(&mut m, "' is not a class");
                        Err(m)
                    },
                }
            },
            other => call_prim_method(other, method, args, host),
        }
    }

    /// Runs a function body: statements run until one returns.
    fn run_body<F: Fn(Request) -> Reply>(&mut self, body: &Vec<Statement>, fuel: u64, host: &F) -> (r: Result<Value, String>)
        requires
            host_ready(*host),
            host_deterministic(*host),
        ensures
            final(self)@ == run_body(oracle_of(*host), fuel as nat, old(self)@, body@, 0).0,
            result_view(r) == run_body(oracle_of(*host), fuel as nat, old(self)@, body@, 0).1,
        decreases fuel, 1nat, 0nat,
    {
        let ghost o = oracle_of(*host);
        let ghost target = run_body(o, fuel as nat, self@, body@, 0);
        let n = body.len();
        let mut i: usize = 0;
        while i < n
            invariant
                host_ready(*host),
                host_deterministic(*host),
                o == oracle_of(*host),
                n == body@.len(),
                i <= n,
                target == run_body(o, fuel as nat, self@, body@, i as int),
                target == run_body(o, fuel as nat, old(self)@, body@, 0),
            decreases n - i,
        {
            match self.exec_stmt(&body[i], fuel, host) {
                Err(m) => {
                    return Err(m);
                },
                Ok(Signal::Return(v)) => {
                    return Ok(v);
                },
                Ok(_) => {},
            }
            i = i + 1;
        }
        Ok(Value::Null)
    }

    /// Runs a block: statements run until one ends other than normally.
    fn run_block<F: Fn(Request) -> Reply>(&mut self, body: &Vec<Statement>, fuel: u64, host: &F) -> (r: Result<Signal, String>)
        requires
            host_ready(*host),
            host_deterministic(*host),
        ensures
            final(self)@ == run_block(oracle_of(*host), fuel as nat, old(self)@, body@, 0).0,
            flow_view(r) == run_block(oracle_of(*host), fuel as nat, old(self)@, body@, 0).1,
        decreases fuel, 1nat, 0nat,
    {
        let ghost o = oracle_of(*host);
        let ghost target = run_block(o, fuel as nat, self@, body@, 0);
        let n = body.len();
        let mut i: usize = 0;
        while i < n
            invariant
                host_ready(*host),
                host_deterministic(*host),
                o == oracle_of(*host),
                n == body@.len(),
                i <= n,
                target == run_block(o, fuel as nat, self@, body@, i as int),
                target == run_block(o, fuel as nat, old(self)@, body@, 0),
            decreases n - i,
        {
            match self.exec_stmt(&body[i], fuel, host) {
                Err(m) => {
                    return Err(m);
                },
                Ok(Signal::Normal) => {},
                Ok(other) => {
                    return Ok(other);
                },
            }
            i = i + 1;
        }
        Ok(Signal::Normal)
    }

    /// Executes a statement.
    fn exec_stmt<F: Fn(Request) -> Reply>(&mut self, stmt: &Statement, fuel: u64, host: &F) -> (r: Result<Signal, String>)
        requires
            host_ready(*host),
            host_deterministic(*host),
        ensures
            final(self)@ == exec_stmt(oracle_of(*host), fuel as nat, old(self)@, *stmt).0,
            flow_view(r) == exec_stmt(oracle_of(*host), fuel as nat, old(self)@, *stmt).1,
        decreases fuel, 0nat, 0nat,
    {
        if fuel == 0 {
            return Err(out_of_fuel());
        }
        let g = fuel - 1;
        match stmt {
            Statement::Assignment { name, value } => match self.eval(value, g, host) {
                Err(m) => Err(m),
                Ok(v) => {
                    self.env.update(name.as_str(), v);
                    Ok(Signal::Normal)
                },
            },
            Statement::FunctionDef { name, params, body } => {
                let f = function_value(name, params, body, self.env.depth());
                self.env.set(name.as_str(), f);
                Ok(Signal::Normal)
            },
            Statement::If { condition, then_body, else_body } => self.exec_if(
                condition,
                then_body,
                else_body,
                g,
                host,
            ),
            Statement::While { condition, body } => self.exec_while(condition, body, g, host),
            Statement::For { variable, iterable, body } => self.exec_for(
                variable,
                iterable,
                body,
                g,
                host,
            ),
            Statement::Return { value } => match value {
                Some(e) => match self.eval(e, g, host) {
                    Err(m) => Err(m),
                    Ok(v) => Ok(Signal::Return(v)),
                },
                None => Ok(Signal::Return(Value::Null)),
            },
            Statement::Import { module } => {
                let mut line = message("[import: ");
                push_text(&mut line, module.as_str());
                push_text(&mut line, "]");
                self.emit(line, host);
                Ok(Signal::Normal)
            },
            Statement::Print { value } => match self.eval(value, g, host) {
                Err(m) => Err(m),
                Ok(v) => {
                    let line = value_text(&v, host);
                    self.emit(line, host);
                    Ok(Signal::Normal)
                },
            },
            Statement::ExprStatement { expr } => match self.eval(expr, g, host) {
                Err(m) => Err(m),
                Ok(_) => Ok(Signal::Normal),
            },
            Statement::Break => Ok(Signal::Break),
            Statement::Continue => Ok(Signal::Continue),
            Statement::Throw { value } => match self.eval(value, g, host) {
                Err(m) => Err(m),
                Ok(v) => Ok(Signal::Throw(v)),
            },
            Statement::TryCatch { try_body, catch_var, catch_body } => self.exec_try(
                try_body,
                catch_var,
                catch_body,
                g,
                host,
            ),
            Statement::CompoundAssignment { name, op, value } => self.exec_compound(
                name,
                *op,
                value,
                g,
                host,
            ),
            Statement::ClassDef { name, methods } => {
                let depth = self.env.depth();
                let c = Value::Class { name: name.clone(), methods: collect_methods(methods, depth) };
                self.env.set(name.as_str(), c);
                Ok(Signal::Normal)
            },
        }
    }

    fn exec_if<F: Fn(Request) -> Reply>(
        &mut self,
        cond: &Expr,
        then_body: &Vec<Statement>,
        else_body: &Option<Vec<Statement>>,
        fuel: u64,
        host: &F,
    ) -> (r: Result<Signal, String>)
        requires
            host_ready(*host),
            host_deterministic(*host),
        ensures
            final(self)@ == exec_if(oracle_of(*host), fuel as nat, old(self)@, *cond, then_body@, *else_body).0,
            flow_view(r) == exec_if(oracle_of(*host), fuel as nat, old(self)@, *cond, then_body@, *else_body).1,
        decreases fuel, 4nat, 0nat,
    {
        match self.eval(cond, fuel, host) {
            Err(m) => Err(m),
            Ok(v) => {
                if v.is_truthy() {
                    self.run_block(then_body, fuel, host)
                } else {
                    match else_body {
                        Some(b) => self.run_block(b, fuel, host),
                        None => Ok(Signal::Normal),
                    }
                }
            },
        }
    }

    /// A `while` loop; each round costs a unit of the budget.
    fn exec_while<F: Fn(Request) -> Reply>(&mut self, cond: &Expr, body: &Vec<Statement>, fuel: u64, host: &F) -> (r: Result<Signal, String>)
        requires
            host_ready(*host),
            host_deterministic(*host),
        ensures
            final(self)@ == while_loop(oracle_of(*host), fuel as nat, old(self)@, *cond, body@).0,
            flow_view(r) == while_loop(oracle_of(*host), fuel as nat, old(self)@, *cond, body@).1,
        decreases fuel, 0nat, 0nat,
    {
        let ghost o = oracle_of(*host);
        let ghost target = while_loop(o, fuel as nat, self@, *cond, body@);
        let mut f = fuel;
        loop
            invariant
                host_ready(*host),
                host_deterministic(*host),
                o == oracle_of(*host),
                f <= fuel,
                target == while_loop(o, f as nat, self@, *cond, body@),
                target == while_loop(o, fuel as nat, old(self)@, *cond, body@),
            decreases f,
        {
            if f == 0 {
                return Err(out_of_fuel());
            }
            let h = f - 1;
            match self.eval(cond, h, host) {
                Err(m) => {
                    return Err(m);
                },
                Ok(v) => {
                    if !v.is_truthy() {
                        return Ok(Signal::Normal);
                    }
                },
            }
            match self.run_block(body, h, host) {
                Err(m) => {
                    return Err(m);
                },
                Ok(Signal::Normal) => {},
                Ok(Signal::Continue) => {},
                Ok(Signal::Break) => {
                    return Ok(Signal::Normal);
                },
                Ok(other) => {
                    return Ok(other);
                },
            }
            f = h;
        }
    }

    fn exec_for<F: Fn(Request) -> Reply>(
        &mut self,
        var: &String,
        iterable: &Expr,
        body: &Vec<Statement>,
        fuel: u64,
        host: &F,
    ) -> (r: Result<Signal, String>)
        requires
            host_ready(*host),
            host_deterministic(*host),
        ensures
            final(self)@ == exec_for(oracle_of(*host), fuel as nat, old(self)@, var@, *iterable, body@).0,
            flow_view(r) == exec_for(oracle_of(*host), fuel as nat, old(self)@, var@, *iterable, body@).1,
        decreases fuel, 4nat, 0nat,
    {
        let coll = match self.eval(iterable, fuel, host) {
            Err(m) => {
                return Err(m);
            },
            Ok(v) => v,
        };
        match coll {
            Value::List(items) => {
                let ghost o = oracle_of(*host);
                let ghost vals = values_view(items@);
                let ghost target = for_loop(o, fuel as nat, self@, var@, vals, 0, body@);
                proof {
                    lemma_values_view_len(items@);
                }
                let mut items = items;
                let n = items.len();
                let mut k: usize = 0;
                while k < n
                    invariant
                        host_ready(*host),
                        host_deterministic(*host),
                        o == oracle_of(*host),
                        n == items@.len(),
                        k <= n,
                        vals.len() == n,
                        forall|j: int| k <= j < n ==> (#[trigger] items@[j])@ == vals[j],
                        target == for_loop(o, fuel as nat, self@, var@, vals, k as int, body@),
                        target == exec_for(o, fuel as nat, old(self)@, var@, *iterable, body@),
                    decreases n - k,
                {
                    let mut item = Value::Null;
                    items.set_and_swap(k, &mut item);
                    self.env.update(var.as_str(), item);
                    match self.run_block(body, fuel, host) {
                        Err(m) => {
                            return Err(m);
                        },
                        Ok(Signal::Normal) => {},
                        Ok(Signal::Continue) => {},
                        Ok(Signal::Break) => {
                            return Ok(Signal::Normal);
                        },
                        Ok(other) => {
                            return Ok(other);
                        },
                    }
                    k = k + 1;
                }
                Ok(Signal::Normal)
            },
            other => {
                let mut m = message("Cannot iterate over ");
                push_text(&mut m, other.type_label());
                Err(m)
            },
        }
    }

    fn exec_try<F: Fn(Request) -> Reply>(
        &mut self,
        try_body: &Vec<Statement>,
        catch_var: &String,
        catch_body: &Vec<Statement>,
        fuel: u64,
        host: &F,
    ) -> (r: Result<Signal, String>)
        requires
            host_ready(*host),
            host_deterministic(*host),
        ensures
            final(self)@ == exec_try(oracle_of(*host), fuel as nat, old(self)@, try_body@, catch_var@, catch_body@).0,
            flow_view(r) == exec_try(oracle_of(*host), fuel as nat, old(self)@, try_body@, catch_var@, catch_body@).1,
        decreases fuel, 4nat, 0nat,
    {
        match self.run_block(try_body, fuel, host) {
            Err(m) => Err(m),
            Ok(Signal::Throw(v)) => {
                self.env.push_scope();
                if !catch_var.as_str().is_empty() {
                    self.env.set(catch_var.as_str(), v);
                }
                match self.run_block(catch_body, fuel, host) {
                    Err(m) => Err(m),
                    Ok(flow) => {
                        self.env.pop_scope();
                        Ok(flow)
                    },
                }
            },
            Ok(flow) => Ok(flow),
        }
    }

    fn exec_compound<F: Fn(Request) -> Reply>(
        &mut self,
        name: &String,
        op: CompoundOp,
        value: &Expr,
        fuel: u64,
        host: &F,
    ) -> (r: Result<Signal, String>)
        requires
            host_ready(*host),
            host_deterministic(*host),
        ensures
            final(self)@ == exec_compound(oracle_of(*host), fuel as nat, old(self)@, name@, op, *value).0,
            flow_view(r) == exec_compound(oracle_of(*host), fuel as nat, old(self)@, name@, op, *value).1,
        decreases fuel, 4nat, 0nat,
    {
        let cur = match self.env.get(name.as_str()) {
            Some(v) => v.duplicate(),
            None => {
                return Err(undefined(name));
            },
        };
        match self.eval(value, fuel, host) {
            Err(m) => Err(m),
            Ok(rhs) => match compound_op(&cur, op, &rhs, host) {
                Err(m) => Err(m),
                Ok(res) => {
                    self.env.update(name.as_str(), res);
                    Ok(Signal::Normal)
                },
            },
        }
    }
}

/// The built-ins in the order in which a new interpreter binds them.
pub open spec fn builtin_list() -> Seq<Builtin> {
    seq![
        Builtin::Len,
        Builtin::Type,
        Builtin::Str,
        Builtin::Num,
        Builtin::Push,
        Builtin::Range,
        Builtin::Int,
        Builtin::Float,
        Builtin::Input,
        Builtin::Abs,
        Builtin::Sqrt,
        Builtin::Floor,
        Builtin::Ceil,
        Builtin::Round,
        Builtin::Min,
        Builtin::Max,
        Builtin::Pow,
    ]
}

/// The value bound to a built-in's name.
pub open spec fn native_value(b: Builtin) -> Data {
    Data::NativeFunction { name: builtin_name(b), arity: builtin_arity(b), builtin: b }
}

/// Binding built-ins in order.
pub open spec fn bind_builtins(scopes: Seq<Map<Seq<char>, Data>>, bs: Seq<Builtin>) -> Seq<
    Map<Seq<char>, Data>,
>
    decreases bs.len(),
{
    if bs.len() == 0 {
        scopes
    } else {
        bind(bind_builtins(scopes, bs.drop_last()), builtin_name(bs.last()), native_value(bs.last()))
    }
}

/// The state of a new interpreter: one scope holding the built-ins, no
/// input read, nothing printed.
pub open spec fn initial_state(buffered: bool) -> State {
    State {
        scopes: bind_builtins(seq![Map::empty()], builtin_list()),
        reads: 0,
        out: Seq::empty(),
        sent: Seq::empty(),
        buffered,
    }
}

fn builtin_order() -> (r: Vec<Builtin>)
    ensures
        r@ == builtin_list(),
{
    let mut v: Vec<Builtin> = Vec::new();
    v.push(Builtin::Len);
    v.push(Builtin::Type);
    v.push(Builtin::Str);
    v.push(Builtin::Num);
    v.push(Builtin::Push);
    v.push(Builtin::Range);
    v.push(Builtin::Int);
    v.push(Builtin::Float);
    v.push(Builtin::Input);
    v.push(Builtin::Abs);
    v.push(Builtin::Sqrt);
    v.push(Builtin::Floor);
    v.push(Builtin::Ceil);
    v.push(Builtin::Round);
    v.push(Builtin::Min);
    v.push(Builtin::Max);
    v.push(Builtin::Pow);
    assert(v@ =~= builtin_list());
    v
}

/// The outcome of a run, as the semantics gives it.
pub open spec fn run_view(r: Result<(), RuntimeError>) -> Result<(), Seq<char>> {
    match r {
        Ok(()) => Ok(()),
        Err(e) => Err(e.message@),
    }
}

impl Interpreter {
    fn with_output(buffered: bool) -> (r: Interpreter)
        ensures
            r@ == initial_state(buffered),
    {
        let mut interp = Interpreter {
            env: Environment::new(),
            buffered,
            output: Vec::new(),
            reads: 0,
            sent: Ghost(Seq::empty()),
        };
        let ghost start = interp@;
        let all = builtin_order();
        let n = all.len();
        assert(bind_builtins(start.scopes, all@.take(0)) == start.scopes);
        let mut i: usize = 0;
        while i < n
            invariant
                n == all@.len(),
                all@ == builtin_list(),
                i <= n,
                start.scopes == seq![Map::<Seq<char>, Data>::empty()],
                interp@ == with_scopes(start, bind_builtins(start.scopes, all@.take(i as int))),
            decreases n - i,
        {
            let b = all[i];
            let name = message(builtin_label(b));
            let f = Value::NativeFunction { name: message(builtin_label(b)), arity: arity_of(b), builtin: b };
            interp.env.set(name.as_str(), f);
            assert(all@.take(i + 1).drop_last() =~= all@.take(i as int));
            i = i + 1;
            assert(interp@ =~= with_scopes(start, bind_builtins(start.scopes, all@.take(i as int))));
        }
        assert(all@.take(n as int) =~= all@);
        assert(interp@ =~= initial_state(buffered));
        interp
    }

    /// A new interpreter, with the built-ins bound, that prints through the host.
    pub fn new() -> (r: Interpreter)
        ensures
            r@ == initial_state(false),
    {
        Interpreter::with_output(false)
    }

    /// A new interpreter, with the built-ins bound, that keeps what it prints.
    pub fn new_with_buffer() -> (r: Interpreter)
        ensures
            r@ == initial_state(true),
    {
        Interpreter::with_output(true)
    }

    /// The lines printed so far (none when the interpreter prints through the host).
    pub fn get_output(&self) -> (r: Vec<String>)
        ensures
            r@.map_values(|s: String| s@) == self@.out,
    {
        let mut out: Vec<String> = Vec::new();
        let n = self.output.len();
        let mut i: usize = 0;
        while i < n
            invariant
                n == self.output@.len(),
                i <= n,
                out@.len() == i,
                forall|j: int| 0 <= j < i ==> (#[trigger] out@[j])@ == self.output@[j]@,
            decreases n - i,
        {
            out.push(self.output[i].clone());
            i = i + 1;
        }
        assert(out@.map_values(|s: String| s@) =~= self@.out);
        out
    }

    /// Runs a program: statements run in order until one ends other than
    /// normally; a value thrown out of the program is an error.
    pub fn exec_program<F: Fn(Request) -> Reply>(&mut self, program: &Program, host: &F) -> (r: Result<
        (),
        RuntimeError,
    >)
        requires
            host_ready(*host),
            host_deterministic(*host),
        ensures
            final(self)@ == run_program(oracle_of(*host), FUEL as nat, old(self)@, program.statements@).0,
            run_view(r) == run_program(oracle_of(*host), FUEL as nat, old(self)@, program.statements@).1,
            keeps(old(self)@, final(self)@, r is Ok),
    {
        proof {
            use_type_invariant(&self.env);
            self.env.lemma_well_formed();
            law_run_keeps(oracle_of(*host), FUEL as nat, self@, program.statements@);
        }
        match self.run_block(&program.statements, FUEL, host) {
            Err(m) => Err(RuntimeError { message: m }),
            Ok(Signal::Throw(v)) => {
                let mut m = message("Uncaught exception: ");
                write_value(&mut m, &v, host);
                Err(RuntimeError { message: m })
            },
            Ok(_) => Ok(()),
        }
    }
}

impl Default for Interpreter {
    fn default() -> (r: Interpreter)
        ensures
            r@ == initial_state(false),
    {
        Interpreter::new()
    }
}

} // verus!
