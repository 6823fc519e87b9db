//! The built-in native functions.

use crate::display::{show, value_text};
use crate::host::{
    answer_number, answer_parsed, answer_text, arith, from_count, host_deterministic, host_ready,
    math, oracle_of, parse_number, read_line, Answer, ArithOp, MathOp, Query, Reply, Request,
};
use crate::text::{byte_length, push_text};
use crate::value::{result_view, type_label_of, values_view, Builtin, Data, Value};
use vstd::prelude::*;

verus! {

/// The number equal to a count, as the host makes it.
pub open spec fn count_number(o: spec_fn(Query) -> Answer, n: usize) -> u64 {
    answer_number(o(Query::FromCount(n)))
}

/// The number of bytes of the UTF-8 encoding of a text.
pub open spec fn utf8_len(s: Seq<char>) -> usize {
    vstd::utf8::encode_utf8(s).len() as usize
}

/// The name under which a built-in is bound.
pub open spec fn builtin_name(b: Builtin) -> Seq<char> {
    match b {
        Builtin::Len => "len"@,
        Builtin::Type => "type"@,
        Builtin::Str => "str"@,
        Builtin::Num => "num"@,
        Builtin::Push => "push"@,
        Builtin::Range => "range"@,
        Builtin::Int => "int"@,
        Builtin::Float => "float"@,
        Builtin::Input => "input"@,
        Builtin::Abs => "abs"@,
        Builtin::Sqrt => "sqrt"@,
        Builtin::Floor => "floor"@,
        Builtin::Ceil => "ceil"@,
        Builtin::Round => "round"@,
        Builtin::Min => "min"@,
        Builtin::Max => "max"@,
        Builtin::Pow => "pow"@,
    }
}

/// How many arguments a built-in takes; `range` is variadic and is only
/// reached through its own call form, so its arity can never be met.
pub open spec fn builtin_arity(b: Builtin) -> usize {
    match b {
        Builtin::Push | Builtin::Min | Builtin::Max | Builtin::Pow => 2,
        Builtin::Range => usize::MAX,
        _ => 1,
    }
}

/// A text followed by a type name and another text.
pub open spec fn typed_message(before: Seq<char>, v: Data, after: Seq<char>) -> Seq<char> {
    before + type_label_of(v) + after
}

/// Converting a value to a number, for `num()`, `int()` and `float()`;
/// `what` names the target in messages, and integer parts are taken when
/// `whole` holds.
pub open spec fn to_number(o: spec_fn(Query) -> Answer, v: Data, what: Seq<char>, whole: bool) -> Result<Data, Seq<char>> {
    match v {
        Data::Number(n) => Ok(
            Data::Number(
                if whole {
                    answer_number(o(Query::Math(MathOp::Truncate, n)))
                } else {
                    n
                },
            ),
        ),
        Data::Str(s) => match answer_parsed(o(Query::Parse(s))) {
            Some(n) => Ok(
                Data::Number(
                    if whole {
                        answer_number(o(Query::Math(MathOp::Truncate, n)))
                    } else {
                        n
                    },
                ),
            ),
            None => Err("Cannot convert '"@ + s + "' to "@ + what),
        },
        Data::Boolean(b) => Ok(Data::Number(count_number(o, if b { 1 } else { 0 }))),
        _ => Err(typed_message("Cannot convert "@, v, " to "@ + what)),
    }
}

/// The math function of a one-argument built-in.
pub open spec fn unary_op(b: Builtin) -> MathOp {
    match b {
        Builtin::Abs => MathOp::Abs,
        Builtin::Sqrt => MathOp::Sqrt,
        Builtin::Floor => MathOp::Floor,
        Builtin::Ceil => MathOp::Ceil,
        _ => MathOp::Round,
    }
}

/// The arithmetic of a two-number built-in.
pub open spec fn binary_op(b: Builtin) -> ArithOp {
    match b {
        Builtin::Min => ArithOp::Min,
        Builtin::Max => ArithOp::Max,
        _ => ArithOp::Power,
    }
}

/// What a built-in gives for arguments of the number it takes; `reads`
/// counts the lines of input read so far, and the first component of the
/// result is the count afterwards.
pub open spec fn apply_builtin(o: spec_fn(Query) -> Answer, reads: u64, b: Builtin, args: Seq<Data>) -> (u64, Result<Data, Seq<char>>) {
    match b {
        Builtin::Input => {
            let line = answer_text(o(Query::Input(show(o, args[0]), reads)));
            (if reads < u64::MAX { (reads + 1) as u64 } else { reads }, Ok(Data::Str(line)))
        },
        _ => (reads, apply_pure_builtin(o, b, args)),
    }
}

/// What a built-in other than `input` gives.
pub open spec fn apply_pure_builtin(o: spec_fn(Query) -> Answer, b: Builtin, args: Seq<Data>) -> Result<Data, Seq<char>> {
    match b {
        Builtin::Len => match args[0] {
            Data::Str(s) => Ok(Data::Number(count_number(o, utf8_len(s)))),
            Data::List(items) => Ok(Data::Number(count_number(o, items.len() as usize))),
            Data::Dict(entries) => Ok(Data::Number(count_number(o, entries.len() as usize))),
            other => Err(typed_message("len() not supported for "@, other, ""@)),
        },
        Builtin::Type => Ok(Data::Str(type_label_of(args[0]))),
        Builtin::Str => Ok(Data::Str(show(o, args[0]))),
        Builtin::Num => to_number(o, args[0], "number"@, false),
        Builtin::Int => to_number(o, args[0], "int"@, true),
        Builtin::Float => to_number(o, args[0], "float"@, false),
        Builtin::Push => match args[0] {
            Data::List(items) => Ok(Data::List(items.push(args[1]))),
            other => Err(typed_message("push() expects a list, got "@, other, ""@)),
        },
        Builtin::Range => Ok(Data::Null),
        Builtin::Abs | Builtin::Sqrt | Builtin::Floor | Builtin::Ceil | Builtin::Round => match args[0] {
            Data::Number(n) => Ok(Data::Number(answer_number(o(Query::Math(unary_op(b), n))))),
            other => Err(typed_message(builtin_name(b) + "() expects a number, got "@, other, ""@)),
        },
        Builtin::Min | Builtin::Max | Builtin::Pow => match (args[0], args[1]) {
            (Data::Number(x), Data::Number(y)) => Ok(
                Data::Number(answer_number(o(Query::Arith(binary_op(b), x, y)))),
            ),
            _ => Err(builtin_name(b) + "() expects two numbers"@),
        },
        Builtin::Input => Ok(Data::Null),
    }
}

/// The name of a built-in as a string value.
pub(crate) fn builtin_label(b: Builtin) -> (r: &'static str)
    ensures
        r@ == builtin_name(b),
{
    match b {
        Builtin::Len => "len",
        Builtin::Type => "type",
        Builtin::Str => "str",
        Builtin::Num => "num",
        Builtin::Push => "push",
        Builtin::Range => "range",
        Builtin::Int => "int",
        Builtin::Float => "float",
        Builtin::Input => "input",
        Builtin::Abs => "abs",
        Builtin::Sqrt => "sqrt",
        Builtin::Floor => "floor",
        Builtin::Ceil => "ceil",
        Builtin::Round => "round",
        Builtin::Min => "min",
        Builtin::Max => "max",
        Builtin::Pow => "pow",
    }
}

/// How many arguments a built-in takes.
pub(crate) fn arity_of(b: Builtin) -> (r: usize)
    ensures
        r == builtin_arity(b),
{
    match b {
        Builtin::Push | Builtin::Min | Builtin::Max | Builtin::Pow => 2,
        Builtin::Range => usize::MAX,
        _ => 1,
    }
}

/// `before`, the type name of `v`, then `after`.
pub(crate) fn typed_text(before: &str, v: &Value, after: &str) -> (r: String)
    ensures
        r@ == typed_message(before@, v@, after@),
{
    let mut s = String::new();
    push_text(&mut s, before);
    push_text(&mut s, v.type_label());
    push_text(&mut s, after);
    assert(s@ =~= typed_message(before@, v@, after@));
    s
}

fn convert_to_number<F: Fn(Request) -> Reply>(v: &Value, what: &str, whole: bool, host: &F) -> (r:
    Result<Value, String>)
    requires
        host_ready(*host),
        host_deterministic(*host),
    ensures
        result_view(r) == to_number(oracle_of(*host), v@, what@, whole),
{
    match v {
        Value::Number(n) => {
            if whole {
                Ok(Value::Number(math(host, MathOp::Truncate, *n)))
            } else {
                Ok(Value::Number(*n))
            }
        },
        Value::String(s) => {
            match parse_number(host, s.clone()) {
                Some(n) => {
                    if whole {
                        Ok(Value::Number(math(host, MathOp::Truncate, n)))
                    } else {
                        Ok(Value::Number(n))
                    }
                },
                None => {
                    let mut m = String::new();
                    push_text(&mut m, "Cannot convert '");
                    push_text(&mut m, s.as_str());
                    push_text(&mut m, "' to ");
                    push_text(&mut m, what);
                    assert(m@ =~= "Cannot convert '"@ + s@ + "' to "@ + what@);
                    Err(m)
                },
            }
        },
        Value::Boolean(b) => Ok(Value::Number(from_count(host, if *b { 1 } else { 0 }))),
        _ => {
            let mut tail = String::new();
            push_text(&mut tail, " to ");
            push_text(&mut tail, what);
            Err(typed_text("Cannot convert ", v, tail.as_str()))
        },
    }
}

/// Reads a line of input after printing the prompt `arg`.
pub fn read_input<F: Fn(Request) -> Reply>(arg: &Value, reads: &mut u64, host: &F) -> (line: Value)
    requires
        host_ready(*host),
        host_deterministic(*host),
    ensures
        line@ == Data::Str(answer_text(oracle_of(*host)(Query::Input(show(oracle_of(*host), arg@), *old(reads))))),
        *final(reads) == if *old(reads) < u64::MAX { (*old(reads) + 1) as u64 } else { *old(reads) },
{
    let prompt = value_text(arg, host);
    let text = read_line(host, prompt, *reads);
    if *reads < u64::MAX {
        *reads = *reads + 1;
    }
    Value::String(text)
}

/// Applies a built-in other than `input` to arguments of the number it takes.
pub fn call_builtin<F: Fn(Request) -> Reply>(b: Builtin, mut args: Vec<Value>, host: &F) -> (r:
    Result<Value, String>)
    requires
        host_ready(*host),
        host_deterministic(*host),
        args@.len() == builtin_arity(b),
        b != Builtin::Input,
    ensures
        result_view(r) == apply_pure_builtin(oracle_of(*host), b, values_view(args@)),
{
    let ghost o = oracle_of(*host);
    let ghost vs = values_view(args@);
    assert(forall|i: int| 0 <= i < args@.len() ==> vs[i] == args@[i]@);
    match b {
        Builtin::Input => Ok(Value::Null),
        Builtin::Len => match &args[0] {
            Value::String(s) => Ok(Value::Number(from_count(host, byte_length(s.as_str())))),
            Value::List(items) => Ok(Value::Number(from_count(host, items.len()))),
            Value::Dict(entries) => Ok(Value::Number(from_count(host, entries.len()))),
            other => {
                let m = typed_text("len() not supported for ", other, "");
                assert(m@ == typed_message("len() not supported for "@, vs[0], ""@));
                Err(m)
            },
        },
        Builtin::Type => {
            let mut s = String::new();
            push_text(&mut s, args[0].type_label());
            Ok(Value::String(s))
        },
        Builtin::Str => Ok(Value::String(value_text(&args[0], host))),
        Builtin::Num => convert_to_number(&args[0], "number", false, host),
        Builtin::Int => convert_to_number(&args[0], "int", true, host),
        Builtin::Float => convert_to_number(&args[0], "float", false, host),
        Builtin::Push => {
            let first = args.remove(0);
            proof {
                assert(args@[0]@ == vs[1]);
            }
            match first {
                Value::List(items) => {
                    let mut items = items;
                    let second = args.remove(0);
                    let ghost before = items@;
                    items.push(second);
                    assert(values_view(items@) =~= values_view(before).push(vs[1]));
                    Ok(Value::List(items))
                },
                other => {
                    let m = typed_text("push() expects a list, got ", &other, "");
                    assert(m@ == typed_message("push() expects a list, got "@, vs[0], ""@));
                    Err(m)
                },
            }
        },
        Builtin::Range => Ok(Value::Null),
        Builtin::Abs | Builtin::Sqrt | Builtin::Floor | Builtin::Ceil | Builtin::Round => {
            let op = match b {
                Builtin::Abs => MathOp::Abs,
                Builtin::Sqrt => MathOp::Sqrt,
                Builtin::Floor => MathOp::Floor,
                Builtin::Ceil => MathOp::Ceil,
                _ => MathOp::Round,
            };
            match &args[0] {
                Value::Number(n) => Ok(Value::Number(math(host, op, *n))),
                other => {
                    let mut before = String::new();
                    push_text(&mut before, builtin_label(b));
                    push_text(&mut before, "() expects a number, got ");
                    let m = typed_text(before.as_str(), other, "");
                    assert(m@ == typed_message(builtin_name(b) + "() expects a number, got "@, vs[0], ""@));
                    Err(m)
                },
            }
        },
        Builtin::Min | Builtin::Max | Builtin::Pow => {
            let op = match b {
                Builtin::Min => ArithOp::Min,
                Builtin::Max => ArithOp::Max,
                _ => ArithOp::Power,
            };
            match (&args[0], &args[1]) {
                (Value::Number(x), Value::Number(y)) => Ok(Value::Number(arith(host, op, *x, *y))),
                _ => {
                    let mut m = String::new();
                    push_text(&mut m, builtin_label(b));
                    push_text(&mut m, "() expects two numbers");
                    assert(m@ == builtin_name(b) + "() expects two numbers"@);
                    Err(m)
                },
            }
        },
    }
}

} // verus!
