//! KelpyShark runtime values.
//!
//! Every expression evaluates to a `Value`. A number is held as the bit
//! pattern of its IEEE-754 binary64 value; arithmetic on it is the host's
//! (see `host`). A dictionary is a list of entries in which each key occurs
//! once, in the order in which the keys were first inserted.

use crate::ast::Statement;
use std::rc::Rc;
use vstd::prelude::*;

verus! {

/// The built-in native functions.
#[derive(Debug, Clone, Copy, PartialEq, Eq, Structural)]
pub enum Builtin {
    Len,
    Type,
    Str,
    Num,
    Push,
    Range,
    Int,
    Float,
    Input,
    Abs,
    Sqrt,
    Floor,
    Ceil,
    Round,
    Min,
    Max,
    Pow,
}

/// A runtime value.
#[derive(Debug)]
pub enum Value {
    /// A number, by the bit pattern of its binary64 value.
    Number(u64),
    String(String),
    Boolean(bool),
    List(Vec<Value>),
    Dict(Vec<(String, Value)>),
    /// A function defined by the program; `depth` is the number of scopes
    /// there were where it was defined: its body sees those scopes.
    Function { name: String, params: Vec<String>, body: Rc<Vec<Statement>>, depth: usize },
    /// A built-in native function.
    NativeFunction { name: String, arity: usize, builtin: Builtin },
    Class { name: String, methods: Vec<(String, Value)> },
    Instance { class_name: String, fields: Vec<(String, Value)> },
    Null,
}

/// The mathematical model of a runtime value.
pub enum Data {
    Number(u64),
    Str(Seq<char>),
    Boolean(bool),
    List(Seq<Data>),
    Dict(Seq<(Seq<char>, Data)>),
    Function { name: Seq<char>, params: Seq<Seq<char>>, body: Seq<Statement>, depth: usize },
    NativeFunction { name: Seq<char>, arity: usize, builtin: Builtin },
    Class { name: Seq<char>, methods: Seq<(Seq<char>, Data)> },
    Instance { class_name: Seq<char>, fields: Seq<(Seq<char>, Data)> },
    Null,
}

pub open spec fn names_view(s: Seq<String>) -> Seq<Seq<char>> {
    s.map_values(|x: String| x@)
}

pub open spec fn values_view(s: Seq<Value>) -> Seq<Data>
    decreases s,
{
    Seq::new(s.len(), |i: int| if 0 <= i < s.len() { data_of(s[i]) } else { Data::Null })
}

pub open spec fn entries_view(s: Seq<(String, Value)>) -> Seq<(Seq<char>, Data)>
    decreases s,
{
    Seq::new(
        s.len(),
        |i: int|
            if 0 <= i < s.len() {
                (s[i].0@, data_of(s[i].1))
            } else {
                (Seq::empty(), Data::Null)
            },
    )
}

pub open spec fn data_of(v: Value) -> Data
    decreases v,
{
    match v {
        Value::Number(n) => Data::Number(n),
        Value::String(s) => Data::Str(s@),
        Value::Boolean(b) => Data::Boolean(b),
        Value::List(items) => Data::List(values_view(items@)),
        Value::Dict(entries) => Data::Dict(entries_view(entries@)),
        Value::Function { name, params, body, depth } => Data::Function {
            name: name@,
            params: names_view(params@),
            body: body@,
            depth,
        },
        Value::NativeFunction { name, arity, builtin } => Data::NativeFunction {
            name: name@,
            arity,
            builtin,
        },
        Value::Class { name, methods } => Data::Class {
            name: name@,
            methods: entries_view(methods@),
        },
        Value::Instance { class_name, fields } => Data::Instance {
            class_name: class_name@,
            fields: entries_view(fields@),
        },
        Value::Null => Data::Null,
    }
}

impl View for Value {
    type V = Data;

    open spec fn view(&self) -> Data {
        data_of(*self)
    }
}

} // verus!

verus! {

/// The model of an evaluation result: a value or an error message.
pub open spec fn result_view(r: Result<Value, String>) -> Result<Data, Seq<char>> {
    match r {
        Ok(v) => Ok(v@),
        Err(m) => Err(m@),
    }
}

/// A binary64 number equals zero: every bit but the sign is clear.
pub open spec fn number_is_zero(bits: u64) -> bool {
    bits & 0x7fff_ffff_ffff_ffff == 0
}

/// A binary64 bit pattern is a NaN: exponent all ones, fraction not zero.
pub open spec fn number_is_nan(bits: u64) -> bool {
    (bits >> 52u64) & 0x7ff == 0x7ff && bits & 0xf_ffff_ffff_ffff != 0
}

/// Binary64 equality (`==` on `f64`): NaN equals nothing, and the two
/// zeros are equal.
pub open spec fn numbers_equal(a: u64, b: u64) -> bool {
    !number_is_nan(a) && !number_is_nan(b) && (a == b || (number_is_zero(a) && number_is_zero(b)))
}

/// Whether a number is zero.
pub fn is_zero(bits: u64) -> (r: bool)
    ensures
        r == number_is_zero(bits),
{
    bits & 0x7fff_ffff_ffff_ffff == 0
}

/// Binary64 equality of two numbers.
pub fn number_eq(a: u64, b: u64) -> (r: bool)
    ensures
        r == numbers_equal(a, b),
{
    let a_nan = (a >> 52u64) & 0x7ff == 0x7ff && a & 0xf_ffff_ffff_ffff != 0;
    let b_nan = (b >> 52u64) & 0x7ff == 0x7ff && b & 0xf_ffff_ffff_ffff != 0;
    !a_nan && !b_nan && (a == b || (is_zero(a) && is_zero(b)))
}

/// Whether a value counts as true in a condition.
pub open spec fn truthy(v: Data) -> bool {
    match v {
        Data::Null => false,
        Data::Boolean(b) => b,
        Data::Number(n) => !number_is_zero(n),
        Data::Str(s) => s.len() > 0,
        Data::List(items) => items.len() > 0,
        Data::Dict(entries) => entries.len() > 0,
        _ => true,
    }
}

/// The name of a value's type.
pub open spec fn type_label_of(v: Data) -> Seq<char> {
    match v {
        Data::Number(_) => "number"@,
        Data::Str(_) => "string"@,
        Data::Boolean(_) => "boolean"@,
        Data::Null => "null"@,
        Data::List(_) => "list"@,
        Data::Dict(_) => "dict"@,
        Data::Function { .. } => "function"@,
        Data::NativeFunction { .. } => "native_function"@,
        Data::Class { .. } => "class"@,
        Data::Instance { .. } => "instance"@,
    }
}

/// Equality of values as the `==` operator sees it: numbers, strings,
/// booleans and null compare by content; any other pair is unequal.
pub open spec fn data_equal(a: Data, b: Data) -> bool {
    match (a, b) {
        (Data::Number(x), Data::Number(y)) => numbers_equal(x, y),
        (Data::Str(x), Data::Str(y)) => x == y,
        (Data::Boolean(x), Data::Boolean(y)) => x == y,
        (Data::Null, Data::Null) => true,
        _ => false,
    }
}

/// A new handle on a shared function body (`Rc::clone`): the same body.
#[verifier::external_body]
pub(crate) fn share_body(body: &Rc<Vec<Statement>>) -> (r: Rc<Vec<Statement>>)
    ensures
        r == *body,
{
    Rc::clone(body)
}

pub(crate) fn duplicate_names(names: &Vec<String>) -> (r: Vec<String>)
    ensures
        names_view(r@) == names_view(names@),
{
    let mut out: Vec<String> = Vec::new();
    for i in 0..names.len()
        invariant
            out@.len() == i,
            forall|j: int| 0 <= j < i ==> out@[j]@ == names@[j]@,
    {
        out.push(names[i].clone());
    }
    assert(names_view(out@) =~= names_view(names@));
    out
}

impl Value {
    /// Whether the value counts as true in a condition.
    pub fn is_truthy(&self) -> (r: bool)
        ensures
            r == truthy(self@),
    {
        match self {
            Value::Null => false,
            Value::Boolean(b) => *b,
            Value::Number(n) => !is_zero(*n),
            Value::String(s) => !s.as_str().is_empty(),
            Value::List(items) => items.len() != 0,
            Value::Dict(entries) => entries.len() != 0,
            _ => true,
        }
    }

    /// The name of the value's type, as error messages and `type()` show it.
    pub fn type_label(&self) -> (r: &'static str)
        ensures
            r@ == type_label_of(self@),
    {
        match self {
            Value::Number(_) => "number",
            Value::String(_) => "string",
            Value::Boolean(_) => "boolean",
            Value::Null => "null",
            Value::List(_) => "list",
            Value::Dict(_) => "dict",
            Value::Function { .. } => "function",
            Value::NativeFunction { .. } => "native_function",
            Value::Class { .. } => "class",
            Value::Instance { .. } => "instance",
        }
    }

    /// Equality as the `==` operator sees it.
    pub fn equals(&self, other: &Value) -> (r: bool)
        ensures
            r == data_equal(self@, other@),
    {
        match (self, other) {
            (Value::Number(a), Value::Number(b)) => number_eq(*a, *b),
            (Value::String(a), Value::String(b)) => *a == *b,
            (Value::Boolean(a), Value::Boolean(b)) => *a == *b,
            (Value::Null, Value::Null) => true,
            _ => false,
        }
    }

    /// A copy of the value.
    pub fn duplicate(&self) -> (r: Value)
        ensures
            r@ == self@,
        decreases self,
    {
        match self {
            Value::Number(n) => Value::Number(*n),
            Value::String(s) => Value::String(s.clone()),
            Value::Boolean(b) => Value::Boolean(*b),
            Value::Null => Value::Null,
            Value::List(items) => Value::List(duplicate_list_of(self, items)),
            Value::Dict(entries) => Value::Dict(duplicate_entries_of(self, entries)),
            Value::Function { name, params, body, depth } => Value::Function {
                name: name.clone(),
                params: duplicate_names(params),
                body: share_body(body),
                depth: *depth,
            },
            Value::NativeFunction { name, arity, builtin } => Value::NativeFunction {
                name: name.clone(),
                arity: *arity,
                builtin: *builtin,
            },
            Value::Class { name, methods } => Value::Class {
                name: name.clone(),
                methods: duplicate_entries_of(self, methods),
            },
            Value::Instance { class_name, fields } => Value::Instance {
                class_name: class_name.clone(),
                fields: duplicate_entries_of(self, fields),
            },
        }
    }
}

fn duplicate_list_of(owner: &Value, items: &Vec<Value>) -> (r: Vec<Value>)
    requires
        forall|i: int| 0 <= i < items@.len() ==> decreases_to!(owner => items@[i]),
    ensures
        values_view(r@) == values_view(items@),
    decreases owner, 0nat,
{
    let mut out: Vec<Value> = Vec::new();
    for i in 0..items.len()
        invariant
            out@.len() == i,
            forall|j: int| 0 <= j < items@.len() ==> decreases_to!(owner => items@[j]),
            forall|j: int| 0 <= j < i ==> out@[j]@ == items@[j]@,
    {
        out.push(items[i].duplicate());
    }
    assert(values_view(out@) =~= values_view(items@));
    out
}

fn duplicate_entries_of(owner: &Value, entries: &Vec<(String, Value)>) -> (r: Vec<(String, Value)>)
    requires
        forall|i: int| 0 <= i < entries@.len() ==> decreases_to!(owner => entries@[i].1),
    ensures
        entries_view(r@) == entries_view(entries@),
    decreases owner, 0nat,
{
    let mut out: Vec<(String, Value)> = Vec::new();
    for i in 0..entries.len()
        invariant
            out@.len() == i,
            forall|j: int| 0 <= j < entries@.len() ==> decreases_to!(owner => entries@[j].1),
            forall|j: int|
                0 <= j < i ==> out@[j].0@ == entries@[j].0@ && out@[j].1@ == entries@[j].1@,
    {
        let v = entries[i].1.duplicate();
        out.push((entries[i].0.clone(), v));
    }
    assert(entries_view(out@) =~= entries_view(entries@));
    out
}

} // verus!

verus! {

/// Models of list prefixes, extensions and reversals.
pub proof fn lemma_values_view_subrange(s: Seq<Value>, a: int, b: int)
    requires
        0 <= a <= b <= s.len(),
    ensures
        values_view(s.subrange(a, b)) == values_view(s).subrange(a, b),
{
    assert(values_view(s.subrange(a, b)) =~= values_view(s).subrange(a, b));
}

pub proof fn lemma_values_view_push(s: Seq<Value>, x: Value)
    ensures
        values_view(s.push(x)) == values_view(s).push(x@),
{
    assert(values_view(s.push(x)) =~= values_view(s).push(x@));
}

pub proof fn lemma_values_view_empty()
    ensures
        values_view(Seq::<Value>::empty()) == Seq::<Data>::empty(),
{
    assert(values_view(Seq::<Value>::empty()) =~= Seq::<Data>::empty());
}

pub proof fn lemma_values_view_len(s: Seq<Value>)
    ensures
        values_view(s).len() == s.len(),
        forall|i: int| 0 <= i < s.len() ==> #[trigger] values_view(s)[i] == s[i]@,
{
}

} // verus!
