//! The host: what the evaluator asks of the program that runs it.
//!
//! The evaluator does not compute with numbers, read the terminal or print
//! to it. It asks the host, a closure from `Request` to `Reply`: binary64
//! arithmetic and comparisons, number formatting and parsing, reading a line
//! of input, printing a line. Its results are proved for every host that
//! answers each request the same way whenever it is asked (`host_deterministic`);
//! a request to read input carries the number of earlier reads, so a host that
//! gives the n-th line of its input for the n-th read is deterministic.

use vstd::prelude::*;

verus! {

/// Binary arithmetic on numbers.
#[derive(Debug, Clone, Copy, PartialEq, Eq, Structural)]
pub enum ArithOp {
    Add,
    Subtract,
    Multiply,
    Divide,
    Remainder,
    Min,
    Max,
    Power,
}

/// Comparisons of numbers.
#[derive(Debug, Clone, Copy, PartialEq, Eq, Structural)]
pub enum CompareOp {
    Less,
    LessEqual,
    Greater,
    GreaterEqual,
}

/// Unary functions on numbers.
#[derive(Debug, Clone, Copy, PartialEq, Eq, Structural)]
pub enum MathOp {
    Negate,
    Abs,
    Sqrt,
    Floor,
    Ceil,
    Round,
    Truncate,
}

/// A request to the host. Numbers are binary64 bit patterns.
#[derive(Debug)]
pub enum Request {
    /// `a op b`; answered with `Reply::Number`.
    Arith(ArithOp, u64, u64),
    /// `a op b`; answered with `Reply::Flag`.
    Compare(CompareOp, u64, u64),
    /// `op(a)`; answered with `Reply::Number`.
    Math(MathOp, u64),
    /// The number equal to a count; answered with `Reply::Number`.
    FromCount(usize),
    /// The number converted to an index (`n as usize`); answered with `Reply::Index`.
    ToIndex(u64),
    /// How the number is printed; answered with `Reply::Text`.
    Format(u64),
    /// How the number's integer part is printed (`n as i64`); answered with `Reply::Text`.
    FormatWhole(u64),
    /// The number a text denotes, if any; answered with `Reply::Parsed`.
    Parse(String),
    /// Print the prompt and read a line of input; the second field counts
    /// the reads made before. Answered with `Reply::Text`.
    Input(String, u64),
    /// Print a line. Answered with `Reply::Done`.
    Print(String),
}

/// The host's answer to a request.
#[derive(Debug)]
pub enum Reply {
    Number(u64),
    Flag(bool),
    Index(usize),
    Text(String),
    Parsed(Option<u64>),
    Done,
}

/// The mathematical model of a request.
pub enum Query {
    Arith(ArithOp, u64, u64),
    Compare(CompareOp, u64, u64),
    Math(MathOp, u64),
    FromCount(usize),
    ToIndex(u64),
    Format(u64),
    FormatWhole(u64),
    Parse(Seq<char>),
    Input(Seq<char>, u64),
    Print(Seq<char>),
}

/// The mathematical model of a reply.
pub enum Answer {
    Number(u64),
    Flag(bool),
    Index(usize),
    Text(Seq<char>),
    Parsed(Option<u64>),
    Done,
}

impl View for Request {
    type V = Query;

    open spec fn view(&self) -> Query {
        match self {
            Request::Arith(op, a, b) => Query::Arith(*op, *a, *b),
            Request::Compare(op, a, b) => Query::Compare(*op, *a, *b),
            Request::Math(op, a) => Query::Math(*op, *a),
            Request::FromCount(n) => Query::FromCount(*n),
            Request::ToIndex(n) => Query::ToIndex(*n),
            Request::Format(n) => Query::Format(*n),
            Request::FormatWhole(n) => Query::FormatWhole(*n),
            Request::Parse(s) => Query::Parse(s@),
            Request::Input(s, k) => Query::Input(s@, *k),
            Request::Print(s) => Query::Print(s@),
        }
    }
}

impl View for Reply {
    type V = Answer;

    open spec fn view(&self) -> Answer {
        match self {
            Reply::Number(n) => Answer::Number(*n),
            Reply::Flag(b) => Answer::Flag(*b),
            Reply::Index(i) => Answer::Index(*i),
            Reply::Text(s) => Answer::Text(s@),
            Reply::Parsed(p) => Answer::Parsed(*p),
            Reply::Done => Answer::Done,
        }
    }
}

/// A host answers every request.
pub open spec fn host_ready<F: Fn(Request) -> Reply>(host: F) -> bool {
    forall|r: Request| call_requires(host, (r,))
}

/// A host gives equal answers to equal requests.
pub open spec fn host_deterministic<F: Fn(Request) -> Reply>(host: F) -> bool {
    forall|r1: Request, r2: Request, a1: Reply, a2: Reply|
        r1@ == r2@ && #[trigger] call_ensures(host, (r1,), a1) && #[trigger] call_ensures(
            host,
            (r2,),
            a2,
        ) ==> a1@ == a2@
}

/// The host gives `a` for some request whose model is `q`.
pub open spec fn answers<F: Fn(Request) -> Reply>(host: F, q: Query, a: Reply) -> bool {
    exists|r: Request| r@ == q && #[trigger] call_ensures(host, (r,), a)
}

/// The function that a deterministic host computes.
pub open spec fn oracle_of<F: Fn(Request) -> Reply>(host: F) -> spec_fn(Query) -> Answer {
    |q: Query| (choose|a: Reply| #[trigger] answers(host, q, a))@
}

/// Asks the host.
pub(crate) fn ask<F: Fn(Request) -> Reply>(host: &F, req: Request) -> (a: Reply)
    requires
        host_ready(*host),
        host_deterministic(*host),
    ensures
        a@ == oracle_of(*host)(req@),
{
    let ghost q = req@;
    let a = host(req);
    proof {
        assert(answers(*host, q, a));
        let c = choose|c: Reply| answers(*host, q, c);
        let r2 = choose|r2: Request| r2@ == q && call_ensures(*host, (r2,), c);
        assert(call_ensures(*host, (r2,), c));
    }
    a
}

/// The number in an answer (the default 0 for another kind of answer).
pub open spec fn answer_number(a: Answer) -> u64 {
    match a {
        Answer::Number(n) => n,
        _ => 0,
    }
}

/// The flag in an answer (false for another kind of answer).
pub open spec fn answer_flag(a: Answer) -> bool {
    match a {
        Answer::Flag(b) => b,
        _ => false,
    }
}

/// The index in an answer (0 for another kind of answer).
pub open spec fn answer_index(a: Answer) -> usize {
    match a {
        Answer::Index(i) => i,
        _ => 0,
    }
}

/// The text in an answer (empty for another kind of answer).
pub open spec fn answer_text(a: Answer) -> Seq<char> {
    match a {
        Answer::Text(s) => s,
        _ => Seq::empty(),
    }
}

/// The parse result in an answer (`None` for another kind of answer).
pub open spec fn answer_parsed(a: Answer) -> Option<u64> {
    match a {
        Answer::Parsed(p) => p,
        _ => None,
    }
}

/// `a op b`, computed by the host.
pub(crate) fn arith<F: Fn(Request) -> Reply>(host: &F, op: ArithOp, a: u64, b: u64) -> (r: u64)
    requires
        host_ready(*host),
        host_deterministic(*host),
    ensures
        r == answer_number(oracle_of(*host)(Query::Arith(op, a, b))),
{
    match ask(host, Request::Arith(op, a, b)) {
        Reply::Number(n) => n,
        _ => 0,
    }
}

/// `a op b` for a comparison, computed by the host.
pub(crate) fn compare<F: Fn(Request) -> Reply>(host: &F, op: CompareOp, a: u64, b: u64) -> (r: bool)
    requires
        host_ready(*host),
        host_deterministic(*host),
    ensures
        r == answer_flag(oracle_of(*host)(Query::Compare(op, a, b))),
{
    match ask(host, Request::Compare(op, a, b)) {
        Reply::Flag(f) => f,
        _ => false,
    }
}

/// `op(a)`, computed by the host.
pub(crate) fn math<F: Fn(Request) -> Reply>(host: &F, op: MathOp, a: u64) -> (r: u64)
    requires
        host_ready(*host),
        host_deterministic(*host),
    ensures
        r == answer_number(oracle_of(*host)(Query::Math(op, a))),
{
    match ask(host, Request::Math(op, a)) {
        Reply::Number(n) => n,
        _ => 0,
    }
}

/// The number equal to `n`, made by the host.
pub(crate) fn from_count<F: Fn(Request) -> Reply>(host: &F, n: usize) -> (r: u64)
    requires
        host_ready(*host),
        host_deterministic(*host),
    ensures
        r == answer_number(oracle_of(*host)(Query::FromCount(n))),
{
    match ask(host, Request::FromCount(n)) {
        Reply::Number(x) => x,
        _ => 0,
    }
}

/// The index that the number converts to, by the host.
pub(crate) fn to_index<F: Fn(Request) -> Reply>(host: &F, n: u64) -> (r: usize)
    requires
        host_ready(*host),
        host_deterministic(*host),
    ensures
        r == answer_index(oracle_of(*host)(Query::ToIndex(n))),
{
    match ask(host, Request::ToIndex(n)) {
        Reply::Index(i) => i,
        _ => 0,
    }
}

/// How the host prints the number.
pub(crate) fn format_number<F: Fn(Request) -> Reply>(host: &F, n: u64) -> (r: String)
    requires
        host_ready(*host),
        host_deterministic(*host),
    ensures
        r@ == answer_text(oracle_of(*host)(Query::Format(n))),
{
    match ask(host, Request::Format(n)) {
        Reply::Text(s) => s,
        _ => String::new(),
    }
}

/// How the host prints the integer part of the number.
pub(crate) fn format_whole<F: Fn(Request) -> Reply>(host: &F, n: u64) -> (r: String)
    requires
        host_ready(*host),
        host_deterministic(*host),
    ensures
        r@ == answer_text(oracle_of(*host)(Query::FormatWhole(n))),
{
    match ask(host, Request::FormatWhole(n)) {
        Reply::Text(s) => s,
        _ => String::new(),
    }
}

/// The number that the host reads in `s`, if any.
pub(crate) fn parse_number<F: Fn(Request) -> Reply>(host: &F, s: String) -> (r: Option<u64>)
    requires
        host_ready(*host),
        host_deterministic(*host),
    ensures
        r == answer_parsed(oracle_of(*host)(Query::Parse(s@))),
{
    match ask(host, Request::Parse(s)) {
        Reply::Parsed(p) => p,
        _ => None,
    }
}

/// The line that the host reads after printing `prompt`; `reads` counts the
/// reads made before.
pub(crate) fn read_line<F: Fn(Request) -> Reply>(host: &F, prompt: String, reads: u64) -> (r: String)
    requires
        host_ready(*host),
        host_deterministic(*host),
    ensures
        r@ == answer_text(oracle_of(*host)(Query::Input(prompt@, reads))),
{
    match ask(host, Request::Input(prompt, reads)) {
        Reply::Text(s) => s,
        _ => String::new(),
    }
}

/// Hands a line to the host to print.
pub(crate) fn print_line<F: Fn(Request) -> Reply>(host: &F, line: String)
    requires
        host_ready(*host),
        host_deterministic(*host),
{
    let _ = ask(host, Request::Print(line));
}

} // verus!
