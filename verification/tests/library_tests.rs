use kelpyshark_interpreter::ast::{
    BinaryOperator, CompoundOp, Expr, Program, Statement, StringPart, UnaryOperator,
};
use kelpyshark_interpreter::host::{ArithOp, CompareOp, MathOp, Reply, Request};
use kelpyshark_interpreter::interpreter::{
    binary_op, compound_op, index_op, member_op, range_op, unary_op, Interpreter, RuntimeError,
};
use kelpyshark_interpreter::methods::call_prim_method;
use kelpyshark_interpreter::repl::{repl_step, ReplStep};
use kelpyshark_interpreter::value::{Builtin, Value};
use std::cell::RefCell;
use std::rc::Rc;

/// A host computing with `f64`, printing numbers as the language does.
fn host(req: Request) -> Reply {
    match req {
        Request::Arith(op, a, b) => {
            let (x, y) = (f64::from_bits(a), f64::from_bits(b));
            let r = match op {
                ArithOp::Add => x + y,
                ArithOp::Subtract => x - y,
                ArithOp::Multiply => x * y,
                ArithOp::Divide => x / y,
                ArithOp::Remainder => x % y,
                ArithOp::Min => x.min(y),
                ArithOp::Max => x.max(y),
                ArithOp::Power => x.powf(y),
            };
            Reply::Number(r.to_bits())
        }
        Request::Compare(op, a, b) => {
            let (x, y) = (f64::from_bits(a), f64::from_bits(b));
            Reply::Flag(match op {
                CompareOp::Less => x < y,
                CompareOp::LessEqual => x <= y,
                CompareOp::Greater => x > y,
                CompareOp::GreaterEqual => x >= y,
            })
        }
        Request::Math(op, a) => {
            let x = f64::from_bits(a);
            let r = match op {
                MathOp::Negate => -x,
                MathOp::Abs => x.abs(),
                MathOp::Sqrt => x.sqrt(),
                MathOp::Floor => x.floor(),
                MathOp::Ceil => x.ceil(),
                MathOp::Round => x.round(),
                MathOp::Truncate => x.trunc(),
            };
            Reply::Number(r.to_bits())
        }
        Request::FromCount(n) => Reply::Number((n as f64).to_bits()),
        Request::ToIndex(n) => Reply::Index(f64::from_bits(n) as usize),
        Request::Format(n) => {
            let x = f64::from_bits(n);
            if x == (x as i64) as f64 {
                Reply::Text(format!("{}", x as i64))
            } else {
                Reply::Text(format!("{}", x))
            }
        }
        Request::FormatWhole(n) => Reply::Text(format!("{}", f64::from_bits(n) as i64)),
        Request::Parse(s) => Reply::Parsed(s.parse::<f64>().ok().map(|x| x.to_bits())),
        Request::Input(_, _) => Reply::Text(String::new()),
        Request::Print(line) => {
            println!("{}", line);
            Reply::Done
        }
    }
}

fn num(x: f64) -> Expr {
    Expr::NumberLiteral { value: x.to_bits() }
}

fn text(s: &str) -> Expr {
    Expr::StringLiteral { value: s.to_string() }
}

fn boolean(b: bool) -> Expr {
    Expr::BooleanLiteral { value: b }
}

fn var(name: &str) -> Expr {
    Expr::Identifier { name: name.to_string() }
}

fn bin(left: Expr, op: BinaryOperator, right: Expr) -> Expr {
    Expr::BinaryOp { left: Box::new(left), op, right: Box::new(right) }
}

fn add(left: Expr, right: Expr) -> Expr {
    bin(left, BinaryOperator::Add, right)
}

fn not(e: Expr) -> Expr {
    Expr::UnaryOp { op: UnaryOperator::Not, operand: Box::new(e) }
}

fn call(name: &str, args: Vec<Expr>) -> Expr {
    Expr::FunctionCall { callee: Box::new(var(name)), args }
}

fn index(object: Expr, idx: Expr) -> Expr {
    Expr::Index { object: Box::new(object), index: Box::new(idx) }
}

fn list(elements: Vec<Expr>) -> Expr {
    Expr::ListLiteral { elements }
}

fn dict(entries: Vec<(Expr, Expr)>) -> Expr {
    Expr::DictLiteral { entries }
}

fn interpolate(parts: Vec<StringPart>) -> Expr {
    Expr::StringInterpolation { parts }
}

fn lit(s: &str) -> StringPart {
    StringPart::Literal(s.to_string())
}

fn part(e: Expr) -> StringPart {
    StringPart::Expression(e)
}

fn print(e: Expr) -> Statement {
    Statement::Print { value: e }
}

fn set(name: &str, e: Expr) -> Statement {
    Statement::Assignment { name: name.to_string(), value: e }
}

fn def(name: &str, params: &[&str], body: Vec<Statement>) -> Statement {
    Statement::FunctionDef {
        name: name.to_string(),
        params: params.iter().map(|p| p.to_string()).collect(),
        body: Rc::new(body),
    }
}

fn ret(e: Expr) -> Statement {
    Statement::Return { value: Some(e) }
}

fn if_then(condition: Expr, then_body: Vec<Statement>) -> Statement {
    Statement::If { condition, then_body, else_body: None }
}

fn if_else(condition: Expr, then_body: Vec<Statement>, else_body: Vec<Statement>) -> Statement {
    Statement::If { condition, then_body, else_body: Some(else_body) }
}

fn while_loop(condition: Expr, body: Vec<Statement>) -> Statement {
    Statement::While { condition, body }
}

fn for_in(variable: &str, iterable: Expr, body: Vec<Statement>) -> Statement {
    Statement::For { variable: variable.to_string(), iterable, body }
}

fn expr(e: Expr) -> Statement {
    Statement::ExprStatement { expr: e }
}

fn run(statements: Vec<Statement>) -> Vec<String> {
    let mut interp = Interpreter::new_with_buffer();
    interp
        .exec_program(&Program { statements }, &host)
        .expect("Should execute without error");
    interp.get_output()
}

fn run_err(statements: Vec<Statement>) -> RuntimeError {
    let mut interp = Interpreter::new_with_buffer();
    interp.exec_program(&Program { statements }, &host).expect_err("Should produce an error")
}


fn method(object: Expr, name: &str, args: Vec<Expr>) -> Expr {
    Expr::MethodCall { object: Box::new(object), method: name.to_string(), args }
}

fn number(x: f64) -> Value {
    Value::Number(x.to_bits())
}

fn string(s: &str) -> Value {
    Value::String(s.to_string())
}

fn shown(statements: Vec<Statement>, e: Expr) -> String {
    let mut all = statements;
    all.push(print(e));
    let out = run(all);
    out[out.len() - 1].clone()
}

fn error_of(statements: Vec<Statement>) -> String {
    run_err(statements).message
}

// ── Laws on concrete runs ──

#[test]
fn run_keeps_scope_depth_after_calls() {
    let mut interp = Interpreter::new_with_buffer();
    let program = Program {
        statements: vec![
            def("f", &["a"], vec![ret(add(var("a"), num(1.0)))]),
            print(call("f", vec![call("f", vec![num(1.0)])])),
        ],
    };
    assert!(interp.exec_program(&program, &host).is_ok());
    assert_eq!(interp.env.depth(), 1);
    assert_eq!(interp.get_output(), vec!["3"]);
}

#[test]
fn unbuffered_run_hands_lines_to_the_host_and_keeps_none() {
    let printed: RefCell<Vec<String>> = RefCell::new(Vec::new());
    let recording = |req: Request| match req {
        Request::Print(line) => {
            printed.borrow_mut().push(line);
            Reply::Done
        }
        other => host(other),
    };
    let mut interp = Interpreter::new();
    let program = Program { statements: vec![print(text("one")), print(num(2.0))] };
    assert!(interp.exec_program(&program, &recording).is_ok());
    assert!(interp.get_output().is_empty());
    assert_eq!(*printed.borrow(), vec!["one".to_string(), "2".to_string()]);
}

#[test]
fn new_interpreter_binds_every_builtin() {
    let interp = Interpreter::default();
    let names = [
        "len", "type", "str", "num", "push", "range", "int", "float", "input", "abs", "sqrt",
        "floor", "ceil", "round", "min", "max", "pow",
    ];
    for name in names.iter() {
        match interp.env.get(name) {
            Some(Value::NativeFunction { name: n, .. }) => assert_eq!(n, name),
            other => panic!("{} is bound to {:?}", name, other),
        }
    }
    assert_eq!(interp.env.depth(), 1);
    assert!(interp.get_output().is_empty());
}

#[test]
fn dict_literal_keeps_last_value_of_repeated_key() {
    let out = shown(
        vec![set("d", dict(vec![(text("a"), num(1.0)), (text("b"), num(2.0)), (text("a"), num(3.0))]))],
        var("d"),
    );
    assert_eq!(out, "{\"a\": 3, \"b\": 2}");
}

#[test]
fn sort_keeps_elements() {
    let out = shown(vec![], method(list(vec![num(3.0), num(1.0), num(2.0), num(1.0)]), "sort", vec![]));
    assert_eq!(out, "[1, 1, 2, 3]");
    let out = shown(vec![], method(list(vec![text("pear"), text("apple"), text("fig")]), "sort", vec![]));
    assert_eq!(out, "[\"apple\", \"fig\", \"pear\"]");
}

// ── Printing ──

#[test]
fn printing_values() {
    assert_eq!(shown(vec![], num(-0.5)), "-0.5");
    assert_eq!(shown(vec![], Expr::NullLiteral), "null");
    assert_eq!(shown(vec![], list(vec![text("a"), num(1.0), boolean(true)])), "[\"a\", 1, true]");
    assert_eq!(shown(vec![], list(vec![])), "[]");
    assert_eq!(
        shown(vec![def("add", &["a", "b"], vec![])], var("add")),
        "<function add(a, b)>"
    );
    assert_eq!(shown(vec![], var("len")), "<native function len>");
}

// ── Operators ──

#[test]
fn operator_results() {
    assert_eq!(shown(vec![], add(text("n = "), num(4.0))), "n = 4");
    assert_eq!(shown(vec![], add(num(4.0), text(" items"))), "4 items");
    assert_eq!(shown(vec![], bin(text("a"), BinaryOperator::Equal, text("a"))), "true");
    assert_eq!(shown(vec![], bin(list(vec![]), BinaryOperator::Equal, list(vec![]))), "false");
    assert_eq!(shown(vec![], bin(num(0.0), BinaryOperator::Or, text(""))), "false");
    assert_eq!(
        shown(vec![], Expr::UnaryOp { op: UnaryOperator::Negate, operand: Box::new(num(2.5)) }),
        "-2.5"
    );
}

#[test]
fn operator_errors() {
    assert_eq!(
        error_of(vec![print(bin(num(1.0), BinaryOperator::Modulo, num(0.0)))]),
        "Modulo by zero"
    );
    assert_eq!(
        error_of(vec![print(bin(text("a"), BinaryOperator::Subtract, num(1.0)))]),
        "Cannot apply '-' to string and number"
    );
    assert_eq!(
        error_of(vec![print(Expr::UnaryOp {
            op: UnaryOperator::Negate,
            operand: Box::new(text("a")),
        })]),
        "Cannot negate string"
    );
}

#[test]
fn operator_functions_directly() {
    let r = binary_op(&number(7.0), BinaryOperator::Multiply, &number(6.0), &host).unwrap();
    assert!(r.equals(&number(42.0)));
    let r = binary_op(&number(1.0), BinaryOperator::LessThan, &number(2.0), &host).unwrap();
    assert!(r.equals(&Value::Boolean(true)));
    let e = binary_op(&number(1.0), BinaryOperator::Divide, &number(0.0), &host).unwrap_err();
    assert_eq!(e, "Division by zero");
    let r = unary_op(UnaryOperator::Not, &string(""), &host).unwrap();
    assert!(r.equals(&Value::Boolean(true)));
    let r = compound_op(&number(3.0), CompoundOp::Add, &string("abc"), &host).unwrap();
    assert!(r.equals(&string("3abc")));
    let e = compound_op(&Value::Null, CompoundOp::Multiply, &number(1.0), &host).unwrap_err();
    assert_eq!(e, "Cannot apply Multiply to null");
}

// ── Indexing and members ──

#[test]
fn indexing_errors() {
    assert_eq!(
        error_of(vec![print(index(list(vec![num(1.0)]), num(5.0)))]),
        "Index 5 out of bounds (list length 1)"
    );
    assert_eq!(
        error_of(vec![print(index(dict(vec![(text("a"), num(1.0))]), text("z")))]),
        "Key 'z' not found in dict"
    );
    assert_eq!(error_of(vec![print(index(num(1.0), num(0.0)))]), "Cannot index number with number");
    let r = index_op(&Value::List(vec![number(9.0)]), &number(0.0), &host).unwrap();
    assert!(r.equals(&number(9.0)));
}

#[test]
fn member_access() {
    let d = Value::Dict(vec![("k".to_string(), number(1.0))]);
    assert!(member_op(&d, &"k".to_string()).unwrap().equals(&number(1.0)));
    assert_eq!(member_op(&d, &"x".to_string()).unwrap_err(), "Key 'x' not found in dict");
    assert_eq!(
        member_op(&number(1.0), &"x".to_string()).unwrap_err(),
        "Cannot access member 'x' on number"
    );
    let out = shown(
        vec![set("d", dict(vec![(text("name"), text("Ann"))]))],
        Expr::MemberAccess { object: Box::new(var("d")), member: "name".to_string() },
    );
    assert_eq!(out, "Ann");
}

// ── Calls ──

#[test]
fn call_errors() {
    assert_eq!(
        error_of(vec![expr(Expr::FunctionCall { callee: Box::new(num(1.0)), args: vec![] })]),
        "'number' is not a function"
    );
    assert_eq!(
        error_of(vec![expr(call("len", vec![num(1.0), num(2.0)]))]),
        "Native function 'len' expects 1 arguments, got 2"
    );
    assert_eq!(
        error_of(vec![expr(call("len", vec![num(1.0)]))]),
        "len() not supported for number"
    );
    assert_eq!(
        error_of(vec![set("r", var("range")), expr(call("r", vec![num(1.0)]))]),
        "Native function 'range' expects 18446744073709551615 arguments, got 1"
    );
}

#[test]
fn builtin_functions() {
    assert_eq!(shown(vec![], call("num", vec![text("2.5")])), "2.5");
    assert_eq!(shown(vec![], call("int", vec![text("7.9")])), "7");
    assert_eq!(shown(vec![], call("float", vec![boolean(true)])), "1");
    assert_eq!(shown(vec![], call("abs", vec![num(-3.0)])), "3");
    assert_eq!(shown(vec![], call("sqrt", vec![num(16.0)])), "4");
    assert_eq!(shown(vec![], call("floor", vec![num(2.7)])), "2");
    assert_eq!(shown(vec![], call("ceil", vec![num(2.1)])), "3");
    assert_eq!(shown(vec![], call("round", vec![num(2.5)])), "3");
    assert_eq!(shown(vec![], call("min", vec![num(2.0), num(9.0)])), "2");
    assert_eq!(shown(vec![], call("max", vec![num(2.0), num(9.0)])), "9");
    assert_eq!(shown(vec![], call("pow", vec![num(2.0), num(10.0)])), "1024");
    assert_eq!(shown(vec![], call("str", vec![list(vec![text("x")])])), "[\"x\"]");
    assert_eq!(shown(vec![], call("len", vec![text("héllo")])), "6");
    assert_eq!(
        error_of(vec![expr(call("num", vec![text("abc")]))]),
        "Cannot convert 'abc' to number"
    );
    assert_eq!(error_of(vec![expr(call("int", vec![Expr::NullLiteral]))]), "Cannot convert null to int");
    assert_eq!(
        error_of(vec![expr(call("sqrt", vec![text("x")]))]),
        "sqrt() expects a number, got string"
    );
    assert_eq!(error_of(vec![expr(call("pow", vec![num(1.0), text("x")]))]), "pow() expects two numbers");
    assert_eq!(error_of(vec![expr(call("push", vec![num(1.0), num(2.0)]))]), "push() expects a list, got number");
}

#[test]
fn input_reads_lines_in_order() {
    let lines = ["first", "second"];
    let reader = |req: Request| match req {
        Request::Input(prompt, k) => {
            assert_eq!(prompt, "? ");
            Reply::Text(lines[k as usize].to_string())
        }
        other => host(other),
    };
    let mut interp = Interpreter::new_with_buffer();
    let program = Program {
        statements: vec![
            print(call("input", vec![text("? ")])),
            print(call("input", vec![text("? ")])),
        ],
    };
    assert!(interp.exec_program(&program, &reader).is_ok());
    assert_eq!(interp.get_output(), vec!["first", "second"]);
}

// ── range ──

#[test]
fn range_forms() {
    assert_eq!(shown(vec![], call("range", vec![num(3.0)])), "[0, 1, 2]");
    assert_eq!(shown(vec![], call("range", vec![num(1.0), num(7.0), num(2.0)])), "[1, 3, 5]");
    assert_eq!(shown(vec![], call("range", vec![num(5.0), num(0.0), num(-2.0)])), "[5, 3, 1]");
    assert_eq!(shown(vec![], call("range", vec![num(3.0), num(1.0)])), "[]");
    assert_eq!(
        error_of(vec![expr(call("range", vec![num(1.0), num(2.0), num(0.0)]))]),
        "range() step cannot be zero"
    );
    assert_eq!(error_of(vec![expr(call("range", vec![text("a")]))]), "range() expects numbers");
    assert_eq!(error_of(vec![expr(call("range", vec![]))]), "range() expects 1–3 arguments");
    let r = range_op(&vec![number(2.0)], 100, &host).unwrap();
    assert_eq!(format!("{:?}", r), format!("{:?}", Value::List(vec![number(0.0), number(1.0)])));
    assert_eq!(range_op(&vec![number(5.0)], 2, &host).unwrap_err(), "Evaluation nested too deeply");
}

// ── Statements ──

#[test]
fn break_continue_and_return() {
    let out = run(vec![
        set("i", num(0.0)),
        while_loop(
            boolean(true),
            vec![
                set("i", add(var("i"), num(1.0))),
                if_then(bin(var("i"), BinaryOperator::Equal, num(2.0)), vec![Statement::Continue]),
                if_then(bin(var("i"), BinaryOperator::GreaterThan, num(4.0)), vec![Statement::Break]),
                print(var("i")),
            ],
        ),
        for_in(
            "x",
            list(vec![num(10.0), num(20.0), num(30.0)]),
            vec![if_then(bin(var("x"), BinaryOperator::Equal, num(20.0)), vec![Statement::Break]), print(var("x"))],
        ),
    ]);
    assert_eq!(out, vec!["1", "3", "4", "10"]);
    let out = shown(
        vec![def(
            "first_big",
            &["xs"],
            vec![
                for_in(
                    "x",
                    var("xs"),
                    vec![if_then(bin(var("x"), BinaryOperator::GreaterThan, num(5.0)), vec![ret(var("x"))])],
                ),
                ret(Expr::NullLiteral),
            ],
        )],
        call("first_big", vec![list(vec![num(1.0), num(7.0), num(9.0)])]),
    );
    assert_eq!(out, "7");
}

#[test]
fn compound_assignment() {
    let c = |name: &str, op: CompoundOp, e: Expr| Statement::CompoundAssignment {
        name: name.to_string(),
        op,
        value: e,
    };
    let out = run(vec![
        set("x", num(10.0)),
        c("x", CompoundOp::Add, num(5.0)),
        c("x", CompoundOp::Subtract, num(3.0)),
        c("x", CompoundOp::Multiply, num(2.0)),
        c("x", CompoundOp::Divide, num(8.0)),
        print(var("x")),
        set("s", text("ab")),
        c("s", CompoundOp::Add, num(1.0)),
        print(var("s")),
    ]);
    assert_eq!(out, vec!["3", "ab1"]);
    assert_eq!(
        error_of(vec![c("nope", CompoundOp::Add, num(1.0))]),
        "Undefined variable: 'nope'"
    );
    assert_eq!(
        error_of(vec![set("x", num(1.0)), c("x", CompoundOp::Divide, num(0.0))]),
        "Division by zero"
    );
    assert_eq!(
        error_of(vec![set("x", num(1.0)), c("x", CompoundOp::Subtract, text("a"))]),
        "Cannot -= string from number"
    );
    assert_eq!(
        error_of(vec![set("s", text("a")), c("s", CompoundOp::Multiply, num(2.0))]),
        "Cannot apply Multiply to string"
    );
}

#[test]
fn throw_and_catch() {
    let out = run(vec![
        Statement::TryCatch {
            try_body: vec![print(text("before")), Statement::Throw { value: text("boom") }, print(text("never"))],
            catch_var: "e".to_string(),
            catch_body: vec![print(add(text("caught "), var("e")))],
        },
        print(text("after")),
    ]);
    assert_eq!(out, vec!["before", "caught boom", "after"]);
    assert_eq!(
        error_of(vec![Statement::Throw { value: list(vec![num(1.0)]) }]),
        "Uncaught exception: [1]"
    );
    assert_eq!(error_of(vec![for_in("x", num(3.0), vec![])]), "Cannot iterate over number");
}

#[test]
fn import_is_acknowledged() {
    let out = run(vec![Statement::Import { module: "math".to_string() }]);
    assert_eq!(out, vec!["[import: math]"]);
}

// ── Classes ──

#[test]
fn classes_and_methods() {
    let class = Statement::ClassDef {
        name: "Counter".to_string(),
        methods: vec![
            def("__init__", &["self", "start"], vec![ret(bin(var("start"), BinaryOperator::Multiply, num(2.0)))]),
            def("one", &["self"], vec![ret(call("two", vec![var("self")]))]),
            def("two", &["self"], vec![ret(num(2.0))]),
        ],
    };
    let plain = Statement::ClassDef {
        name: "Plain".to_string(),
        methods: vec![def("hello", &["self", "who"], vec![ret(add(text("hi "), var("who")))])],
    };
    let newc = |name: &str, args: Vec<Expr>| Expr::New { class_name: name.to_string(), args };
    let out = run(vec![
        class,
        plain,
        print(newc("Counter", vec![num(5.0)])),
        set("p", newc("Plain", vec![])),
        print(var("p")),
        print(method(var("p"), "hello", vec![text("bob")])),
        print(var("Plain")),
    ]);
    assert_eq!(out, vec!["10", "<Plain instance>", "hi bob", "<class Plain>"]);
    assert_eq!(error_of(vec![expr(newc("Nope", vec![]))]), "Undefined class: 'Nope'");
    assert_eq!(
        error_of(vec![set("x", num(1.0)), expr(newc("x", vec![]))]),
        "'number' is not a class"
    );
}

// ── Methods of lists, strings and dictionaries ──

#[test]
fn list_methods() {
    let xs = || list(vec![num(1.0), num(2.0), num(3.0)]);
    assert_eq!(shown(vec![], method(xs(), "append", vec![num(4.0)])), "[1, 2, 3, 4]");
    assert_eq!(shown(vec![], method(xs(), "pop", vec![])), "[1, 2]");
    assert_eq!(shown(vec![], method(xs(), "len", vec![])), "3");
    assert_eq!(shown(vec![], method(xs(), "contains", vec![num(2.0)])), "true");
    assert_eq!(shown(vec![], method(xs(), "reverse", vec![])), "[3, 2, 1]");
    assert_eq!(shown(vec![], method(xs(), "join", vec![text("-")])), "1-2-3");
    assert_eq!(shown(vec![], method(xs(), "first", vec![])), "1");
    assert_eq!(shown(vec![], method(xs(), "last", vec![])), "3");
    assert_eq!(error_of(vec![expr(method(list(vec![]), "pop", vec![]))]), "pop() on empty list");
    assert_eq!(error_of(vec![expr(method(xs(), "zip", vec![]))]), "List has no method 'zip'");
}

#[test]
fn string_methods() {
    let s = || text("  Hello World  ");
    assert_eq!(shown(vec![], method(s(), "upper", vec![])), "  HELLO WORLD  ");
    assert_eq!(shown(vec![], method(s(), "lower", vec![])), "  hello world  ");
    assert_eq!(shown(vec![], method(s(), "trim", vec![])), "Hello World");
    assert_eq!(shown(vec![], method(text("a,b,,c"), "split", vec![text(",")])), "[\"a\", \"b\", \"\", \"c\"]");
    assert_eq!(shown(vec![], method(text("a b"), "split", vec![])), "[\"a\", \"b\"]");
    assert_eq!(shown(vec![], method(text("banana"), "replace", vec![text("an"), text("AN")])), "bANANa");
    assert_eq!(shown(vec![], method(text("banana"), "contains", vec![text("nan")])), "true");
    assert_eq!(shown(vec![], method(text("banana"), "starts_with", vec![text("ba")])), "true");
    assert_eq!(shown(vec![], method(text("banana"), "ends_with", vec![text("x")])), "false");
    assert_eq!(shown(vec![], method(text("abc"), "reverse", vec![])), "cba");
    assert_eq!(shown(vec![], method(text("abc"), "char_at", vec![num(1.0)])), "b");
    assert_eq!(shown(vec![], method(text("abcdef"), "substring", vec![num(1.0), num(4.0)])), "bcd");
    assert_eq!(shown(vec![], method(text("abc"), "substring", vec![num(2.0), num(9.0)])), "");
    assert_eq!(shown(vec![], method(text("12.5"), "to_num", vec![])), "12.5");
    assert_eq!(shown(vec![], method(text("héllo"), "length", vec![])), "6");
    assert_eq!(error_of(vec![expr(method(text("abc"), "char_at", vec![num(5.0)]))]), "char_at(5) out of bounds");
    assert_eq!(error_of(vec![expr(method(text("x"), "to_num", vec![]))]), "Cannot parse 'x' as number");
    assert_eq!(error_of(vec![expr(method(text("x"), "shout", vec![]))]), "String has no method 'shout'");
    let r = call_prim_method(string("MiXeD"), "lower", vec![], &host).unwrap();
    assert!(r.equals(&string("mixed")));
}

#[test]
fn dict_methods() {
    let d = || dict(vec![(text("a"), num(1.0)), (text("b"), text("x"))]);
    assert_eq!(shown(vec![], method(d(), "keys", vec![])), "[\"a\", \"b\"]");
    assert_eq!(shown(vec![], method(d(), "values", vec![])), "[1, \"x\"]");
    assert_eq!(shown(vec![], method(d(), "items", vec![])), "[[\"a\", 1], [\"b\", \"x\"]]");
    assert_eq!(shown(vec![], method(d(), "has_key", vec![text("b")])), "true");
    assert_eq!(shown(vec![], method(d(), "len", vec![])), "2");
    assert_eq!(error_of(vec![expr(method(d(), "pop", vec![]))]), "Dict has no method 'pop'");
    assert_eq!(
        error_of(vec![expr(method(num(1.0), "len", vec![]))]),
        "number does not support method calls"
    );
}

// ── Values ──

#[test]
fn value_predicates() {
    assert!(!Value::Null.is_truthy());
    assert!(!number(0.0).is_truthy());
    assert!(!number(-0.0).is_truthy());
    assert!(number(0.1).is_truthy());
    assert!(!string("").is_truthy());
    assert!(Value::List(vec![Value::Null]).is_truthy());
    assert_eq!(Value::Dict(vec![]).type_label(), "dict");
    let f = Value::NativeFunction { name: "len".to_string(), arity: 1, builtin: Builtin::Len };
    assert_eq!(f.type_label(), "native_function");
    assert!(number(0.0).equals(&number(-0.0)));
    assert!(!number(f64::NAN).equals(&number(f64::NAN)));
    assert!(!Value::List(vec![]).equals(&Value::List(vec![])));
    let v = Value::Dict(vec![("k".to_string(), Value::List(vec![string("s")]))]);
    assert_eq!(format!("{:?}", v.duplicate()), format!("{:?}", v));
}

#[test]
fn evaluation_budget_runs_out() {
    let mut interp = Interpreter::new_with_buffer();
    let deep = add(add(num(1.0), num(2.0)), num(3.0));
    let r = interp.eval(&deep, 2, &host);
    assert_eq!(r.unwrap_err(), "Evaluation nested too deeply");
    let r = interp.eval(&deep, 3, &host).unwrap();
    assert!(r.equals(&number(6.0)));
}

// ── Lexical scoping ──

// def g() { print y } / def f() { y = 1 / g() } / f()
#[test]
fn called_function_does_not_see_callers_locals() {
    let mut interp = Interpreter::new_with_buffer();
    let program = Program {
        statements: vec![
            def("g", &[], vec![print(var("y"))]),
            def("f", &[], vec![set("y", num(1.0)), expr(call("g", vec![]))]),
            expr(call("f", vec![])),
        ],
    };
    let err = interp.exec_program(&program, &host).unwrap_err();
    assert_eq!(err.message, "Undefined variable: 'y'");
    assert!(interp.get_output().is_empty());
    assert_eq!(interp.env.depth(), 1);
}

// x = 1 / def f() { x = 2 } / f() / print x
#[test]
fn assignment_in_function_changes_global() {
    let out = run(vec![
        set("x", num(1.0)),
        def("f", &[], vec![set("x", num(2.0))]),
        expr(call("f", vec![])),
        print(var("x")),
    ]);
    assert_eq!(out, vec!["2"]);
}

#[test]
fn function_locals_vanish_after_the_call() {
    let out = run(vec![
        def("f", &["a"], vec![set("local", var("a")), ret(var("local"))]),
        print(call("f", vec![num(4.0)])),
        print(call("type", vec![call("f", vec![num(5.0)])])),
    ]);
    assert_eq!(out, vec!["4", "number"]);
    assert_eq!(
        error_of(vec![
            def("f", &["a"], vec![set("local", var("a"))]),
            expr(call("f", vec![num(4.0)])),
            print(var("local")),
        ]),
        "Undefined variable: 'local'"
    );
}

#[test]
fn bindings_persist_between_runs() {
    let mut interp = Interpreter::new_with_buffer();
    let first = Program { statements: vec![set("kept", text("yes"))] };
    let second = Program { statements: vec![print(var("kept"))] };
    assert!(interp.exec_program(&first, &host).is_ok());
    assert!(interp.exec_program(&second, &host).is_ok());
    assert_eq!(interp.get_output(), vec!["yes"]);
}

#[test]
fn caller_scopes_come_back_after_an_error_in_a_call() {
    let mut interp = Interpreter::new_with_buffer();
    let program = Program {
        statements: vec![
            def("bad", &[], vec![print(var("missing"))]),
            expr(call("bad", vec![])),
        ],
    };
    assert!(interp.exec_program(&program, &host).is_err());
    assert_eq!(interp.env.depth(), 1);
}

// ── The interactive loop's decisions ──

#[test]
fn repl_steps() {
    assert!(matches!(repl_step("   \n"), ReplStep::Skip));
    assert!(matches!(repl_step(""), ReplStep::Skip));
    assert!(matches!(repl_step("exit\n"), ReplStep::Quit));
    assert!(matches!(repl_step("  quit  "), ReplStep::Quit));
    match repl_step("  print 1 \r\n") {
        ReplStep::Run(s) => assert_eq!(s, "print 1"),
        other => panic!("unexpected {:?}", other),
    }
    match repl_step("exit now") {
        ReplStep::Run(s) => assert_eq!(s, "exit now"),
        other => panic!("unexpected {:?}", other),
    }
}

// def outer() { x = 1 / def inner() { print x } / inner() } / outer()
#[test]
fn nested_function_sees_enclosing_locals() {
    let out = run(vec![
        def(
            "outer",
            &[],
            vec![
                set("x", num(1.0)),
                def("inner", &[], vec![print(var("x"))]),
                expr(call("inner", vec![])),
            ],
        ),
        expr(call("outer", vec![])),
    ]);
    assert_eq!(out, vec!["1"]);
}

// A nested function assigns its enclosing function's local, and is seen
// through a sibling that calls it.
#[test]
fn nested_function_changes_enclosing_local() {
    let out = run(vec![
        def(
            "outer",
            &[],
            vec![
                set("x", num(1.0)),
                def("bump", &[], vec![set("x", add(var("x"), num(1.0)))]),
                def("twice", &[], vec![expr(call("bump", vec![])), expr(call("bump", vec![]))]),
                expr(call("twice", vec![])),
                print(var("x")),
            ],
        ),
        expr(call("outer", vec![])),
    ]);
    assert_eq!(out, vec!["3"]);
}
