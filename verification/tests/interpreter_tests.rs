use kelpyshark_interpreter::ast::{
    BinaryOperator, Expr, Program, Statement, StringPart, UnaryOperator,
};
use kelpyshark_interpreter::host::{ArithOp, CompareOp, MathOp, Reply, Request};
use kelpyshark_interpreter::interpreter::{Interpreter, RuntimeError};
use std::rc::Rc;

/// A host computing with `f64`, printing numbers as the language does.
fn host(req: Request) -> Reply {
    match req {
        Request::Arith(op, a, b) => {
            let (x, y) = (f64::from_bits(a), f64::from_bits(b));
            let r = match op {
                ArithOp::Add => x + y,
                ArithOp::Subtract => x - y,
                ArithOp::Multiply => x * y,
                ArithOp::Divide => x / y,
                ArithOp::Remainder => x % y,
                ArithOp::Min => x.min(y),
                ArithOp::Max => x.max(y),
                ArithOp::Power => x.powf(y),
            };
            Reply::Number(r.to_bits())
        }
        Request::Compare(op, a, b) => {
            let (x, y) = (f64::from_bits(a), f64::from_bits(b));
            Reply::Flag(match op {
                CompareOp::Less => x < y,
                CompareOp::LessEqual => x <= y,
                CompareOp::Greater => x > y,
                CompareOp::GreaterEqual => x >= y,
            })
        }
        Request::Math(op, a) => {
            let x = f64::from_bits(a);
            let r = match op {
                MathOp::Negate => -x,
                MathOp::Abs => x.abs(),
                MathOp::Sqrt => x.sqrt(),
                MathOp::Floor => x.floor(),
                MathOp::Ceil => x.ceil(),
                MathOp::Round => x.round(),
                MathOp::Truncate => x.trunc(),
            };
            Reply::Number(r.to_bits())
        }
        Request::FromCount(n) => Reply::Number((n as f64).to_bits()),
        Request::ToIndex(n) => Reply::Index(f64::from_bits(n) as usize),
        Request::Format(n) => {
            let x = f64::from_bits(n);
            if x == (x as i64) as f64 {
                Reply::Text(format!("{}", x as i64))
            } else {
                Reply::Text(format!("{}", x))
            }
        }
        Request::FormatWhole(n) => Reply::Text(format!("{}", f64::from_bits(n) as i64)),
        Request::Parse(s) => Reply::Parsed(s.parse::<f64>().ok().map(|x| x.to_bits())),
        Request::Input(_, _) => Reply::Text(String::new()),
        Request::Print(line) => {
            println!("{}", line);
            Reply::Done
        }
    }
}

fn num(x: f64) -> Expr {
    Expr::NumberLiteral { value: x.to_bits() }
}

fn text(s: &str) -> Expr {
    Expr::StringLiteral { value: s.to_string() }
}

fn boolean(b: bool) -> Expr {
    Expr::BooleanLiteral { value: b }
}

fn var(name: &str) -> Expr {
    Expr::Identifier { name: name.to_string() }
}

fn bin(left: Expr, op: BinaryOperator, right: Expr) -> Expr {
    Expr::BinaryOp { left: Box::new(left), op, right: Box::new(right) }
}

fn add(left: Expr, right: Expr) -> Expr {
    bin(left, BinaryOperator::Add, right)
}

fn not(e: Expr) -> Expr {
    Expr::UnaryOp { op: UnaryOperator::Not, operand: Box::new(e) }
}

fn call(name: &str, args: Vec<Expr>) -> Expr {
    Expr::FunctionCall { callee: Box::new(var(name)), args }
}

fn index(object: Expr, idx: Expr) -> Expr {
    Expr::Index { object: Box::new(object), index: Box::new(idx) }
}

fn list(elements: Vec<Expr>) -> Expr {
    Expr::ListLiteral { elements }
}

fn dict(entries: Vec<(Expr, Expr)>) -> Expr {
    Expr::DictLiteral { entries }
}

fn interpolate(parts: Vec<StringPart>) -> Expr {
    Expr::StringInterpolation { parts }
}

fn lit(s: &str) -> StringPart {
    StringPart::Literal(s.to_string())
}

fn part(e: Expr) -> StringPart {
    StringPart::Expression(e)
}

fn print(e: Expr) -> Statement {
    Statement::Print { value: e }
}

fn set(name: &str, e: Expr) -> Statement {
    Statement::Assignment { name: name.to_string(), value: e }
}

fn def(name: &str, params: &[&str], body: Vec<Statement>) -> Statement {
    Statement::FunctionDef {
        name: name.to_string(),
        params: params.iter().map(|p| p.to_string()).collect(),
        body: Rc::new(body),
    }
}

fn ret(e: Expr) -> Statement {
    Statement::Return { value: Some(e) }
}

fn if_then(condition: Expr, then_body: Vec<Statement>) -> Statement {
    Statement::If { condition, then_body, else_body: None }
}

fn if_else(condition: Expr, then_body: Vec<Statement>, else_body: Vec<Statement>) -> Statement {
    Statement::If { condition, then_body, else_body: Some(else_body) }
}

fn while_loop(condition: Expr, body: Vec<Statement>) -> Statement {
    Statement::While { condition, body }
}

fn for_in(variable: &str, iterable: Expr, body: Vec<Statement>) -> Statement {
    Statement::For { variable: variable.to_string(), iterable, body }
}

fn expr(e: Expr) -> Statement {
    Statement::ExprStatement { expr: e }
}

fn run(statements: Vec<Statement>) -> Vec<String> {
    let mut interp = Interpreter::new_with_buffer();
    interp
        .exec_program(&Program { statements }, &host)
        .expect("Should execute without error");
    interp.get_output()
}

fn run_err(statements: Vec<Statement>) -> RuntimeError {
    let mut interp = Interpreter::new_with_buffer();
    interp.exec_program(&Program { statements }, &host).expect_err("Should produce an error")
}

// print "Hello, KelpyShark!"
#[test]
fn test_print_string() {
    let output = run(vec![print(text("Hello, KelpyShark!"))]);
    assert_eq!(output, vec!["Hello, KelpyShark!"]);
}

// print 42
#[test]
fn interpreter_test_print_number() {
    let output = run(vec![print(num(42.0))]);
    assert_eq!(output, vec!["42"]);
}

// x = 10 / print x
#[test]
fn interpreter_test_variable_assignment() {
    let output = run(vec![set("x", num(10.0)), print(var("x"))]);
    assert_eq!(output, vec!["10"]);
}

// print 2 + 3 * 4
#[test]
fn test_arithmetic() {
    let output = run(vec![print(add(
        num(2.0),
        bin(num(3.0), BinaryOperator::Multiply, num(4.0)),
    ))]);
    assert_eq!(output, vec!["14"]);
}

// print "hello" + " " + "world"
#[test]
fn interpreter_test_string_concatenation() {
    let output = run(vec![print(add(add(text("hello"), text(" ")), text("world")))]);
    assert_eq!(output, vec!["hello world"]);
}

// def greet(name) { print "Hello, " + name + "!" } / greet("KelpyShark")
#[test]
fn interpreter_test_function_def_and_call() {
    let output = run(vec![
        def("greet", &["name"], vec![print(add(add(text("Hello, "), var("name")), text("!")))]),
        expr(call("greet", vec![text("KelpyShark")])),
    ]);
    assert_eq!(output, vec!["Hello, KelpyShark!"]);
}

// def add(a, b) { return a + b } / result = add(3, 7) / print result
#[test]
fn test_function_return() {
    let output = run(vec![
        def("add", &["a", "b"], vec![ret(add(var("a"), var("b")))]),
        set("result", call("add", vec![num(3.0), num(7.0)])),
        print(var("result")),
    ]);
    assert_eq!(output, vec!["10"]);
}

// x = 10 / if x >= 5 { print "big" }
#[test]
fn test_if_true() {
    let output = run(vec![
        set("x", num(10.0)),
        if_then(bin(var("x"), BinaryOperator::GreaterEqual, num(5.0)), vec![print(text("big"))]),
    ]);
    assert_eq!(output, vec!["big"]);
}

// x = 2 / if x >= 5 { print "big" }
#[test]
fn test_if_false() {
    let output = run(vec![
        set("x", num(2.0)),
        if_then(bin(var("x"), BinaryOperator::GreaterEqual, num(5.0)), vec![print(text("big"))]),
    ]);
    assert!(output.is_empty());
}

// x = 2 / if x >= 5 { print "big" } else { print "small" }
#[test]
fn test_if_else() {
    let output = run(vec![
        set("x", num(2.0)),
        if_else(
            bin(var("x"), BinaryOperator::GreaterEqual, num(5.0)),
            vec![print(text("big"))],
            vec![print(text("small"))],
        ),
    ]);
    assert_eq!(output, vec!["small"]);
}

// x = 0 / while x < 3 { print x / x = x + 1 }
#[test]
fn interpreter_test_while_loop() {
    let output = run(vec![
        set("x", num(0.0)),
        while_loop(
            bin(var("x"), BinaryOperator::LessThan, num(3.0)),
            vec![print(var("x")), set("x", add(var("x"), num(1.0)))],
        ),
    ]);
    assert_eq!(output, vec!["0", "1", "2"]);
}

// items = ["apple", "banana", "cherry"] / for item in items { print item }
#[test]
fn interpreter_test_for_loop() {
    let output = run(vec![
        set("items", list(vec![text("apple"), text("banana"), text("cherry")])),
        for_in("item", var("items"), vec![print(var("item"))]),
    ]);
    assert_eq!(output, vec!["apple", "banana", "cherry"]);
}

// x = [1, 2, 3] / print x
#[test]
fn test_list_literal() {
    let output = run(vec![
        set("x", list(vec![num(1.0), num(2.0), num(3.0)])),
        print(var("x")),
    ]);
    assert_eq!(output, vec!["[1, 2, 3]"]);
}

// x = ["a", "b", "c"] / print x[1]
#[test]
fn test_list_index() {
    let output = run(vec![
        set("x", list(vec![text("a"), text("b"), text("c")])),
        print(index(var("x"), num(1.0))),
    ]);
    assert_eq!(output, vec!["b"]);
}

// x = {"name": "Bob"} / print x["name"]
#[test]
fn test_dict_literal() {
    let output = run(vec![
        set("x", dict(vec![(text("name"), text("Bob"))])),
        print(index(var("x"), text("name"))),
    ]);
    assert_eq!(output, vec!["Bob"]);
}

// name = "world" / print "Hello {$name}!"
#[test]
fn interpreter_test_string_interpolation() {
    let output = run(vec![
        set("name", text("world")),
        print(interpolate(vec![lit("Hello "), part(var("name")), lit("!")])),
    ]);
    assert_eq!(output, vec!["Hello world!"]);
}

// def double(x) { return x * 2 } / def add_one(x) { return x + 1 } / print add_one(double(5))
#[test]
fn test_nested_function_calls() {
    let output = run(vec![
        def("double", &["x"], vec![ret(bin(var("x"), BinaryOperator::Multiply, num(2.0)))]),
        def("add_one", &["x"], vec![ret(add(var("x"), num(1.0)))]),
        print(call("add_one", vec![call("double", vec![num(5.0)])])),
    ]);
    assert_eq!(output, vec!["11"]);
}

// x = [1, 2, 3, 4, 5] / print len(x)
#[test]
fn test_builtin_len() {
    let output = run(vec![
        set("x", list(vec![num(1.0), num(2.0), num(3.0), num(4.0), num(5.0)])),
        print(call("len", vec![var("x")])),
    ]);
    assert_eq!(output, vec!["5"]);
}

// print type(42)
#[test]
fn test_builtin_type() {
    let output = run(vec![print(call("type", vec![num(42.0)]))]);
    assert_eq!(output, vec!["number"]);
}

// print true and false
#[test]
fn test_boolean_logic() {
    let output = run(vec![print(bin(boolean(true), BinaryOperator::And, boolean(false)))]);
    assert_eq!(output, vec!["false"]);
}

// print not false
#[test]
fn interpreter_test_not_operator() {
    let output = run(vec![print(not(boolean(false)))]);
    assert_eq!(output, vec!["true"]);
}

// print 5 == 5
#[test]
fn test_comparison() {
    let output = run(vec![print(bin(num(5.0), BinaryOperator::Equal, num(5.0)))]);
    assert_eq!(output, vec!["true"]);
}

// print 10 / 0
#[test]
fn test_division_by_zero() {
    let err = run_err(vec![print(bin(num(10.0), BinaryOperator::Divide, num(0.0)))]);
    assert!(err.message.contains("Division by zero"));
}

// print xyz
#[test]
fn interpreter_test_undefined_variable() {
    let err = run_err(vec![print(var("xyz"))]);
    assert!(err.message.contains("Undefined variable"));
}

// def foo(a, b) { return a + b } / foo(1)
#[test]
fn test_wrong_arity() {
    let err = run_err(vec![
        def("foo", &["a", "b"], vec![ret(add(var("a"), var("b")))]),
        expr(call("foo", vec![num(1.0)])),
    ]);
    assert!(err.message.contains("expects 2 arguments"));
}

#[test]
fn test_full_example_from_spec() {
    let output = run(vec![
        set(
            "bob",
            dict(vec![(text("age"), text("27 years")), (text("name"), text("Bob Smith"))]),
        ),
        set("example_list", list(vec![text("apple"), text("banana"), text("orange")])),
        def(
            "example_function",
            &["value", "thing"],
            vec![
                print(interpolate(vec![
                    lit("You have "),
                    part(var("value")),
                    lit(" "),
                    part(var("thing")),
                    lit("s!"),
                ])),
                if_then(
                    bin(var("value"), BinaryOperator::GreaterEqual, num(25.0)),
                    vec![print(add(
                        add(add(text("You lost. You have "), var("value")), text(" of ")),
                        var("thing"),
                    ))],
                ),
            ],
        ),
        expr(call("example_function", vec![num(30.0), text("point")])),
    ]);
    assert_eq!(output.len(), 2);
    assert_eq!(output[0], "You have 30 points!");
    assert_eq!(output[1], "You lost. You have 30 of point");
}

// ── End-to-end programs ──

// print "Hello, World!"
#[test]
fn test_hello_world() {
    let output = run(vec![print(text("Hello, World!"))]);
    assert_eq!(output, vec!["Hello, World!"]);
}

// print 42
#[test]
fn integration_tests_test_print_number() {
    let output = run(vec![print(num(42.0))]);
    assert_eq!(output, vec!["42"]);
}

// print 3.14
#[test]
fn test_print_float() {
    let output = run(vec![print(num(3.14))]);
    assert_eq!(output, vec!["3.14"]);
}

// print true / print false
#[test]
fn test_print_boolean() {
    let output = run(vec![print(boolean(true)), print(boolean(false))]);
    assert_eq!(output, vec!["true", "false"]);
}

// x = 10 / print x
#[test]
fn integration_tests_test_variable_assignment() {
    let output = run(vec![set("x", num(10.0)), print(var("x"))]);
    assert_eq!(output, vec!["10"]);
}

#[test]
fn test_arithmetic_operations() {
    let output = run(vec![
        print(add(num(2.0), num(3.0))),
        print(bin(num(10.0), BinaryOperator::Subtract, num(4.0))),
        print(bin(num(3.0), BinaryOperator::Multiply, num(7.0))),
        print(bin(num(20.0), BinaryOperator::Divide, num(4.0))),
        print(bin(num(17.0), BinaryOperator::Modulo, num(5.0))),
    ]);
    assert_eq!(output, vec!["5", "6", "21", "5", "2"]);
}

#[test]
fn integration_tests_test_string_concatenation() {
    let output = run(vec![
        set("a", text("Hello")),
        set("b", text(" World")),
        print(add(var("a"), var("b"))),
    ]);
    assert_eq!(output, vec!["Hello World"]);
}

#[test]
fn integration_tests_test_string_interpolation() {
    let output = run(vec![
        set("name", text("Kelpy")),
        print(interpolate(vec![lit("Hi "), part(var("name")), lit("!")])),
    ]);
    assert_eq!(output, vec!["Hi Kelpy!"]);
}

#[test]
fn test_if_true_branch() {
    let output = run(vec![if_else(
        boolean(true),
        vec![print(text("yes"))],
        vec![print(text("no"))],
    )]);
    assert_eq!(output, vec!["yes"]);
}

#[test]
fn test_if_false_branch() {
    let output = run(vec![if_else(
        boolean(false),
        vec![print(text("yes"))],
        vec![print(text("no"))],
    )]);
    assert_eq!(output, vec!["no"]);
}

#[test]
fn integration_tests_test_while_loop() {
    let output = run(vec![
        set("x", num(0.0)),
        while_loop(
            bin(var("x"), BinaryOperator::LessThan, num(5.0)),
            vec![print(var("x")), set("x", add(var("x"), num(1.0)))],
        ),
    ]);
    assert_eq!(output, vec!["0", "1", "2", "3", "4"]);
}

#[test]
fn integration_tests_test_for_loop() {
    let output = run(vec![
        set("items", list(vec![text("a"), text("b"), text("c")])),
        for_in("item", var("items"), vec![print(var("item"))]),
    ]);
    assert_eq!(output, vec!["a", "b", "c"]);
}

#[test]
fn integration_tests_test_function_def_and_call() {
    let output = run(vec![
        def(
            "greet",
            &["name"],
            vec![print(interpolate(vec![lit("Hello, "), part(var("name")), lit("!")]))],
        ),
        expr(call("greet", vec![text("World")])),
    ]);
    assert_eq!(output, vec!["Hello, World!"]);
}

#[test]
fn test_function_return_value() {
    let output = run(vec![
        def("add", &["a", "b"], vec![ret(add(var("a"), var("b")))]),
        set("result", call("add", vec![num(3.0), num(4.0)])),
        print(var("result")),
    ]);
    assert_eq!(output, vec!["7"]);
}

#[test]
fn test_recursive_function() {
    let output = run(vec![
        def(
            "factorial",
            &["n"],
            vec![
                if_then(bin(var("n"), BinaryOperator::LessEqual, num(1.0)), vec![ret(num(1.0))]),
                ret(bin(
                    var("n"),
                    BinaryOperator::Multiply,
                    call("factorial", vec![bin(var("n"), BinaryOperator::Subtract, num(1.0))]),
                )),
            ],
        ),
        print(call("factorial", vec![num(5.0)])),
    ]);
    assert_eq!(output, vec!["120"]);
}

#[test]
fn test_list_creation_and_access() {
    let output = run(vec![
        set("items", list(vec![num(10.0), num(20.0), num(30.0)])),
        print(index(var("items"), num(0.0))),
        print(index(var("items"), num(2.0))),
    ]);
    assert_eq!(output, vec!["10", "30"]);
}

#[test]
fn test_dict_creation_and_access() {
    let output = run(vec![
        set("person", dict(vec![(text("name"), text("Bob")), (text("age"), num(25.0))])),
        print(index(var("person"), text("name"))),
        print(index(var("person"), text("age"))),
    ]);
    assert_eq!(output, vec!["Bob", "25"]);
}

#[test]
fn test_list_length() {
    let output = run(vec![
        set("items", list(vec![num(1.0), num(2.0), num(3.0), num(4.0), num(5.0)])),
        print(call("len", vec![var("items")])),
    ]);
    assert_eq!(output, vec!["5"]);
}

#[test]
fn test_len_string() {
    let output = run(vec![print(call("len", vec![text("hello")]))]);
    assert_eq!(output, vec!["5"]);
}

#[test]
fn test_type_function() {
    let output = run(vec![
        print(call("type", vec![num(42.0)])),
        print(call("type", vec![text("hello")])),
        print(call("type", vec![boolean(true)])),
        print(call("type", vec![list(vec![num(1.0), num(2.0)])])),
    ]);
    assert_eq!(output, vec!["number", "string", "boolean", "list"]);
}

#[test]
fn test_str_function() {
    let output = run(vec![
        set("x", call("str", vec![num(42.0)])),
        print(call("type", vec![var("x")])),
        print(var("x")),
    ]);
    assert_eq!(output, vec!["string", "42"]);
}

#[test]
fn test_push_function() {
    let output = run(vec![
        set("items", list(vec![num(1.0), num(2.0)])),
        set("items", call("push", vec![var("items"), num(3.0)])),
        print(call("len", vec![var("items")])),
        print(index(var("items"), num(2.0))),
    ]);
    assert_eq!(output, vec!["3", "3"]);
}

#[test]
fn test_and_operator() {
    let output = run(vec![
        print(bin(boolean(true), BinaryOperator::And, boolean(true))),
        print(bin(boolean(true), BinaryOperator::And, boolean(false))),
    ]);
    assert_eq!(output, vec!["true", "false"]);
}

#[test]
fn test_or_operator() {
    let output = run(vec![
        print(bin(boolean(false), BinaryOperator::Or, boolean(true))),
        print(bin(boolean(false), BinaryOperator::Or, boolean(false))),
    ]);
    assert_eq!(output, vec!["true", "false"]);
}

#[test]
fn integration_tests_test_not_operator() {
    let output = run(vec![print(not(boolean(true))), print(not(boolean(false)))]);
    assert_eq!(output, vec!["false", "true"]);
}

#[test]
fn test_comparison_operators() {
    let output = run(vec![
        print(bin(num(5.0), BinaryOperator::GreaterThan, num(3.0))),
        print(bin(num(5.0), BinaryOperator::LessThan, num(3.0))),
        print(bin(num(5.0), BinaryOperator::GreaterEqual, num(5.0))),
        print(bin(num(5.0), BinaryOperator::LessEqual, num(4.0))),
        print(bin(num(5.0), BinaryOperator::Equal, num(5.0))),
        print(bin(num(5.0), BinaryOperator::NotEqual, num(3.0))),
    ]);
    assert_eq!(output, vec!["true", "false", "true", "false", "true", "true"]);
}

#[test]
fn test_nested_if() {
    let output = run(vec![
        set("x", num(15.0)),
        if_else(
            bin(var("x"), BinaryOperator::GreaterThan, num(10.0)),
            vec![if_else(
                bin(var("x"), BinaryOperator::GreaterThan, num(20.0)),
                vec![print(text("very big"))],
                vec![print(text("medium"))],
            )],
            vec![print(text("small"))],
        ),
    ]);
    assert_eq!(output, vec!["medium"]);
}

#[test]
fn test_fizzbuzz() {
    let modulo_is_zero = |d: f64| {
        bin(bin(var("i"), BinaryOperator::Modulo, num(d)), BinaryOperator::Equal, num(0.0))
    };
    let output = run(vec![
        set("i", num(1.0)),
        while_loop(
            bin(var("i"), BinaryOperator::LessEqual, num(15.0)),
            vec![
                if_else(
                    modulo_is_zero(15.0),
                    vec![print(text("FizzBuzz"))],
                    vec![if_else(
                        modulo_is_zero(3.0),
                        vec![print(text("Fizz"))],
                        vec![if_else(
                            modulo_is_zero(5.0),
                            vec![print(text("Buzz"))],
                            vec![print(var("i"))],
                        )],
                    )],
                ),
                set("i", add(var("i"), num(1.0))),
            ],
        ),
    ]);
    assert_eq!(
        output,
        vec![
            "1", "2", "Fizz", "4", "Buzz", "Fizz", "7", "8", "Fizz", "Buzz", "11", "Fizz", "13",
            "14", "FizzBuzz"
        ]
    );
}

#[test]
fn test_fibonacci_sequence() {
    let output = run(vec![
        def(
            "fib",
            &["n"],
            vec![
                if_then(bin(var("n"), BinaryOperator::LessEqual, num(0.0)), vec![ret(num(0.0))]),
                if_then(bin(var("n"), BinaryOperator::Equal, num(1.0)), vec![ret(num(1.0))]),
                ret(add(
                    call("fib", vec![bin(var("n"), BinaryOperator::Subtract, num(1.0))]),
                    call("fib", vec![bin(var("n"), BinaryOperator::Subtract, num(2.0))]),
                )),
            ],
        ),
        set("i", num(0.0)),
        while_loop(
            bin(var("i"), BinaryOperator::LessThan, num(8.0)),
            vec![print(call("fib", vec![var("i")])), set("i", add(var("i"), num(1.0)))],
        ),
    ]);
    assert_eq!(output, vec!["0", "1", "1", "2", "3", "5", "8", "13"]);
}

#[test]
fn test_closure_like_scope() {
    let output = run(vec![
        set("x", text("outer")),
        def("show", &[], vec![print(var("x"))]),
        expr(call("show", vec![])),
    ]);
    assert_eq!(output, vec!["outer"]);
}

// The comments of the source leave only its two print statements.
#[test]
fn test_comments_ignored() {
    let output = run(vec![print(text("visible")), print(text("also visible"))]);
    assert_eq!(output, vec!["visible", "also visible"]);
}
