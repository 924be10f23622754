use dyon::ast::{
    Arg, Assign, AssignOp, BinOp, BinOpExpression, Block, Call, Compare, CompareOp, Expression,
    For, Function, Id, If, Item, UnOp, UnOpExpression,
};
use dyon::error::ErrorKind;
use dyon::host::{Host, Recorder, Unary};
use dyon::runtime::Runtime;
use dyon::value::Variable;

struct Script {
    output: String,
    input: Vec<String>,
    slept: Vec<f64>,
}

impl Script {
    fn new() -> Script {
        Script { output: String::new(), input: Vec::new(), slept: Vec::new() }
    }

    fn with_input(lines: &[&str]) -> Script {
        let mut input: Vec<String> = lines.iter().map(|l| l.to_string()).collect();
        input.reverse();
        Script { output: String::new(), input, slept: Vec::new() }
    }
}

impl Host for Script {
    fn arithmetic(&mut self, op: BinOp, left: u64, right: u64) -> u64 {
        let (a, b) = (f64::from_bits(left), f64::from_bits(right));
        let r = match op {
            BinOp::Add => a + b,
            BinOp::Sub => a - b,
            BinOp::Mul => a * b,
            BinOp::Div => a / b,
            BinOp::Rem => a % b,
            BinOp::Pow => a.powf(b),
        };
        r.to_bits()
    }

    fn unary(&mut self, f: Unary, x: u64) -> u64 {
        let a = f64::from_bits(x);
        let r = match f {
            Unary::Sqrt => a.sqrt(),
            Unary::Sin => a.sin(),
            Unary::Cos => a.cos(),
            Unary::Tan => a.tan(),
            Unary::Asin => a.asin(),
            Unary::Acos => a.acos(),
            Unary::Atan => a.atan(),
            Unary::Exp => a.exp(),
            Unary::Ln => a.ln(),
            Unary::Log2 => a.log2(),
            Unary::Log10 => a.log10(),
            Unary::Round => a.round(),
        };
        r.to_bits()
    }

    fn number_text(&mut self, x: u64) -> String {
        format!("{}", f64::from_bits(x))
    }

    fn parse_number(&mut self, text: &str) -> Option<u64> {
        text.parse::<f64>().ok().map(|v| v.to_bits())
    }

    fn write(&mut self, text: &str) {
        self.output.push_str(text);
    }

    fn read_line(&mut self) -> Result<String, String> {
        match self.input.pop() {
            Some(line) => Ok(line),
            None => Err("end of input".to_string()),
        }
    }

    fn sleep(&mut self, x: u64) {
        self.slept.push(f64::from_bits(x));
    }
}

fn num(x: f64) -> Expression {
    Expression::Number(x.to_bits())
}

fn text(t: &str) -> Expression {
    Expression::Text(t.to_string())
}

fn var(name: &str) -> Expression {
    Expression::Item(Item { name: name.to_string(), ids: vec![] })
}

fn path(name: &str, ids: Vec<Id>) -> Expression {
    Expression::Item(Item { name: name.to_string(), ids })
}

fn key(k: &str) -> Id {
    Id::Text(k.to_string())
}

fn index(i: f64) -> Id {
    Id::Number(i.to_bits())
}

fn assign(op: AssignOp, left: Expression, right: Expression) -> Expression {
    Expression::Assign(Box::new(Assign { op, left, right }))
}

fn declare(name: &str, right: Expression) -> Expression {
    assign(AssignOp::Declare, var(name), right)
}

fn store(left: Expression, right: Expression) -> Expression {
    assign(AssignOp::Store, left, right)
}

fn binop(op: BinOp, left: Expression, right: Expression) -> Expression {
    Expression::BinOp(Box::new(BinOpExpression { op, left, right }))
}

fn compare(op: CompareOp, left: Expression, right: Expression) -> Expression {
    Expression::Compare(Box::new(Compare { op, left, right }))
}

fn not(expr: Expression) -> Expression {
    Expression::UnOp(Box::new(UnOpExpression { op: UnOp::Neg, expr }))
}

fn call(name: &str, args: Vec<Expression>) -> Expression {
    Expression::Call(Call { name: name.to_string(), args })
}

fn println(arg: Expression) -> Expression {
    call("println", vec![arg])
}

fn block(expressions: Vec<Expression>) -> Block {
    Block { expressions }
}

fn if_then(cond: Expression, then: Vec<Expression>) -> Expression {
    Expression::If(Box::new(If { cond, true_block: block(then), else_block: None }))
}

fn if_else(cond: Expression, then: Vec<Expression>, otherwise: Vec<Expression>) -> Expression {
    Expression::If(Box::new(If {
        cond,
        true_block: block(then),
        else_block: Some(block(otherwise)),
    }))
}

fn for_loop(
    label: Option<&str>,
    init: Expression,
    cond: Expression,
    step: Expression,
    body: Vec<Expression>,
) -> Expression {
    Expression::For(Box::new(For {
        label: label.map(|l| l.to_string()),
        init,
        cond,
        step,
        block: block(body),
    }))
}

fn count_to(label: Option<&str>, name: &str, limit: f64, body: Vec<Expression>) -> Expression {
    for_loop(
        label,
        declare(name, num(0.0)),
        compare(CompareOp::Less, var(name), num(limit)),
        assign(AssignOp::Add, var(name), num(1.0)),
        body,
    )
}

fn function(name: &str, args: &[&str], returns: bool, body: Vec<Expression>) -> Function {
    Function {
        name: name.to_string(),
        args: args.iter().map(|a| Arg { name: a.to_string() }).collect(),
        block: block(body),
        returns,
    }
}

fn main_of(body: Vec<Expression>) -> Vec<Function> {
    vec![function("main", &[], false, body)]
}

fn output_of(program: &Vec<Function>) -> String {
    let mut host = Recorder::new(Script::new());
    let mut runtime = Runtime::new();
    runtime.run(&mut host, program).expect("the program runs");
    assert_eq!(runtime.stack.len(), 0);
    assert_eq!(runtime.local_stack.len(), 0);
    assert_eq!(runtime.call_stack.len(), 0);
    host.host.output
}

fn failure_of(program: &Vec<Function>) -> ErrorKind {
    let mut host = Recorder::new(Script::new());
    let mut runtime = Runtime::new();
    runtime.run(&mut host, program).expect_err("the program fails").kind
}

#[test]
fn arithmetic_on_a_local() {
    let program = main_of(vec![
        declare("a", num(3.0)),
        assign(AssignOp::Add, var("a"), binop(BinOp::Mul, num(4.0), num(2.0))),
        println(var("a")),
    ]);
    assert_eq!(output_of(&program), "11\n");
}

#[test]
fn objects_and_paths() {
    let program = main_of(vec![
        declare("o", Expression::Object(vec![("x".to_string(), num(0.0))])),
        store(path("o", vec![key("x")]), num(5.0)),
        store(path("o", vec![key("y")]), num(7.0)),
        println(path("o", vec![key("x")])),
        println(path("o", vec![key("y")])),
    ]);
    assert_eq!(output_of(&program), "5\n7\n");
}

#[test]
fn arrays_and_len() {
    let program = main_of(vec![
        declare("a", Expression::Array(vec![num(1.0), num(2.0), num(3.0)])),
        store(path("a", vec![index(1.0)]), num(20.0)),
        println(call("len", vec![var("a")])),
        println(path("a", vec![index(1.0)])),
    ]);
    assert_eq!(output_of(&program), "3\n20\n");
}

#[test]
fn a_labeled_break_leaves_the_outer_loop() {
    let program = main_of(vec![
        declare("i", num(0.0)),
        count_to(
            Some("outer"),
            "j",
            10.0,
            vec![count_to(
                None,
                "k",
                10.0,
                vec![
                    if_then(
                        compare(CompareOp::Equal, var("k"), num(2.0)),
                        vec![Expression::Break(Some("outer".to_string()))],
                    ),
                    assign(AssignOp::Add, var("i"), num(1.0)),
                ],
            )],
        ),
        println(var("i")),
    ]);
    assert_eq!(output_of(&program), "2\n");
}

#[test]
fn a_function_returns_a_value() {
    let program = vec![
        function(
            "square",
            &["x"],
            true,
            vec![store(var("return"), binop(BinOp::Mul, var("x"), var("x")))],
        ),
        function("main", &[], false, vec![println(call("square", vec![num(6.0)]))]),
    ];
    assert_eq!(output_of(&program), "36\n");
}

#[test]
fn a_clone_is_apart_from_what_was_cloned() {
    let program = main_of(vec![
        declare("a", Expression::Array(vec![num(1.0), num(2.0), num(3.0)])),
        declare("b", call("clone", vec![var("a")])),
        store(path("b", vec![index(0.0)]), num(9.0)),
        println(path("a", vec![index(0.0)])),
        println(path("b", vec![index(0.0)])),
    ]);
    assert_eq!(output_of(&program), "1\n9\n");
}

#[test]
fn return_statement_leaves_the_function_early() {
    let program = vec![
        function(
            "pick",
            &["x"],
            true,
            vec![
                if_then(
                    compare(CompareOp::Less, var("x"), num(0.0)),
                    vec![Expression::Return(Box::new(text("negative")))],
                ),
                Expression::Return(Box::new(text("not negative"))),
            ],
        ),
        function(
            "main",
            &[],
            false,
            vec![println(call("pick", vec![num(-1.0)])), println(call("pick", vec![num(1.0)]))],
        ),
    ];
    assert_eq!(output_of(&program), "negative\nnot negative\n");
}

#[test]
fn canonical_forms_are_printed() {
    let program = main_of(vec![
        println(Expression::Array(vec![num(1.0), Expression::Bool(true), text("x")])),
        println(Expression::Object(vec![
            ("a".to_string(), num(1.5)),
            ("b".to_string(), Expression::Array(vec![])),
        ])),
        call("print", vec![text("no line break")]),
    ]);
    assert_eq!(output_of(&program), "[1, true, x]\n{a: 1.5, b: []}\nno line break");
}

#[test]
fn continue_skips_the_rest_of_a_round() {
    let program = main_of(vec![
        declare("n", num(0.0)),
        count_to(
            None,
            "i",
            5.0,
            vec![
                if_then(
                    compare(CompareOp::Equal, var("i"), num(2.0)),
                    vec![Expression::Continue(None)],
                ),
                assign(AssignOp::Add, var("n"), num(1.0)),
            ],
        ),
        println(var("n")),
    ]);
    assert_eq!(output_of(&program), "4\n");
}

#[test]
fn labeled_continue_starts_the_next_round_of_the_outer_loop() {
    let program = main_of(vec![
        declare("n", num(0.0)),
        count_to(
            Some("outer"),
            "i",
            3.0,
            vec![count_to(
                Some("inner"),
                "k",
                3.0,
                vec![
                    if_then(
                        compare(CompareOp::Equal, var("k"), num(1.0)),
                        vec![Expression::Continue(Some("outer".to_string()))],
                    ),
                    assign(AssignOp::Add, var("n"), num(1.0)),
                ],
            )],
        ),
        println(var("n")),
    ]);
    assert_eq!(output_of(&program), "3\n");
}

#[test]
fn boolean_and_text_operators() {
    let t = || Expression::Bool(true);
    let f = || Expression::Bool(false);
    let program = main_of(vec![
        println(binop(BinOp::Add, f(), t())),
        println(binop(BinOp::Mul, f(), t())),
        println(binop(BinOp::Sub, t(), t())),
        println(binop(BinOp::Pow, t(), f())),
        println(not(t())),
        println(binop(BinOp::Add, text("ab"), text("cd"))),
        println(compare(CompareOp::Less, text("ab"), text("b"))),
        println(compare(CompareOp::GreaterOrEqual, text("b"), text("b"))),
        println(compare(CompareOp::NotEqual, t(), f())),
        println(compare(CompareOp::LessOrEqual, num(2.0), num(2.0))),
    ]);
    assert_eq!(
        output_of(&program),
        "true\nfalse\nfalse\ntrue\nfalse\nabcd\ntrue\ntrue\ntrue\ntrue\n"
    );
}

#[test]
fn if_else_selects_a_block() {
    let program = main_of(vec![
        if_else(
            compare(CompareOp::Greater, num(1.0), num(2.0)),
            vec![println(text("then"))],
            vec![println(text("else"))],
        ),
    ]);
    assert_eq!(output_of(&program), "else\n");
}

#[test]
fn compound_assignments() {
    let program = main_of(vec![
        declare("a", num(7.0)),
        assign(AssignOp::Sub, var("a"), num(2.0)),
        assign(AssignOp::Mul, var("a"), num(3.0)),
        assign(AssignOp::Div, var("a"), num(2.0)),
        assign(AssignOp::Rem, var("a"), num(4.0)),
        assign(AssignOp::Pow, var("a"), num(2.0)),
        println(var("a")),
        declare("t", text("x")),
        assign(AssignOp::Add, var("t"), text("y")),
        println(var("t")),
    ]);
    assert_eq!(output_of(&program), "12.25\nxy\n");
}

#[test]
fn nested_paths_are_assigned_in_place() {
    let program = main_of(vec![
        declare(
            "o",
            Expression::Object(vec![(
                "rows".to_string(),
                Expression::Array(vec![
                    Expression::Array(vec![num(1.0), num(2.0)]),
                    Expression::Array(vec![num(3.0), num(4.0)]),
                ]),
            )]),
        ),
        declare("i", num(1.0)),
        store(path("o", vec![key("rows"), Id::Expression(var("i")), index(0.0)]), num(30.0)),
        println(var("o")),
    ]);
    assert_eq!(output_of(&program), "{rows: [[1, 2], [30, 4]]}\n");
}

#[test]
fn built_in_procedures() {
    let program = main_of(vec![
        println(call("sqrt", vec![num(16.0)])),
        println(call("round", vec![num(2.5)])),
        println(call("trim_right", vec![text("ab \t\n")])),
        println(call("to_string", vec![num(0.1)])),
        println(call("to_string", vec![text("as it is")])),
        println(call("len", vec![Expression::Array(vec![])])),
        call("sleep", vec![num(0.25)]),
    ]);
    let mut host = Recorder::new(Script::new());
    let mut runtime = Runtime::new();
    runtime.run(&mut host, &program).unwrap();
    assert_eq!(host.host.output, "4\n3\nab\n0.1\nas it is\n0\n");
    assert_eq!(host.host.slept, vec![0.25]);
}

#[test]
fn random_is_at_least_zero_and_below_one() {
    let program = vec![function(
        "main",
        &[],
        true,
        vec![store(var("return"), call("random", vec![]))],
    )];
    for _ in 0..100 {
        let mut host = Recorder::new(Script::new());
        let mut runtime = Runtime::new();
        runtime.run(&mut host, &program).unwrap();
        assert_eq!(runtime.stack.len(), 1);
        match runtime.stack[0] {
            Variable::Number(bits) => {
                let x = f64::from_bits(bits);
                assert!(0.0 <= x && x < 1.0);
            }
            _ => panic!("random yields a number"),
        }
    }
}

#[test]
fn read_line_and_read_number() {
    let program = main_of(vec![
        declare("line", call("read_line", vec![])),
        call("print", vec![var("line")]),
        declare("n", call("read_number", vec![text("not a number")])),
        println(binop(BinOp::Add, var("n"), num(1.0))),
    ]);
    let mut host = Recorder::new(Script::with_input(&["first\n", "abc\n", "  41.5 \n"]));
    let mut runtime = Runtime::new();
    runtime.run(&mut host, &program).unwrap();
    assert_eq!(host.host.output, "first\nnot a number\n42.5\n");
}

#[test]
fn input_failures_are_handed_on() {
    let program = main_of(vec![declare("line", call("read_line", vec![]))]);
    let mut host = Recorder::new(Script::new());
    let mut runtime = Runtime::new();
    let error = runtime.run(&mut host, &program).unwrap_err();
    assert_eq!(error.kind, ErrorKind::Io);
    assert_eq!(error.detail, "end of input");
}

#[test]
fn failures() {
    assert_eq!(failure_of(&main_of(vec![println(var("missing"))])), ErrorKind::UnknownLocal);
    assert_eq!(failure_of(&main_of(vec![call("nothing", vec![])])), ErrorKind::UnknownFunction);
    assert_eq!(
        failure_of(&main_of(vec![call("sqrt", vec![num(1.0), num(2.0)])])),
        ErrorKind::Arity
    );
    assert_eq!(
        failure_of(&main_of(vec![println(binop(BinOp::Add, num(1.0), text("x")))])),
        ErrorKind::InvalidOperands
    );
    assert_eq!(
        failure_of(&main_of(vec![println(binop(BinOp::Add, text("x"), num(1.0)))])),
        ErrorKind::ExpectedTextRight
    );
    assert_eq!(
        failure_of(&main_of(vec![println(binop(BinOp::Div, text("x"), text("y")))])),
        ErrorKind::InvalidOperator
    );
    assert_eq!(
        failure_of(&main_of(vec![println(compare(
            CompareOp::Less,
            Expression::Bool(true),
            Expression::Bool(false)
        ))])),
        ErrorKind::InvalidOperator
    );
    assert_eq!(
        failure_of(&main_of(vec![println(compare(CompareOp::Less, num(1.0), text("x")))])),
        ErrorKind::InvalidOperands
    );
    assert_eq!(failure_of(&main_of(vec![println(not(num(1.0)))])), ErrorKind::ExpectedBool);
    assert_eq!(
        failure_of(&main_of(vec![if_then(num(1.0), vec![])])),
        ErrorKind::ExpectedBool
    );
    assert_eq!(
        failure_of(&main_of(vec![Expression::Break(None)])),
        ErrorKind::BreakFromFunction
    );
    assert_eq!(
        failure_of(&main_of(vec![Expression::Continue(Some("l".to_string()))])),
        ErrorKind::ContinueFromFunction
    );
    assert_eq!(
        failure_of(&main_of(vec![
            declare("a", Expression::Array(vec![num(1.0)])),
            println(path("a", vec![index(1.0)])),
        ])),
        ErrorKind::IndexOutOfRange
    );
    assert_eq!(
        failure_of(&main_of(vec![
            declare("o", Expression::Object(vec![])),
            println(path("o", vec![key("x")])),
        ])),
        ErrorKind::MissingKey
    );
    assert_eq!(
        failure_of(&main_of(vec![
            declare("o", Expression::Object(vec![])),
            assign(AssignOp::Add, path("o", vec![key("x")]), num(1.0)),
        ])),
        ErrorKind::MissingKey
    );
    assert_eq!(
        failure_of(&main_of(vec![
            declare("o", Expression::Object(vec![("x".to_string(), Expression::Object(vec![]))])),
            store(path("o", vec![key("y"), key("z")]), num(1.0)),
        ])),
        ErrorKind::MissingKey
    );
    assert_eq!(
        failure_of(&main_of(vec![
            declare("o", Expression::Object(vec![])),
            println(path("o", vec![index(0.0)])),
        ])),
        ErrorKind::ExpectedKey
    );
    assert_eq!(
        failure_of(&main_of(vec![
            declare("a", Expression::Array(vec![])),
            println(path("a", vec![key("x")])),
        ])),
        ErrorKind::ExpectedIndex
    );
    assert_eq!(
        failure_of(&main_of(vec![declare("a", num(1.0)), println(path("a", vec![key("x")]))])),
        ErrorKind::ExpectedContainer
    );
    assert_eq!(
        failure_of(&main_of(vec![
            declare("a", Expression::Array(vec![num(1.0)])),
            println(path("a", vec![Id::Expression(Expression::Bool(true))])),
        ])),
        ErrorKind::ExpectedKeyOrIndex
    );
    assert_eq!(
        failure_of(&main_of(vec![println(Expression::Object(vec![
            ("k".to_string(), num(1.0)),
            ("k".to_string(), num(2.0)),
        ]))])),
        ErrorKind::DuplicateKey
    );
    assert_eq!(
        failure_of(&main_of(vec![declare("a", num(1.0)), store(var("a"), text("x"))])),
        ErrorKind::AssignToText
    );
    assert_eq!(
        failure_of(&main_of(vec![declare("a", text("x")), store(var("a"), num(1.0))])),
        ErrorKind::AssignToNumber
    );
    assert_eq!(
        failure_of(&main_of(vec![
            declare("a", num(1.0)),
            store(var("a"), Expression::Bool(true)),
        ])),
        ErrorKind::AssignToBool
    );
    assert_eq!(
        failure_of(&main_of(vec![
            declare("a", num(1.0)),
            store(var("a"), Expression::Array(vec![])),
        ])),
        ErrorKind::AssignToArray
    );
    assert_eq!(
        failure_of(&main_of(vec![
            declare("a", num(1.0)),
            store(var("a"), Expression::Object(vec![])),
        ])),
        ErrorKind::AssignToObject
    );
    assert_eq!(
        failure_of(&main_of(vec![
            declare("a", Expression::Bool(true)),
            assign(AssignOp::Add, var("a"), Expression::Bool(true)),
        ])),
        ErrorKind::UnsupportedAssign
    );
    assert_eq!(
        failure_of(&main_of(vec![assign(AssignOp::Declare, num(1.0), num(2.0))])),
        ErrorKind::ExpectedItem
    );
    assert_eq!(
        failure_of(&main_of(vec![
            declare("o", Expression::Object(vec![])),
            assign(AssignOp::Declare, path("o", vec![key("x")]), num(2.0)),
        ])),
        ErrorKind::DeclareThroughPath
    );
    assert_eq!(
        failure_of(&main_of(vec![store(num(1.0), num(2.0))])),
        ErrorKind::ExpectedReference
    );
    assert_eq!(
        failure_of(&main_of(vec![println(declare("a", num(1.0)))])),
        ErrorKind::ExpectedSomething
    );
    assert_eq!(
        failure_of(&main_of(vec![call("len", vec![num(1.0)])])),
        ErrorKind::ExpectedArray
    );
    assert_eq!(
        failure_of(&main_of(vec![call("sqrt", vec![text("x")])])),
        ErrorKind::ExpectedNumber
    );
    assert_eq!(
        failure_of(&main_of(vec![call("trim_right", vec![num(1.0)])])),
        ErrorKind::ExpectedText
    );
    assert_eq!(
        failure_of(&main_of(vec![call("to_string", vec![Expression::Bool(true)])])),
        ErrorKind::ExpectedTextOrNumber
    );
    assert_eq!(
        failure_of(&main_of(vec![call("sleep", vec![num(-1.0)])])),
        ErrorKind::InvalidDuration
    );
    assert_eq!(
        failure_of(&vec![function("main", &["x"], false, vec![])]),
        ErrorKind::MainHasArguments
    );
    assert_eq!(
        failure_of(&vec![
            function("f", &[], true, vec![]),
            function("main", &[], false, vec![println(call("f", vec![]))]),
        ]),
        ErrorKind::NoReturnValue
    );
    assert_eq!(
        failure_of(&vec![
            function("f", &[], false, vec![num(1.0)]),
            function("main", &[], false, vec![call("f", vec![])]),
        ]),
        ErrorKind::UnexpectedReturnValue
    );
    assert_eq!(
        failure_of(&vec![
            function("f", &[], true, vec![assign(AssignOp::Add, var("return"), num(1.0))]),
            function("main", &[], false, vec![println(call("f", vec![]))]),
        ]),
        ErrorKind::ReturnHasNoValue
    );
    assert_eq!(
        failure_of(&main_of(vec![for_loop(
            None,
            Expression::Break(None),
            Expression::Bool(false),
            num(0.0),
            vec![]
        )])),
        ErrorKind::UnexpectedJump
    );
}

#[test]
fn an_endless_loop_runs_out_of_budget() {
    let program = main_of(vec![for_loop(
        None,
        declare("i", num(0.0)),
        Expression::Bool(true),
        assign(AssignOp::Add, var("i"), num(1.0)),
        vec![],
    )]);
    let mut host = Recorder::new(Script::new());
    let mut runtime = Runtime::new();
    runtime.budget = 10_000;
    let error = runtime.run(&mut host, &program).unwrap_err();
    assert_eq!(error.kind, ErrorKind::OutOfBudget);
    assert_eq!(runtime.budget, 0);
}

#[test]
fn a_program_without_main_does_nothing() {
    let program = vec![function("other", &[], false, vec![println(num(1.0))])];
    assert_eq!(output_of(&program), "");
}

#[test]
fn the_function_registered_last_counts() {
    let program = vec![
        function("f", &[], false, vec![println(text("first"))]),
        function("f", &[], false, vec![println(text("second"))]),
        function("main", &[], false, vec![call("f", vec![])]),
    ];
    assert_eq!(output_of(&program), "second\n");
}

#[test]
fn locals_of_a_block_end_with_it() {
    let program = main_of(vec![
        declare("a", num(1.0)),
        Expression::Block(block(vec![declare("b", num(2.0)), println(var("b"))])),
        println(var("b")),
    ]);
    assert_eq!(failure_of(&program), ErrorKind::UnknownLocal);
}

#[test]
fn locals_of_the_caller_are_out_of_reach() {
    let program = vec![
        function("f", &[], false, vec![println(var("a"))]),
        function("main", &[], false, vec![declare("a", num(1.0)), call("f", vec![])]),
    ];
    assert_eq!(failure_of(&program), ErrorKind::UnknownLocal);
}

#[test]
fn a_later_binding_shadows_an_earlier_one() {
    let program = main_of(vec![
        declare("a", num(1.0)),
        declare("a", text("later")),
        println(var("a")),
    ]);
    assert_eq!(output_of(&program), "later\n");
}

#[test]
fn debug_and_backtrace_write_the_stacks() {
    let program = vec![
        function("f", &[], false, vec![call("backtrace", vec![])]),
        function(
            "main",
            &[],
            false,
            vec![declare("a", num(1.0)), call("debug", vec![]), call("f", vec![])],
        ),
    ];
    assert_eq!(output_of(&program), "Stack\n  1\nLocals\n  a: 0\nmain\nf\n");
}

#[test]
fn a_reference_that_outlives_its_local_is_a_failure_or_another_value() {
    let program = vec![
        function(
            "f",
            &[],
            true,
            vec![
                declare("pad", num(0.0)),
                declare("x", num(1.0)),
                store(var("return"), Expression::Array(vec![var("x")])),
            ],
        ),
        function("main", &[], false, vec![declare("a", call("f", vec![])), println(var("a"))]),
    ];
    assert_eq!(failure_of(&program), ErrorKind::DanglingReference);
    let program = vec![
        function(
            "f",
            &[],
            true,
            vec![declare("x", num(1.0)), store(var("return"), Expression::Array(vec![var("x")]))],
        ),
        function(
            "main",
            &[],
            false,
            vec![declare("a", call("f", vec![])), declare("b", text("b")), println(var("a"))],
        ),
    ];
    assert_eq!(output_of(&program), "[b]\n");
}

#[test]
fn references_in_a_circle_are_a_failure() {
    let program = main_of(vec![
        declare("a", Expression::Array(vec![Expression::Array(vec![num(0.0)])])),
        declare("x", Expression::Array(vec![Expression::Array(vec![num(5.0)])])),
        store(path("a", vec![index(0.0)]), Expression::Array(vec![var("x")])),
        store(path("x", vec![index(0.0)]), var("a")),
        println(var("x")),
    ]);
    assert_eq!(failure_of(&program), ErrorKind::TooDeep);
}

fn failed_run(program: &Vec<Function>) -> (ErrorKind, String, String) {
    let mut host = Recorder::new(Script::new());
    let mut runtime = Runtime::new();
    let error = runtime.run(&mut host, program).expect_err("the program fails");
    (error.kind, error.detail, host.host.output)
}

#[test]
fn a_failure_names_what_it_is_about() {
    let named = |kind: ErrorKind, name: &str, written: &str| {
        (kind, name.to_string(), written.to_string())
    };
    assert_eq!(
        failed_run(&main_of(vec![println(text("a")), call("println", vec![num(1.0), num(2.0)])])),
        named(ErrorKind::Arity, "println: expected 1 arguments but found 2", "a\n")
    );
    assert_eq!(
        failed_run(&vec![
            function("f", &["x"], false, vec![println(text("in f"))]),
            function("main", &[], false, vec![call("f", vec![println(text("argument"))])]),
        ]),
        named(ErrorKind::ExpectedSomething, "", "argument\n")
    );
    assert_eq!(
        failed_run(&vec![
            function("f", &["x"], false, vec![println(text("in f"))]),
            function("main", &[], false, vec![call("f", vec![])]),
        ]),
        named(ErrorKind::Arity, "f: expected 1 arguments but found 0", "")
    );
    assert_eq!(
        failed_run(&vec![
            function("f", &["x"], false, vec![println(text("in f"))]),
            function("main", &[], false, vec![call("f", vec![num(1.0), num(2.0)])]),
        ]),
        named(ErrorKind::Arity, "f: expected 1 arguments but found 2", "")
    );
    assert_eq!(
        failed_run(&main_of(vec![call("nothing", vec![println(text("not evaluated"))])])),
        named(ErrorKind::UnknownFunction, "nothing", "")
    );
    assert_eq!(
        failed_run(&main_of(vec![println(var("missing"))])),
        named(ErrorKind::UnknownLocal, "missing", "")
    );
    assert_eq!(
        failed_run(&main_of(vec![
            declare("o", Expression::Object(vec![])),
            println(path("o", vec![key("k")])),
        ])),
        named(ErrorKind::MissingKey, "k", "")
    );
    assert_eq!(
        failed_run(&main_of(vec![Expression::Break(Some("far".to_string()))])),
        named(ErrorKind::BreakFromFunction, "far", "")
    );
    assert_eq!(
        failed_run(&main_of(vec![Expression::Continue(None)])),
        named(ErrorKind::ContinueFromFunction, "", "")
    );
    assert_eq!(
        failed_run(&main_of(vec![println(Expression::Object(vec![
            ("twice".to_string(), num(1.0)),
            ("twice".to_string(), num(2.0)),
        ]))])),
        named(ErrorKind::DuplicateKey, "twice", "")
    );
    assert_eq!(
        failed_run(&main_of(vec![
            declare("o", Expression::Object(vec![])),
            assign(AssignOp::Declare, path("o", vec![key("x")]), num(2.0)),
        ])),
        named(ErrorKind::DeclareThroughPath, "o", "")
    );
    assert_eq!(
        failed_run(&vec![function("main", &["x"], false, vec![println(num(1.0))])]),
        named(ErrorKind::MainHasArguments, "", "")
    );
}

#[test]
fn a_user_function_comes_before_a_built_in_procedure_of_its_name() {
    let program = vec![
        function("len", &["x"], true, vec![store(var("return"), text("mine"))]),
        function("main", &[], false, vec![println(call("len", vec![Expression::Array(vec![])]))]),
    ];
    assert_eq!(output_of(&program), "mine\n");
}
