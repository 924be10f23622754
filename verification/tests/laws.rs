use dyon::ast::{
    Assign, AssignOp, BinOp, BinOpExpression, Block, Call, Compare, CompareOp, Expression, For,
    Function, Id, If, Item,
};
use dyon::flow::{Expect, Flow, Side};
use dyon::host::{Host, Recorder, Unary};
use dyon::runtime::Runtime;
use dyon::value::Variable;

struct Plain;

impl Host for Plain {
    fn arithmetic(&mut self, op: BinOp, left: u64, right: u64) -> u64 {
        let (a, b) = (f64::from_bits(left), f64::from_bits(right));
        let r = match op {
            BinOp::Add => a + b,
            BinOp::Sub => a - b,
            BinOp::Mul => a * b,
            BinOp::Div => a / b,
            BinOp::Rem => a % b,
            BinOp::Pow => a.powf(b),
        };
        r.to_bits()
    }

    fn unary(&mut self, _f: Unary, x: u64) -> u64 {
        x
    }

    fn number_text(&mut self, x: u64) -> String {
        format!("{}", f64::from_bits(x))
    }

    fn parse_number(&mut self, _text: &str) -> Option<u64> {
        None
    }

    fn write(&mut self, _text: &str) {}

    fn read_line(&mut self) -> Result<String, String> {
        Err("closed".to_string())
    }

    fn sleep(&mut self, _x: u64) {}
}

fn num(x: f64) -> Expression {
    Expression::Number(x.to_bits())
}

fn var(name: &str) -> Expression {
    Expression::Item(Item { name: name.to_string(), ids: vec![] })
}

fn assign(op: AssignOp, left: Expression, right: Expression) -> Expression {
    Expression::Assign(Box::new(Assign { op, left, right }))
}

fn declare(name: &str, right: Expression) -> Expression {
    assign(AssignOp::Declare, var(name), right)
}

fn less(left: Expression, right: Expression) -> Expression {
    Expression::Compare(Box::new(Compare { op: CompareOp::Less, left, right }))
}

fn sum(left: Expression, right: Expression) -> Expression {
    Expression::BinOp(Box::new(BinOpExpression { op: BinOp::Add, left, right }))
}

fn block(expressions: Vec<Expression>) -> Expression {
    Expression::Block(Block { expressions })
}

fn call(name: &str, args: Vec<Expression>) -> Expression {
    Expression::Call(Call { name: name.to_string(), args })
}

fn function(name: &str, args: &[&str], returns: bool, body: Vec<Expression>) -> Function {
    Function {
        name: name.to_string(),
        args: args.iter().map(|a| dyon::ast::Arg { name: a.to_string() }).collect(),
        block: Block { expressions: body },
        returns,
    }
}

/// A runtime inside a call of `main`, with the locals `a`, an array, and `n`, a number.
fn inside<'a>(functions: &'a Vec<Function>) -> Runtime<'a> {
    let mut runtime = Runtime::new();
    for f in functions {
        runtime.register(f);
    }
    runtime.call_stack.push(("main".to_string(), 0, 0));
    runtime.stack.push(Variable::Array(vec![
        Variable::Number(1.0f64.to_bits()),
        Variable::Array(vec![Variable::Number(2.0f64.to_bits())]),
    ]));
    runtime.local_stack.push(("a".to_string(), 0));
    runtime.stack.push(Variable::Number(5.0f64.to_bits()));
    runtime.local_stack.push(("n".to_string(), 1));
    runtime
}

fn functions() -> Vec<Function> {
    vec![
        function(
            "early",
            &["x"],
            true,
            vec![
                declare("unused", num(1.0)),
                Expression::If(Box::new(If {
                    cond: less(var("x"), num(0.0)),
                    true_block: Block { expressions: vec![Expression::Return(Box::new(num(-1.0)))] },
                    else_block: None,
                })),
                declare("more", num(2.0)),
                assign(AssignOp::Store, var("return"), num(1.0)),
            ],
        ),
        function("quiet", &["x", "y"], false, vec![declare("z", sum(var("x"), var("y")))]),
    ]
}

#[test]
fn a_tidy_expression_leaves_nothing_but_its_value() {
    let fs = functions();
    let samples: Vec<(Expression, Expect)> = vec![
        (num(1.0), Expect::Something),
        (Expression::Text("t".to_string()), Expect::Something),
        (Expression::Bool(true), Expect::Something),
        (var("n"), Expect::Something),
        (
            Expression::Item(Item {
                name: "a".to_string(),
                ids: vec![Id::Number(1.0f64.to_bits()), Id::Expression(num(0.0))],
            }),
            Expect::Something,
        ),
        (sum(var("n"), num(1.0)), Expect::Something),
        (less(var("n"), num(1.0)), Expect::Something),
        (Expression::Array(vec![var("n"), sum(num(1.0), num(2.0))]), Expect::Something),
        (Expression::Object(vec![("k".to_string(), var("a"))]), Expect::Something),
        (assign(AssignOp::Add, var("n"), num(1.0)), Expect::Nothing),
        (call("early", vec![num(-3.0)]), Expect::Something),
        (call("early", vec![block(vec![declare("t", num(3.0)), var("t")])]), Expect::Something),
        (call("quiet", vec![num(1.0), var("n")]), Expect::Nothing),
        (call("len", vec![var("a")]), Expect::Something),
        (call("println", vec![var("a")]), Expect::Nothing),
        (
            Expression::For(Box::new(For {
                label: None,
                init: declare("i", num(0.0)),
                cond: less(var("i"), num(3.0)),
                step: assign(AssignOp::Add, var("i"), num(1.0)),
                block: Block { expressions: vec![declare("j", var("i")), var("j")] },
            })),
            Expect::Nothing,
        ),
        (block(vec![]), Expect::Nothing),
        (block(vec![assign(AssignOp::Store, var("n"), num(2.0)), var("n")]), Expect::Something),
        (
            Expression::If(Box::new(If {
                cond: Expression::Bool(false),
                true_block: Block { expressions: vec![num(1.0)] },
                else_block: None,
            })),
            Expect::Nothing,
        ),
    ];
    for (expr, expected) in samples {
        let mut host = Recorder::new(Plain);
        let mut runtime = inside(&fs);
        let (stack, locals, frames) =
            (runtime.stack.len(), runtime.local_stack.len(), runtime.call_stack.len());
        let (produced, flow) = runtime.expression(&mut host, &expr, Side::Right).unwrap();
        assert!(matches!(flow, Flow::Continue), "{:?}", expr);
        assert_eq!(produced, expected, "{:?}", expr);
        let left = if produced == Expect::Something { 1 } else { 0 };
        assert_eq!(runtime.stack.len(), stack + left, "{:?}", expr);
        assert_eq!(runtime.local_stack.len(), locals, "{:?}", expr);
        assert_eq!(runtime.call_stack.len(), frames, "{:?}", expr);
    }
}

#[test]
fn a_declaration_leaves_its_value_and_one_binding() {
    let fs = functions();
    let mut host = Recorder::new(Plain);
    let mut runtime = inside(&fs);
    let (produced, flow) =
        runtime.expression(&mut host, &declare("m", var("n")), Side::Right).unwrap();
    assert!(matches!(flow, Flow::Continue));
    assert_eq!(produced, Expect::Nothing);
    assert_eq!(runtime.stack.len(), 3);
    assert_eq!(runtime.stack[2], Variable::Number(5.0f64.to_bits()));
    assert_eq!(runtime.local_stack.len(), 3);
    assert_eq!(runtime.local_stack[2], ("m".to_string(), 2));
}

#[test]
fn a_block_drops_its_bindings_and_keeps_their_values() {
    let fs = functions();
    let mut host = Recorder::new(Plain);
    let mut runtime = inside(&fs);
    let body = Block { expressions: vec![declare("x", num(1.0)), declare("y", num(2.0)), num(3.0), var("y")] };
    let (produced, flow) = runtime.block(&mut host, &body).unwrap();
    assert!(matches!(flow, Flow::Continue));
    assert_eq!(produced, Expect::Something);
    assert_eq!(runtime.local_stack.len(), 2);
    assert_eq!(runtime.stack.len(), 2 + 4);
    assert_eq!(runtime.stack[5], Variable::StackRef(3));
}

#[test]
fn a_call_leaves_its_value_only_however_it_returns() {
    let fs = functions();
    for (argument, expected) in [(-3.0, -1.0), (3.0, 1.0)] {
        let mut host = Recorder::new(Plain);
        let mut runtime = inside(&fs);
        let c = Call { name: "early".to_string(), args: vec![num(argument)] };
        let (produced, flow) = runtime.call(&mut host, &c).unwrap();
        assert!(matches!(flow, Flow::Continue));
        assert_eq!(produced, Expect::Something);
        assert_eq!(runtime.stack.len(), 3);
        assert_eq!(runtime.stack[2], Variable::Number(f64::to_bits(expected)));
        assert_eq!(runtime.local_stack.len(), 2);
        assert_eq!(runtime.call_stack.len(), 1);
    }
    let mut host = Recorder::new(Plain);
    let mut runtime = inside(&fs);
    let c = Call { name: "quiet".to_string(), args: vec![num(1.0), num(2.0)] };
    let (produced, _) = runtime.call(&mut host, &c).unwrap();
    assert_eq!(produced, Expect::Nothing);
    assert_eq!(runtime.stack.len(), 2);
    assert_eq!(runtime.local_stack.len(), 2);
}

#[test]
fn an_assignment_to_a_parameter_leaves_the_slot_of_the_caller() {
    let fs = vec![function("set", &["x"], false, vec![assign(AssignOp::Store, var("x"), num(5.0))])];
    let mut host = Recorder::new(Plain);
    let mut runtime = Runtime::new();
    runtime.register(&fs[0]);
    runtime.call_stack.push(("main".to_string(), 0, 0));
    runtime.stack.push(Variable::Number(1.0f64.to_bits()));
    runtime.local_stack.push(("a".to_string(), 0));
    let c = Call { name: "set".to_string(), args: vec![var("a")] };
    let (produced, flow) = runtime.call(&mut host, &c).unwrap();
    assert_eq!(produced, Expect::Nothing);
    assert!(matches!(flow, Flow::Continue));
    assert_eq!(runtime.stack, vec![Variable::Number(1.0f64.to_bits())]);
    assert_eq!(runtime.local_stack, vec![("a".to_string(), 0)]);
    assert_eq!(runtime.call_stack.len(), 1);
}

#[test]
fn a_parameter_begins_with_a_copy_of_what_its_argument_refers_to() {
    let fs = vec![function(
        "grow",
        &["x", "y"],
        true,
        vec![
            assign(AssignOp::Add, var("x"), var("y")),
            assign(
                AssignOp::Store,
                Expression::Item(Item { name: "y".to_string(), ids: vec![Id::Number(0.0f64.to_bits())] }),
                var("x"),
            ),
            assign(AssignOp::Store, var("return"), Expression::Array(vec![var("x"), var("y")])),
        ],
    )];
    let mut host = Recorder::new(Plain);
    let mut runtime = inside(&fs);
    let c = Call { name: "grow".to_string(), args: vec![var("n"), var("n")] };
    let e = runtime.call(&mut host, &c).unwrap_err();
    assert_eq!(e.kind, dyon::error::ErrorKind::ExpectedContainer);
    let fs = vec![function(
        "first",
        &["x", "y"],
        true,
        vec![
            assign(
                AssignOp::Store,
                Expression::Item(Item { name: "x".to_string(), ids: vec![Id::Number(0.0f64.to_bits())] }),
                var("y"),
            ),
            assign(AssignOp::Add, var("y"), num(1.0)),
            assign(AssignOp::Store, var("return"), var("x")),
        ],
    )];
    let mut host = Recorder::new(Plain);
    let mut runtime = inside(&fs);
    let c = Call { name: "first".to_string(), args: vec![var("a"), var("n")] };
    runtime.call(&mut host, &c).unwrap();
    let two = Variable::Array(vec![Variable::Number(2.0f64.to_bits())]);
    assert_eq!(
        runtime.stack,
        vec![
            Variable::Array(vec![Variable::Number(1.0f64.to_bits()), two.copy()]),
            Variable::Number(5.0f64.to_bits()),
            Variable::Array(vec![Variable::Number(5.0f64.to_bits()), two]),
        ]
    );
}

#[test]
fn an_assignment_through_a_path_changes_that_slot_only() {
    let fs = functions();
    let mut host = Recorder::new(Plain);
    let mut runtime = inside(&fs);
    let target = Expression::Item(Item {
        name: "a".to_string(),
        ids: vec![Id::Number(1.0f64.to_bits()), Id::Number(0.0f64.to_bits())],
    });
    runtime.expression(&mut host, &assign(AssignOp::Store, target, num(9.0)), Side::Right).unwrap();
    assert_eq!(
        runtime.stack,
        vec![
            Variable::Array(vec![
                Variable::Number(1.0f64.to_bits()),
                Variable::Array(vec![Variable::Number(9.0f64.to_bits())]),
            ]),
            Variable::Number(5.0f64.to_bits()),
        ]
    );
}

#[test]
fn a_left_side_leaves_a_handle() {
    let fs = functions();
    let mut host = Recorder::new(Plain);
    let mut runtime = inside(&fs);
    let target = Item { name: "a".to_string(), ids: vec![Id::Number(1.0f64.to_bits())] };
    runtime.item(&mut host, &target, Side::LeftInsert(false)).unwrap();
    assert!(matches!(runtime.stack[2], Variable::RawRef(_)));
    runtime.stack.pop();
    runtime.item(&mut host, &target, Side::Right).unwrap();
    assert_eq!(runtime.stack[2], Variable::Array(vec![Variable::Number(2.0f64.to_bits())]));
}

#[test]
fn each_expression_takes_one_step_of_the_budget() {
    let fs = functions();
    let mut host = Recorder::new(Plain);
    let mut runtime = inside(&fs);
    runtime.budget = 3;
    runtime.expression(&mut host, &sum(num(1.0), num(2.0)), Side::Right).unwrap();
    assert_eq!(runtime.budget, 0);
    let e = runtime.expression(&mut host, &num(1.0), Side::Right).unwrap_err();
    assert_eq!(e.kind, dyon::error::ErrorKind::OutOfBudget);
    runtime.budget = 2;
    let e = runtime.expression(&mut host, &sum(num(1.0), num(2.0)), Side::Right).unwrap_err();
    assert_eq!(e.kind, dyon::error::ErrorKind::OutOfBudget);
}
