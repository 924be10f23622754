use dyon::assign::{assign_value, commit};
use dyon::ast::{Arg, AssignOp, BinOp, Block, CompareOp, Function, UnOp};
use dyon::builtins::{apply, builtin, dump, find_function, trace, Builtin};
use dyon::deep::deep_clone;
use dyon::error::ErrorKind;
use dyon::flow::{react, Expect, Flow, Reaction, Side};
use dyon::host::{Host, Recorder, Unary};
use dyon::lookup::{emit_item, enter, find_key, find_local, segment_of, walk, Segment, Target};
use dyon::ops::{carry_out, compare_values, plan_binop, unop_value, Plan};
use dyon::place::{insert_entry, read, store};
use dyon::print::{emit, pieces, Piece};
use dyon::runtime::calls::finish_call;
use dyon::text::{compare_texts, joined};
use dyon::value::{resolve, Place, Variable};

struct Quiet {
    written: String,
}

impl Host for Quiet {
    fn arithmetic(&mut self, op: BinOp, left: u64, right: u64) -> u64 {
        let (a, b) = (f64::from_bits(left), f64::from_bits(right));
        let r = match op {
            BinOp::Add => a + b,
            BinOp::Sub => a - b,
            BinOp::Mul => a * b,
            BinOp::Div => a / b,
            BinOp::Rem => a % b,
            BinOp::Pow => a.powf(b),
        };
        r.to_bits()
    }

    fn unary(&mut self, _f: Unary, x: u64) -> u64 {
        f64::from_bits(x).sqrt().to_bits()
    }

    fn number_text(&mut self, x: u64) -> String {
        format!("{}", f64::from_bits(x))
    }

    fn parse_number(&mut self, text: &str) -> Option<u64> {
        text.parse::<f64>().ok().map(|v| v.to_bits())
    }

    fn write(&mut self, text: &str) {
        self.written.push_str(text);
    }

    fn read_line(&mut self) -> Result<String, String> {
        Err("closed".to_string())
    }

    fn sleep(&mut self, _x: u64) {}
}

fn host() -> Recorder<Quiet> {
    Recorder::new(Quiet { written: String::new() })
}

fn num(x: f64) -> Variable {
    Variable::Number(x.to_bits())
}

fn text(t: &str) -> Variable {
    Variable::Text(t.to_string())
}

fn object(entries: Vec<(&str, Variable)>) -> Variable {
    Variable::Object(entries.into_iter().map(|(k, v)| (k.to_string(), v)).collect())
}

fn place(slot: usize, path: &[usize]) -> Place {
    Place { slot, path: path.to_vec() }
}

#[test]
fn a_copy_equals_what_was_copied() {
    let v = object(vec![
        ("a", Variable::Array(vec![num(1.0), Variable::StackRef(3), Variable::Return])),
        ("b", text("t")),
        ("c", Variable::RawRef(place(1, &[0, 2]))),
        ("d", Variable::Bool(true)),
    ]);
    assert_eq!(v.copy(), v);
    assert_eq!(place(4, &[1, 2, 3]).copy(), place(4, &[1, 2, 3]));
}

#[test]
fn references_are_followed_once() {
    let stack = vec![num(1.0), Variable::StackRef(0)];
    assert_eq!(resolve(&stack, &Variable::StackRef(0)), Some(&num(1.0)));
    assert_eq!(resolve(&stack, &Variable::StackRef(1)), Some(&Variable::StackRef(0)));
    assert_eq!(resolve(&stack, &Variable::StackRef(2)), None);
    assert_eq!(resolve(&stack, &text("x")), Some(&text("x")));
}

#[test]
fn slots_are_read_and_written_in_place() {
    let mut stack = vec![
        num(0.0),
        object(vec![("rows", Variable::Array(vec![num(1.0), Variable::Array(vec![num(2.0)])]))]),
    ];
    assert_eq!(read(&stack, &place(0, &[])), Some(&num(0.0)));
    assert_eq!(read(&stack, &place(1, &[0, 1, 0])), Some(&num(2.0)));
    assert_eq!(read(&stack, &place(1, &[0, 2])), None);
    assert_eq!(read(&stack, &place(1, &[1])), None);
    assert_eq!(read(&stack, &place(0, &[0])), None);
    assert_eq!(read(&stack, &place(2, &[])), None);

    assert!(store(&mut stack, &place(1, &[0, 1, 0]), text("new")));
    assert_eq!(
        stack[1],
        object(vec![("rows", Variable::Array(vec![num(1.0), Variable::Array(vec![text("new")])]))])
    );
    assert_eq!(stack[0], num(0.0));
    let before = stack[1].copy();
    assert!(!store(&mut stack, &place(1, &[0, 5]), num(9.0)));
    assert!(!store(&mut stack, &place(7, &[]), num(9.0)));
    assert_eq!(stack[1], before);
    assert!(store(&mut stack, &place(0, &[]), Variable::Bool(false)));
    assert_eq!(stack[0], Variable::Bool(false));
}

#[test]
fn entries_are_inserted_with_an_empty_return_slot() {
    let mut stack = vec![object(vec![("inner", object(vec![("x", num(1.0))]))]), num(2.0)];
    assert_eq!(insert_entry(&mut stack, &place(0, &[0]), "y".to_string()), Some(1));
    assert_eq!(
        stack[0],
        object(vec![("inner", object(vec![("x", num(1.0)), ("y", Variable::Return)]))])
    );
    assert_eq!(insert_entry(&mut stack, &place(1, &[]), "y".to_string()), None);
    assert_eq!(insert_entry(&mut stack, &place(0, &[3]), "y".to_string()), None);
    assert_eq!(stack[1], num(2.0));
}

#[test]
fn deep_copies_follow_references() {
    let stack = vec![num(1.0), Variable::Array(vec![Variable::StackRef(0), text("t")])];
    let v = object(vec![("a", Variable::StackRef(1)), ("b", Variable::Return)]);
    assert_eq!(
        deep_clone(&v, &stack, 10).unwrap(),
        object(vec![("a", Variable::Array(vec![num(1.0), text("t")])), ("b", Variable::Return)])
    );
    assert_eq!(deep_clone(&v, &stack, 2).unwrap(), deep_clone(&v, &stack, 10).unwrap());
    assert_eq!(deep_clone(&v, &stack, 1).unwrap_err().kind, ErrorKind::TooDeep);
}

#[test]
fn the_height_of_the_stack_is_depth_enough_where_no_references_lead_in_a_circle() {
    // The references lead upwards and downwards, through every slot once.
    let stack = vec![
        Variable::StackRef(3),
        Variable::Array(vec![Variable::StackRef(0)]),
        num(7.0),
        Variable::StackRef(2),
    ];
    let v = Variable::StackRef(1);
    assert_eq!(deep_clone(&v, &stack, stack.len()).unwrap(), Variable::Array(vec![num(7.0)]));
    assert_eq!(deep_clone(&v, &stack, 3).unwrap_err().kind, ErrorKind::TooDeep);
    let circle = vec![Variable::StackRef(1), Variable::StackRef(0)];
    assert_eq!(
        deep_clone(&Variable::StackRef(0), &circle, circle.len()).unwrap_err().kind,
        ErrorKind::TooDeep
    );
}

#[test]
fn deep_copies_fail_on_what_cannot_be_copied() {
    let stack = vec![Variable::Array(vec![Variable::StackRef(0)])];
    assert_eq!(
        deep_clone(&Variable::StackRef(0), &stack, 1000).unwrap_err().kind,
        ErrorKind::TooDeep
    );
    assert_eq!(
        deep_clone(&Variable::StackRef(1), &stack, 1000).unwrap_err().kind,
        ErrorKind::DanglingReference
    );
    assert_eq!(
        deep_clone(&Variable::RawRef(place(0, &[])), &stack, 1000).unwrap_err().kind,
        ErrorKind::RawReference
    );
    let first = Variable::Array(vec![Variable::StackRef(9), Variable::RawRef(place(0, &[]))]);
    assert_eq!(deep_clone(&first, &stack, 5).unwrap_err().kind, ErrorKind::DanglingReference);
}

#[test]
fn locals_are_found_from_the_latest_back_to_the_frame() {
    let locals = vec![
        ("a".to_string(), 0),
        ("b".to_string(), 1),
        ("a".to_string(), 2),
        ("c".to_string(), 3),
    ];
    assert_eq!(find_local(&locals, 0, &"a".to_string()), Some(2));
    assert_eq!(find_local(&locals, 0, &"b".to_string()), Some(1));
    assert_eq!(find_local(&locals, 2, &"b".to_string()), None);
    assert_eq!(find_local(&locals, 3, &"a".to_string()), None);
    assert_eq!(find_local(&locals, 9, &"c".to_string()), None);
    assert_eq!(find_local(&locals, 0, &"d".to_string()), None);
}

#[test]
fn keys_are_found_by_their_first_entry() {
    let entries = vec![("x".to_string(), num(1.0)), ("y".to_string(), num(2.0))];
    assert_eq!(find_key(&entries, &"x".to_string()), Some(0));
    assert_eq!(find_key(&entries, &"y".to_string()), Some(1));
    assert_eq!(find_key(&entries, &"z".to_string()), None);
    assert_eq!(find_key(&vec![], &"x".to_string()), None);
}

#[test]
fn computed_segments_are_keys_or_numbers() {
    let stack = vec![text("k"), num(2.0), Variable::Bool(true)];
    match segment_of(&stack, &Variable::StackRef(0)).unwrap() {
        Segment::Key(k) => assert_eq!(k, "k"),
        other => panic!("{:?}", other),
    }
    match segment_of(&stack, &num(3.0)).unwrap() {
        Segment::Number(n) => assert_eq!(n, 3.0f64.to_bits()),
        other => panic!("{:?}", other),
    }
    assert_eq!(
        segment_of(&stack, &Variable::StackRef(2)).unwrap_err().kind,
        ErrorKind::ExpectedKeyOrIndex
    );
    assert_eq!(
        segment_of(&stack, &Variable::StackRef(5)).unwrap_err().kind,
        ErrorKind::DanglingReference
    );
}

#[test]
fn a_segment_enters_a_container() {
    let array = Variable::Array(vec![num(1.0), num(2.0)]);
    let obj = object(vec![("x", num(1.0))]);
    let n = |x: f64| Segment::Number(x.to_bits());
    let k = |t: &str| Segment::Key(t.to_string());
    assert_eq!(enter(&array, &n(1.9)).unwrap(), Some(1));
    assert_eq!(enter(&array, &n(-1.0)).unwrap(), Some(0));
    assert_eq!(enter(&array, &n(2.0)).unwrap_err().kind, ErrorKind::IndexOutOfRange);
    assert_eq!(enter(&array, &n(f64::INFINITY)).unwrap_err().kind, ErrorKind::IndexOutOfRange);
    assert_eq!(enter(&array, &k("x")).unwrap_err().kind, ErrorKind::ExpectedIndex);
    assert_eq!(enter(&obj, &k("x")).unwrap(), Some(0));
    assert_eq!(enter(&obj, &k("y")).unwrap(), None);
    assert_eq!(enter(&obj, &n(0.0)).unwrap_err().kind, ErrorKind::ExpectedKey);
    assert_eq!(enter(&num(1.0), &k("x")).unwrap_err().kind, ErrorKind::ExpectedContainer);
}

fn slot_of(target: Target) -> Place {
    match target {
        Target::Slot(p) => p,
        other => panic!("{:?}", other),
    }
}

#[test]
fn a_walk_follows_references_but_for_the_last_segment() {
    let stack = vec![
        Variable::Array(vec![num(7.0)]),
        object(vec![("a", Variable::StackRef(0)), ("b", num(1.0))]),
        Variable::StackRef(1),
    ];
    let k = |t: &str| Segment::Key(t.to_string());
    let n = |x: f64| Segment::Number(x.to_bits());
    assert_eq!(slot_of(walk(&stack, 1, &vec![k("b")], false).unwrap()), place(1, &[1]));
    assert_eq!(slot_of(walk(&stack, 1, &vec![k("a")], false).unwrap()), place(1, &[0]));
    assert_eq!(slot_of(walk(&stack, 1, &vec![k("a"), n(0.0)], false).unwrap()), place(0, &[0]));
    assert_eq!(slot_of(walk(&stack, 2, &vec![k("b")], false).unwrap()), place(1, &[1]));
    assert_eq!(slot_of(walk(&stack, 2, &vec![], false).unwrap()), place(1, &[]));
    assert_eq!(walk(&stack, 1, &vec![k("c")], false).unwrap_err().kind, ErrorKind::MissingKey);
    match walk(&stack, 1, &vec![k("c")], true).unwrap() {
        Target::NewEntry(p, key) => {
            assert_eq!(p, place(1, &[]));
            assert_eq!(key, "c");
        }
        other => panic!("{:?}", other),
    }
    assert_eq!(
        walk(&stack, 1, &vec![k("c"), k("d")], true).unwrap_err().kind,
        ErrorKind::MissingKey
    );
    assert_eq!(
        walk(&stack, 1, &vec![k("b"), k("d")], true).unwrap_err().kind,
        ErrorKind::ExpectedContainer
    );
    assert_eq!(
        walk(&stack, 5, &vec![k("b")], false).unwrap_err().kind,
        ErrorKind::DanglingReference
    );
}

#[test]
fn an_item_leaves_a_reference_a_copy_or_a_handle() {
    let frames = vec![("main".to_string(), 0, 0)];
    let locals = vec![("n".to_string(), 0), ("o".to_string(), 1)];
    let start = || vec![num(7.0), object(vec![("a", Variable::StackRef(0))]), text("bracket")];
    let k = |t: &str| Segment::Key(t.to_string());

    let mut stack = start();
    emit_item(&mut stack, &locals, &frames, &"n".to_string(), &vec![], Side::Right, 2, 10).unwrap();
    assert_eq!(stack, vec![start().remove(0), start().remove(1), Variable::StackRef(0)]);

    let mut stack = start();
    emit_item(&mut stack, &locals, &frames, &"o".to_string(), &vec![k("a")], Side::Right, 2, 10).unwrap();
    assert_eq!(stack[2], num(7.0));
    assert_eq!(stack.len(), 3);

    let mut stack = start();
    emit_item(&mut stack, &locals, &frames, &"o".to_string(), &vec![k("a")], Side::LeftInsert(false), 2, 10)
        .unwrap();
    assert_eq!(stack[2], Variable::RawRef(place(1, &[0])));

    let mut stack = start();
    emit_item(&mut stack, &locals, &frames, &"o".to_string(), &vec![k("b")], Side::LeftInsert(true), 2, 10)
        .unwrap();
    assert_eq!(stack[2], Variable::RawRef(place(1, &[1])));
    assert_eq!(stack[1], object(vec![("a", Variable::StackRef(0)), ("b", Variable::Return)]));

    let mut stack = start();
    let e = emit_item(&mut stack, &locals, &frames, &"o".to_string(), &vec![k("b")], Side::LeftInsert(false), 2, 10);
    assert_eq!(e.unwrap_err().kind, ErrorKind::MissingKey);
    let e = emit_item(&mut stack, &locals, &frames, &"x".to_string(), &vec![], Side::Right, 2, 10);
    assert_eq!(e.unwrap_err().kind, ErrorKind::UnknownLocal);
    let e = emit_item(&mut stack, &locals, &vec![], &"n".to_string(), &vec![], Side::Right, 2, 10);
    assert_eq!(e.unwrap_err().kind, ErrorKind::NoFrame);
    let e = emit_item(&mut stack, &locals, &vec![("f".to_string(), 0, 1)], &"n".to_string(), &vec![], Side::Right, 2, 10);
    assert_eq!(e.unwrap_err().kind, ErrorKind::UnknownLocal);
}

#[test]
fn canonical_forms() {
    let t = |s: &str| Piece::Text(s.to_string());
    assert_eq!(pieces(&text("a b")).unwrap(), vec![t("a b")]);
    assert_eq!(pieces(&num(1.5)).unwrap(), vec![Piece::Number(1.5f64.to_bits())]);
    assert_eq!(pieces(&Variable::Bool(false)).unwrap(), vec![t("false")]);
    assert_eq!(pieces(&Variable::Array(vec![])).unwrap(), vec![t("["), t("]")]);
    assert_eq!(
        pieces(&Variable::Array(vec![num(1.0), text("x")])).unwrap(),
        vec![t("["), Piece::Number(1.0f64.to_bits()), t(", "), t("x"), t("]")]
    );
    assert_eq!(
        pieces(&object(vec![("k", Variable::Bool(true)), ("l", object(vec![]))])).unwrap(),
        vec![t("{"), t("k"), t(": "), t("true"), t(", "), t("l"), t(": "), t("{"), t("}"), t("}")]
    );
    assert_eq!(pieces(&Variable::Return).unwrap_err().kind, ErrorKind::NotPrintable);
    assert_eq!(pieces(&Variable::StackRef(0)).unwrap_err().kind, ErrorKind::NotPrintable);
    assert_eq!(
        pieces(&Variable::Array(vec![num(1.0), Variable::RawRef(place(0, &[]))])).unwrap_err().kind,
        ErrorKind::NotPrintable
    );
}

#[test]
fn pieces_are_written_in_their_order() {
    let mut h = host();
    emit(&mut h, &pieces(&Variable::Array(vec![num(0.5), text("x")])).unwrap());
    assert_eq!(h.host.written, "[0.5, x]");
}

#[test]
fn values_are_compared() {
    let ops = [
        CompareOp::Less,
        CompareOp::LessOrEqual,
        CompareOp::Greater,
        CompareOp::GreaterOrEqual,
        CompareOp::Equal,
        CompareOp::NotEqual,
    ];
    let expected_numbers = [true, true, false, false, false, true];
    let expected_texts = [false, true, false, true, true, false];
    for (i, op) in ops.iter().enumerate() {
        assert_eq!(compare_values(*op, &num(1.0), &num(2.0)).unwrap(), expected_numbers[i]);
        assert_eq!(compare_values(*op, &text("b"), &text("b")).unwrap(), expected_texts[i]);
        assert_eq!(
            compare_values(*op, &num(1.0), &text("b")).unwrap_err().kind,
            ErrorKind::InvalidOperands
        );
    }
    assert!(compare_values(CompareOp::Equal, &Variable::Bool(true), &Variable::Bool(true)).unwrap());
    assert!(compare_values(CompareOp::NotEqual, &Variable::Bool(true), &Variable::Bool(false)).unwrap());
    assert_eq!(
        compare_values(CompareOp::Greater, &Variable::Bool(true), &Variable::Bool(false))
            .unwrap_err()
            .kind,
        ErrorKind::InvalidOperator
    );
    let t = |x: &str| x.to_string();
    assert!(compare_texts(CompareOp::Less, &t("a"), &t("ab")));
    assert!(compare_texts(CompareOp::Less, &t("Z"), &t("a")));
    assert!(compare_texts(CompareOp::Less, &t("z"), &t("\u{e9}")));
    assert!(!compare_texts(CompareOp::Less, &t(""), &t("")));
    assert!(compare_texts(CompareOp::Greater, &t("b"), &t("a\u{10000}")));
    assert_eq!(joined("ab", "cd"), "abcd");
}

#[test]
fn operators_are_planned_before_the_host_is_asked() {
    match plan_binop(BinOp::Rem, &num(7.0), &num(4.0)).unwrap() {
        Plan::Arithmetic(BinOp::Rem, a, b) => {
            assert_eq!((a, b), (7.0f64.to_bits(), 4.0f64.to_bits()));
        }
        other => panic!("{:?}", other),
    }
    match plan_binop(BinOp::Add, &text("a"), &text("b")).unwrap() {
        Plan::Value(v) => assert_eq!(v, text("ab")),
        other => panic!("{:?}", other),
    }
    match plan_binop(BinOp::Sub, &Variable::Bool(true), &Variable::Bool(false)).unwrap() {
        Plan::Value(v) => assert_eq!(v, Variable::Bool(true)),
        other => panic!("{:?}", other),
    }
    assert_eq!(
        plan_binop(BinOp::Rem, &Variable::Bool(true), &Variable::Bool(false)).unwrap_err().kind,
        ErrorKind::InvalidOperator
    );
    let mut h = host();
    assert_eq!(carry_out(&mut h, Plan::Arithmetic(BinOp::Pow, 2.0f64.to_bits(), 10.0f64.to_bits())), num(1024.0));
    assert_eq!(carry_out(&mut h, Plan::Value(text("kept"))), text("kept"));
    assert_eq!(unop_value(UnOp::Neg, &Variable::Bool(false)).unwrap(), Variable::Bool(true));
    assert_eq!(unop_value(UnOp::Neg, &text("x")).unwrap_err().kind, ErrorKind::ExpectedBool);
}

#[test]
fn assignments_are_decided_by_the_types() {
    let value_of = |plan: Plan| match plan {
        Plan::Value(v) => v,
        other => panic!("{:?}", other),
    };
    assert_eq!(value_of(assign_value(AssignOp::Store, &num(1.0), &num(2.0)).unwrap()), num(2.0));
    assert_eq!(value_of(assign_value(AssignOp::Store, &Variable::Return, &text("t")).unwrap()), text("t"));
    assert_eq!(value_of(assign_value(AssignOp::Add, &text("a"), &text("b")).unwrap()), text("ab"));
    match assign_value(AssignOp::Div, &num(1.0), &num(2.0)).unwrap() {
        Plan::Arithmetic(BinOp::Div, a, b) => assert_eq!((a, b), (1.0f64.to_bits(), 2.0f64.to_bits())),
        other => panic!("{:?}", other),
    }
    let kind = |r: Result<Plan, dyon::error::Error>| r.unwrap_err().kind;
    assert_eq!(kind(assign_value(AssignOp::Add, &Variable::Return, &num(1.0))), ErrorKind::ReturnHasNoValue);
    assert_eq!(kind(assign_value(AssignOp::Sub, &text("a"), &text("b"))), ErrorKind::UnsupportedAssign);
    assert_eq!(kind(assign_value(AssignOp::Store, &num(1.0), &Variable::Return)), ErrorKind::UnsupportedAssign);
    assert_eq!(kind(assign_value(AssignOp::Declare, &num(1.0), &num(1.0))), ErrorKind::UnsupportedAssign);
    assert_eq!(kind(assign_value(AssignOp::Store, &Variable::Array(vec![]), &object(vec![]))), ErrorKind::AssignToObject);
}

#[test]
fn an_assignment_through_a_handle_copies_what_the_slot_refers_to_first() {
    let mut h = host();
    let mut stack = vec![num(5.0), Variable::Array(vec![Variable::StackRef(0)])];
    commit(&mut h, &mut stack, AssignOp::Add, Variable::RawRef(place(1, &[0])), num(2.0)).unwrap();
    assert_eq!(stack, vec![num(5.0), Variable::Array(vec![num(7.0)])]);

    commit(&mut h, &mut stack, AssignOp::Store, Variable::StackRef(0), Variable::StackRef(1)).unwrap_err();
    let mut stack = vec![Variable::Array(vec![num(1.0)]), Variable::Array(vec![])];
    commit(&mut h, &mut stack, AssignOp::Store, Variable::StackRef(1), Variable::StackRef(0)).unwrap();
    assert_eq!(stack[1], Variable::Array(vec![num(1.0)]));
    commit(&mut h, &mut stack, AssignOp::Store, Variable::StackRef(0), Variable::StackRef(0)).unwrap();
    assert_eq!(stack[0], Variable::Array(vec![num(1.0)]));
    let e = commit(&mut h, &mut stack, AssignOp::Store, num(1.0), num(1.0)).unwrap_err();
    assert_eq!(e.kind, ErrorKind::ExpectedReference);
    let e = commit(&mut h, &mut stack, AssignOp::Store, Variable::StackRef(9), num(1.0)).unwrap_err();
    assert_eq!(e.kind, ErrorKind::DanglingReference);
}

#[test]
fn a_loop_reacts_to_the_flow_of_its_body() {
    let own = Some("own".to_string());
    let flow_of = |r: Reaction| match r {
        Reaction::Next => None,
        Reaction::Leave(f) => Some(f),
    };
    assert!(flow_of(react(&own, Flow::Continue)).is_none());
    assert!(flow_of(react(&own, Flow::ContinueLoop(None))).is_none());
    assert!(flow_of(react(&own, Flow::ContinueLoop(Some("own".to_string())))).is_none());
    assert!(matches!(flow_of(react(&own, Flow::Break(None))), Some(Flow::Continue)));
    assert!(matches!(flow_of(react(&own, Flow::Break(Some("own".to_string())))), Some(Flow::Continue)));
    assert!(matches!(flow_of(react(&own, Flow::Return)), Some(Flow::Return)));
    match flow_of(react(&own, Flow::Break(Some("other".to_string())))) {
        Some(Flow::Break(Some(l))) => assert_eq!(l, "other"),
        _ => panic!("the break is handed on"),
    }
    match flow_of(react(&None, Flow::ContinueLoop(Some("other".to_string())))) {
        Some(Flow::ContinueLoop(Some(l))) => assert_eq!(l, "other"),
        _ => panic!("the continue is handed on"),
    }
}

#[test]
fn a_call_ends_with_or_without_a_value() {
    assert_eq!(finish_call(true, Expect::Nothing, Some(&num(1.0))).unwrap(), Expect::Something);
    assert_eq!(finish_call(true, Expect::Something, Some(&num(1.0))).unwrap(), Expect::Something);
    assert_eq!(finish_call(false, Expect::Nothing, Some(&num(1.0))).unwrap(), Expect::Nothing);
    assert_eq!(finish_call(false, Expect::Nothing, None).unwrap(), Expect::Nothing);
    assert_eq!(
        finish_call(true, Expect::Nothing, Some(&Variable::Return)).unwrap_err().kind,
        ErrorKind::NoReturnValue
    );
    assert_eq!(finish_call(true, Expect::Nothing, None).unwrap_err().kind, ErrorKind::EmptyStack);
    assert_eq!(
        finish_call(false, Expect::Something, Some(&num(1.0))).unwrap_err().kind,
        ErrorKind::UnexpectedReturnValue
    );
}

#[test]
fn built_in_procedures_are_found_by_name() {
    let names = [
        ("clone", Builtin::Clone, 1, true),
        ("print", Builtin::Print, 1, false),
        ("println", Builtin::Println, 1, false),
        ("sqrt", Builtin::Math(Unary::Sqrt), 1, true),
        ("sin", Builtin::Math(Unary::Sin), 1, true),
        ("cos", Builtin::Math(Unary::Cos), 1, true),
        ("tan", Builtin::Math(Unary::Tan), 1, true),
        ("asin", Builtin::Math(Unary::Asin), 1, true),
        ("acos", Builtin::Math(Unary::Acos), 1, true),
        ("atan", Builtin::Math(Unary::Atan), 1, true),
        ("exp", Builtin::Math(Unary::Exp), 1, true),
        ("ln", Builtin::Math(Unary::Ln), 1, true),
        ("log2", Builtin::Math(Unary::Log2), 1, true),
        ("log10", Builtin::Math(Unary::Log10), 1, true),
        ("round", Builtin::Math(Unary::Round), 1, true),
        ("sleep", Builtin::Sleep, 1, false),
        ("random", Builtin::Random, 0, true),
        ("len", Builtin::Len, 1, true),
        ("read_line", Builtin::ReadLine, 0, true),
        ("read_number", Builtin::ReadNumber, 1, true),
        ("trim_right", Builtin::TrimRight, 1, true),
        ("to_string", Builtin::ToString, 1, true),
        ("debug", Builtin::Debug, 0, false),
        ("backtrace", Builtin::Backtrace, 0, false),
    ];
    for (name, expected, arity, yields) in names {
        let b = builtin(&name.to_string()).unwrap();
        assert_eq!(b, expected);
        assert_eq!(b.argument_count(), arity);
        assert_eq!(b.yields(), yields);
    }
    assert_eq!(builtin(&"Clone".to_string()), None);
    assert_eq!(builtin(&String::new()), None);
}

#[test]
fn functions_are_found_by_name() {
    let f = |name: &str| Function {
        name: name.to_string(),
        args: vec![Arg { name: "x".to_string() }],
        block: Block { expressions: vec![] },
        returns: false,
    };
    let (a, b, c) = (f("a"), f("b"), f("a"));
    let functions = vec![&a, &b, &c];
    assert_eq!(find_function(&functions, &"a".to_string()), Some(2));
    assert_eq!(find_function(&functions, &"b".to_string()), Some(1));
    assert_eq!(find_function(&functions, &"c".to_string()), None);
}

#[test]
fn dumps_show_the_stacks() {
    let t = |s: &str| Piece::Text(s.to_string());
    let form = dump(&vec![num(1.0), Variable::StackRef(0)], &vec![("a".to_string(), 1)]);
    assert_eq!(
        form,
        vec![
            t("Stack\n"),
            t("  "),
            Piece::Number(1.0f64.to_bits()),
            t("\n"),
            t("  "),
            t("..."),
            t("\n"),
            t("Locals\n"),
            t("  "),
            t("a"),
            t(": "),
            Piece::Number(1.0f64.to_bits()),
            t("\n"),
        ]
    );
    assert_eq!(
        trace(&vec![("main".to_string(), 0, 0), ("f".to_string(), 2, 1)]),
        vec![t("main"), t("\n"), t("f"), t("\n")]
    );
}

#[test]
fn white_space_is_what_unicode_says() {
    let mut h = host();
    let mut rng = rand::thread_rng();
    let mut budget = 100;
    let mut trimmed = |t: &str| {
        match apply(&mut h, &mut rng, &vec![], &vec![], &vec![], &mut budget, Builtin::TrimRight, Some(text(t))) {
            Ok(Some(Variable::Text(r))) => r,
            other => panic!("{:?}", other),
        }
    };
    assert_eq!(trimmed("x \t\n\u{b}\u{c}\r"), "x");
    assert_eq!(trimmed("x\u{85}\u{a0}\u{1680}\u{2000}\u{200a}\u{2028}\u{2029}\u{202f}\u{205f}\u{3000}"), "x");
    assert_eq!(trimmed("x\u{200b}"), "x\u{200b}");
    assert_eq!(trimmed("x\u{1c}"), "x\u{1c}");
    assert_eq!(trimmed(" x"), " x");
    assert_eq!(trimmed("  "), "");
    assert_eq!(trimmed(""), "");
}

#[test]
fn a_built_in_procedure_answers_its_argument() {
    let mut h = host();
    let mut rng = rand::thread_rng();
    let stack = vec![Variable::Array(vec![num(1.0), num(2.0)]), text("  x \t")];
    let mut budget = 100;
    let mut ask = |b: Builtin, arg: Option<Variable>| {
        apply(&mut h, &mut rng, &stack, &vec![], &vec![], &mut budget, b, arg)
    };
    assert_eq!(ask(Builtin::Len, Some(Variable::StackRef(0))).unwrap(), Some(num(2.0)));
    assert_eq!(ask(Builtin::TrimRight, Some(Variable::StackRef(1))).unwrap(), Some(text("  x")));
    assert_eq!(ask(Builtin::ToString, Some(num(2.5))).unwrap(), Some(text("2.5")));
    assert_eq!(ask(Builtin::Math(Unary::Sqrt), Some(num(9.0))).unwrap(), Some(num(3.0)));
    assert_eq!(
        ask(Builtin::Clone, Some(Variable::StackRef(0))).unwrap(),
        Some(Variable::Array(vec![num(1.0), num(2.0)]))
    );
    assert_eq!(ask(Builtin::Sleep, Some(num(0.0))).unwrap(), None);
    assert_eq!(ask(Builtin::Sleep, Some(num(-0.0))).unwrap(), None);
    assert_eq!(ask(Builtin::Sleep, Some(num(f64::NAN))).unwrap_err().kind, ErrorKind::InvalidDuration);
    assert_eq!(ask(Builtin::Len, None).unwrap_err().kind, ErrorKind::EmptyStack);
    assert_eq!(ask(Builtin::ReadLine, None).unwrap_err().kind, ErrorKind::Io);
    assert_eq!(ask(Builtin::ReadNumber, Some(text("again"))).unwrap_err().kind, ErrorKind::Io);
    assert_eq!(ask(Builtin::Print, Some(Variable::Return)).unwrap_err().kind, ErrorKind::NotPrintable);
}

#[test]
fn a_count_is_written_in_decimal_digits() {
    assert_eq!(dyon::text::decimal_text(0), "0");
    assert_eq!(dyon::text::decimal_text(7), "7");
    assert_eq!(dyon::text::decimal_text(10), "10");
    assert_eq!(dyon::text::decimal_text(4096), "4096");
    assert_eq!(dyon::text::decimal_text(1234567890), "1234567890");
    assert_eq!(
        dyon::text::arity_text(&"len".to_string(), 1, 12),
        "len: expected 1 arguments but found 12"
    );
}
