use irgen::ir::{Inst, Label};
use irgen::node::Node;
use irgen::setting::{CodeGenStatus, TmpNameGen, Variables};
use irgen::token::{Arithmetic, Comparison, ExprSymbol, Value};
use irgen::tree2code::{generate, GenError, Lowered};

fn id(name: &str) -> Box<Node> {
    Node::value(Value::Ident(name.to_string()))
}

fn num(n: usize) -> Box<Node> {
    Node::value(Value::Number(n))
}

fn assign(name: &str, rhs: Box<Node>) -> Box<Node> {
    Node::expr(ExprSymbol::Assignment, id(name), rhs)
}

fn run(node: Box<Node>) -> (Result<Lowered, GenError>, CodeGenStatus) {
    let mut cgs = CodeGenStatus::new();
    let r = generate(node, &mut cgs);
    (r, cgs)
}

fn lines(cgs: &CodeGenStatus) -> Vec<String> {
    cgs.lines()
}

fn strs(v: &[&str]) -> Vec<String> {
    v.iter().map(|s| s.to_string()).collect()
}

#[test]
fn arithmetic_of_numbers() {
    let cases = [
        (Arithmetic::Add, "add"),
        (Arithmetic::Sub, "sub"),
        (Arithmetic::Mul, "mul"),
        (Arithmetic::Div, "sdiv"),
    ];
    for (op, mnemonic) in cases {
        let (r, cgs) = run(Node::expr(ExprSymbol::Arithmetic(op), num(3), num(4)));
        assert_eq!(r, Ok(Lowered::Reg(2)));
        assert_eq!(
            lines(&cgs),
            vec![
                "%tmp0 = add i32 0, 3".to_string(),
                "%tmp1 = add i32 0, 4".to_string(),
                format!("%tmp2 = {} i32 %tmp0, %tmp1", mnemonic),
            ]
        );
    }
}

#[test]
fn comparison_of_numbers_is_widened() {
    let cases = [
        (Comparison::Eq, "icmp eq"),
        (Comparison::Neq, "icmp ne"),
        (Comparison::Lt, "icmp slt"),
        (Comparison::Le, "icmp sle"),
        (Comparison::Gt, "icmp sgt"),
        (Comparison::Ge, "icmp sge"),
    ];
    for (op, mnemonic) in cases {
        let (r, cgs) = run(Node::expr(ExprSymbol::Comparison(op), num(7), num(0)));
        assert_eq!(r, Ok(Lowered::Reg(3)));
        assert_eq!(
            lines(&cgs),
            vec![
                "%tmp0 = add i32 0, 7".to_string(),
                "%tmp1 = add i32 0, 0".to_string(),
                format!("%tmp2 = {} i32 %tmp0, %tmp1", mnemonic),
                "%tmp3 = zext i1 %tmp2 to i32".to_string(),
            ]
        );
    }
}

#[test]
fn binary_result_is_fresh_after_earlier_names() {
    let mut cgs = CodeGenStatus::new();
    generate(num(1), &mut cgs).unwrap();
    let r = generate(
        Node::expr(ExprSymbol::Arithmetic(Arithmetic::Add), num(5), num(6)),
        &mut cgs,
    );
    assert_eq!(r, Ok(Lowered::Reg(3)));
    assert_eq!(cgs.lines()[3], "%tmp3 = add i32 %tmp1, %tmp2");
}

#[test]
fn names_unique_across_functions() {
    let f = Node::function(
        Value::Ident("f".to_string()),
        vec![Value::Ident("a".to_string()), Value::Ident("b".to_string())],
        Node::return_node(Node::expr(ExprSymbol::Arithmetic(Arithmetic::Add), id("a"), id("b"))),
    );
    let g = Node::function(
        Value::Ident("g".to_string()),
        vec![Value::Ident("a".to_string())],
        Node::program(vec![
            assign("c", num(2)),
            Node::return_node(Node::call(id("f"), vec![id("a"), id("c")])),
        ]),
    );
    let (r, cgs) = run(Node::program(vec![f, g]));
    assert_eq!(r, Ok(Lowered::NoValue));
    let mut defined: Vec<String> = Vec::new();
    for line in lines(&cgs) {
        if line.starts_with('%') {
            defined.push(line.split(' ').next().unwrap().to_string());
        } else if line.starts_with("define") {
            for part in line.split("%").skip(1) {
                let name: String = part.chars().take_while(|c| c.is_alphanumeric()).collect();
                defined.push(format!("%{}", name));
            }
        }
    }
    let mut sorted = defined.clone();
    sorted.sort();
    sorted.dedup();
    assert_eq!(sorted.len(), defined.len());
    assert!(defined.len() >= 10);
}

#[test]
fn function_scope_ends_with_function() {
    let f = Node::function(
        Value::Ident("f".to_string()),
        vec![],
        Node::program(vec![assign("a", num(1))]),
    );
    let g = Node::function(
        Value::Ident("g".to_string()),
        vec![],
        Node::return_node(id("a")),
    );
    let mut cgs = CodeGenStatus::new();
    generate(f, &mut cgs).unwrap();
    assert_eq!(cgs.variables.len(), 0);
    assert_eq!(cgs.variables.get(&"a".to_string()), None);
    generate(g, &mut cgs).unwrap();
    assert_eq!(
        lines(&cgs),
        strs(&[
            "define i32 @f() {",
            "%tmp0 = add i32 0, 1",
            "%tmp1 = alloca i32",
            "store i32 %tmp0, i32* %tmp1",
            "}",
            "define i32 @g() {",
            "%tmp2 = alloca i32",
            "ret i32 %tmp2",
            "}",
        ])
    );
    assert_eq!(cgs.variables.len(), 0);
}

#[test]
fn function_parameters_are_stored() {
    let f = Node::function(
        Value::Ident("id".to_string()),
        vec![Value::Ident("x".to_string())],
        Node::return_node(id("x")),
    );
    let (r, cgs) = run(f);
    assert_eq!(r, Ok(Lowered::NoValue));
    assert_eq!(
        lines(&cgs),
        strs(&[
            "define i32 @id(i32 noundef %tmp0) {",
            "%tmp1 = alloca i32",
            "store i32 %tmp0, i32* %tmp1",
            "%tmp2 = load i32, i32* %tmp1",
            "ret i32 %tmp2",
            "}",
        ])
    );
}

#[test]
fn if_with_both_arms_returning_has_no_merge_label() {
    let node = Node::if_node(
        id("c"),
        Node::return_node(num(1)),
        Some(Node::return_node(num(2))),
    );
    let (r, cgs) = run(node);
    assert_eq!(r, Ok(Lowered::NoValue));
    assert_eq!(
        lines(&cgs),
        strs(&[
            "%tmp0 = alloca i32",
            "%tmp1 = icmp ne i32 %tmp0, 0",
            "br i1 %tmp1, label %iftmp2_true, label %iftmp2_false",
            "iftmp2_true:",
            "%tmp3 = add i32 0, 1",
            "ret i32 %tmp3",
            "iftmp2_false:",
            "%tmp4 = add i32 0, 2",
            "ret i32 %tmp4",
        ])
    );
}

#[test]
fn if_with_open_arms_merges() {
    let node = Node::if_node(num(1), assign("x", num(2)), Some(Node::return_node(num(3))));
    let (_, cgs) = run(node);
    assert_eq!(
        lines(&cgs),
        strs(&[
            "%tmp0 = add i32 0, 1",
            "%tmp1 = icmp ne i32 %tmp0, 0",
            "br i1 %tmp1, label %iftmp2_true, label %iftmp2_false",
            "iftmp2_true:",
            "%tmp3 = add i32 0, 2",
            "%tmp4 = alloca i32",
            "store i32 %tmp3, i32* %tmp4",
            "br label %iftmp2_end",
            "iftmp2_false:",
            "%tmp5 = add i32 0, 3",
            "ret i32 %tmp5",
            "iftmp2_end:",
        ])
    );
}

#[test]
fn if_without_else_falls_through_to_merge() {
    let node = Node::if_node(num(0), Node::return_node(num(1)), None);
    let (_, cgs) = run(node);
    assert_eq!(
        lines(&cgs),
        strs(&[
            "%tmp0 = add i32 0, 0",
            "%tmp1 = icmp ne i32 %tmp0, 0",
            "br i1 %tmp1, label %iftmp2_true, label %iftmp2_false",
            "iftmp2_true:",
            "%tmp3 = add i32 0, 1",
            "ret i32 %tmp3",
            "iftmp2_false:",
            "br label %iftmp2_end",
            "iftmp2_end:",
        ])
    );
}

#[test]
fn while_loop_lines() {
    let node = Node::while_node(id("i"), assign("i", num(0)));
    let (r, cgs) = run(node);
    assert_eq!(r, Ok(Lowered::NoValue));
    assert_eq!(
        lines(&cgs),
        strs(&[
            "br label %begintmp0",
            "begintmp0:",
            "%tmp1 = alloca i32",
            "%tmp2 = icmp ne i32 %tmp1, 0",
            "br i1 %tmp2, label %while_truetmp0, label %endtmp0",
            "while_truetmp0:",
            "%tmp3 = add i32 0, 0",
            "store i32 %tmp3, i32* %tmp1",
            "br label %begintmp0",
            "endtmp0:",
        ])
    );
}

#[test]
fn for_loop_lines() {
    let node = Node::for_node(
        Some(assign("i", num(0))),
        Node::expr(ExprSymbol::Comparison(Comparison::Lt), id("i"), num(3)),
        Some(assign("i", Node::expr(ExprSymbol::Arithmetic(Arithmetic::Add), id("i"), num(1)))),
        Node::call(id("tick"), vec![]),
    );
    let (r, cgs) = run(node);
    assert_eq!(r, Ok(Lowered::NoValue));
    assert_eq!(
        lines(&cgs),
        strs(&[
            "%tmp1 = add i32 0, 0",
            "%tmp2 = alloca i32",
            "store i32 %tmp1, i32* %tmp2",
            "br label %begintmp0",
            "begintmp0:",
            "%tmp3 = load i32, i32* %tmp2",
            "%tmp4 = add i32 0, 3",
            "%tmp5 = icmp slt i32 %tmp3, %tmp4",
            "%tmp6 = zext i1 %tmp5 to i32",
            "%tmp7 = icmp ne i32 %tmp6, 0",
            "br i1 %tmp7, label %for_truetmp0, label %endtmp0",
            "for_truetmp0:",
            "%tmp8 = load i32, i32* %tmp2",
            "%tmp9 = add i32 0, 1",
            "%tmp10 = add i32 %tmp8, %tmp9",
            "store i32 %tmp10, i32* %tmp2",
            "%tmp11 = call i32 @tick()",
            "br label %begintmp0",
            "endtmp0:",
        ])
    );
}

#[test]
fn uninitialized_read_allocates_without_store() {
    let f = Node::function(
        Value::Ident("f".to_string()),
        vec![],
        Node::program(vec![assign("y", id("x")), Node::return_node(id("x"))]),
    );
    let (r, cgs) = run(f);
    assert_eq!(r, Ok(Lowered::NoValue));
    let out = lines(&cgs);
    assert_eq!(
        out,
        strs(&[
            "define i32 @f() {",
            "%tmp0 = alloca i32",
            "%tmp1 = alloca i32",
            "store i32 %tmp0, i32* %tmp1",
            "%tmp2 = load i32, i32* %tmp0",
            "ret i32 %tmp2",
            "}",
        ])
    );
    assert!(!out.iter().any(|l| l.ends_with("i32* %tmp0") && l.starts_with("store")));
}

#[test]
fn assignment_returns_storage() {
    let mut cgs = CodeGenStatus::new();
    let first = generate(assign("v", num(1)), &mut cgs);
    let second = generate(assign("v", num(2)), &mut cgs);
    assert_eq!(first, Ok(Lowered::Reg(1)));
    assert_eq!(second, Ok(Lowered::Reg(1)));
    assert_eq!(cgs.variables.get(&"v".to_string()), Some(1));
}

#[test]
fn assignment_to_non_identifier_fails() {
    let (r, _) = run(Node::expr(ExprSymbol::Assignment, num(1), num(2)));
    assert_eq!(r, Err(GenError::AssignTargetNotIdent));
}

#[test]
fn call_of_non_identifier_fails() {
    let (r, _) = run(Node::call(num(3), vec![num(1)]));
    assert_eq!(r, Err(GenError::CalleeNotIdent));
}

#[test]
fn function_name_must_be_identifier() {
    let (r, _) = run(Node::function(Value::Number(1), vec![], num(0)));
    assert_eq!(r, Err(GenError::FunctionNameNotIdent));
}

#[test]
fn function_parameter_must_be_identifier() {
    let (r, _) = run(Node::function(
        Value::Ident("f".to_string()),
        vec![Value::Ident("a".to_string()), Value::Number(2)],
        num(0),
    ));
    assert_eq!(r, Err(GenError::ParameterNotIdent));
}

#[test]
fn non_expression_operator_fails() {
    let (r, _) = run(Node::expr(ExprSymbol::Comma, num(1), num(2)));
    assert_eq!(r, Err(GenError::NotAnExpression));
}

#[test]
fn statement_as_operand_fails() {
    let (r, _) = run(Node::return_node(Node::while_node(num(1), num(2))));
    assert_eq!(r, Err(GenError::MissingValue));
    let (r, _) = run(Node::expr(
        ExprSymbol::Arithmetic(Arithmetic::Add),
        num(1),
        Node::program(vec![]),
    ));
    assert_eq!(r, Err(GenError::MissingValue));
}

#[test]
fn error_inside_program_stops_it() {
    let (r, _) = run(Node::program(vec![num(1), Node::call(num(2), vec![])]));
    assert_eq!(r, Err(GenError::CalleeNotIdent));
}

#[test]
fn return_is_terminated() {
    let (r, cgs) = run(Node::return_node(num(9)));
    assert_eq!(r, Ok(Lowered::Terminated));
    assert_eq!(lines(&cgs), strs(&["%tmp0 = add i32 0, 9", "ret i32 %tmp0"]));
}

#[test]
fn render_each_instruction() {
    assert_eq!(Inst::Const { dst: 12, value: 1234567 }.render(), "%tmp12 = add i32 0, 1234567");
    assert_eq!(Inst::Alloca { dst: 0 }.render(), "%tmp0 = alloca i32");
    assert_eq!(Inst::Load { dst: 3, ptr: 1 }.render(), "%tmp3 = load i32, i32* %tmp1");
    assert_eq!(Inst::Store { src: 3, ptr: 1 }.render(), "store i32 %tmp3, i32* %tmp1");
    assert_eq!(Inst::Widen { dst: 4, src: 3 }.render(), "%tmp4 = zext i1 %tmp3 to i32");
    assert_eq!(Inst::Narrow { dst: 4, src: 3 }.render(), "%tmp4 = icmp ne i32 %tmp3, 0");
    assert_eq!(Inst::Label(Label::IfEnd(7)).render(), "iftmp7_end:");
    assert_eq!(Inst::Br(Label::Begin(100)).render(), "br label %begintmp100");
    assert_eq!(
        Inst::CondBr { cond: 1, on_true: Label::WhileTrue(2), on_false: Label::End(2) }.render(),
        "br i1 %tmp1, label %while_truetmp2, label %endtmp2"
    );
    assert_eq!(Inst::Ret { value: 5 }.render(), "ret i32 %tmp5");
    assert_eq!(
        Inst::Call { dst: 9, callee: "g".to_string(), args: vec![1, 20, 300] }.render(),
        "%tmp9 = call i32 @g(i32 noundef %tmp1, i32 noundef %tmp20, i32 noundef %tmp300)"
    );
    assert_eq!(
        Inst::Define { name: "main".to_string(), params: vec![] }.render(),
        "define i32 @main() {"
    );
    assert_eq!(Inst::Close.render(), "}");
}

#[test]
fn name_generator_counts_up() {
    let mut g = TmpNameGen::new();
    assert_eq!(g.count(), 0);
    let names: Vec<String> = (0..12).map(|_| g.next()).collect();
    assert_eq!(names[0], "tmp0");
    assert_eq!(names[9], "tmp9");
    assert_eq!(names[10], "tmp10");
    assert_eq!(names[11], "tmp11");
    assert_eq!(g.next_index(), 12);
    assert_eq!(g.count(), 13);
}

#[test]
fn variables_bind_and_clear() {
    let mut v = Variables::new();
    assert_eq!(v.len(), 0);
    v.insert("a".to_string(), 3);
    v.insert("b".to_string(), 4);
    v.insert("a".to_string(), 5);
    assert_eq!(v.len(), 2);
    assert_eq!(v.get(&"a".to_string()), Some(5));
    assert_eq!(v.get(&"b".to_string()), Some(4));
    assert_eq!(v.get(&"c".to_string()), None);
    v.clear();
    assert_eq!(v.len(), 0);
    assert_eq!(v.get(&"a".to_string()), None);
}

fn is_terminator(line: &str) -> bool {
    line.starts_with("br ") || line.starts_with("ret ")
}

// Walks the lines of a segment that starts inside an open block; returns
// whether the block is open at the end, or None on a missing or repeated
// terminator.
fn block_flow(lines: &[String]) -> Option<bool> {
    let mut open = true;
    for line in lines {
        if line.ends_with(':') {
            if open {
                return None;
            }
            open = true;
        } else if is_terminator(line) {
            if !open {
                return None;
            }
            open = false;
        } else if !open {
            return None;
        }
    }
    Some(open)
}

#[test]
fn every_block_has_one_terminator() {
    let body = Node::program(vec![
        Node::if_node(
            Node::expr(ExprSymbol::Comparison(Comparison::Gt), id("n"), num(10)),
            Node::return_node(id("n")),
            Some(assign("n", Node::expr(ExprSymbol::Arithmetic(Arithmetic::Mul), id("n"), num(2)))),
        ),
        Node::for_node(
            None,
            id("n"),
            Some(assign("n", num(0))),
            Node::if_node(id("n"), assign("m", num(1)), None),
        ),
    ]);
    let node = Node::while_node(num(1), body);
    let (r, cgs) = run(node);
    assert_eq!(r, Ok(Lowered::NoValue));
    assert_eq!(block_flow(&lines(&cgs)), Some(true));
    let (_, cgs) = run(Node::return_node(num(1)));
    assert_eq!(block_flow(&lines(&cgs)), Some(false));
}

#[test]
fn return_inside_loop_body_closes_the_block() {
    let (r, cgs) = run(Node::while_node(num(1), Node::return_node(num(0))));
    assert_eq!(r, Ok(Lowered::NoValue));
    let out = lines(&cgs);
    assert_eq!(
        out,
        strs(&[
            "br label %begintmp0",
            "begintmp0:",
            "%tmp1 = add i32 0, 1",
            "%tmp2 = icmp ne i32 %tmp1, 0",
            "br i1 %tmp2, label %while_truetmp0, label %endtmp0",
            "while_truetmp0:",
            "%tmp3 = add i32 0, 0",
            "ret i32 %tmp3",
            "endtmp0:",
        ])
    );
    assert_eq!(block_flow(&out), Some(true));
}
