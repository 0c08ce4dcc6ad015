use irgen::node::Node;
use irgen::setting::CodeGenStatus;
use irgen::token::Value;
use irgen::tree2code::{generate, Lowered};

fn ident(name: &str) -> Value {
    Value::Ident(name.to_string())
}

// The tree that `return a(1,2);` parses to.
fn return_call_program() -> Box<Node> {
    Node::program(vec![Node::return_node(Node::call(
        Node::value(ident("a")),
        vec![Node::value(Value::Number(1)), Node::value(Value::Number(2))],
    ))])
}

#[test]
fn test() {
    let ast = return_call_program();
    println!("{:#?}", ast);
    let mut cgs = CodeGenStatus::new();
    let r = generate(ast, &mut cgs);
    assert_eq!(r, Ok(Lowered::NoValue));
}

#[test]
fn return_call_lines() {
    let mut cgs = CodeGenStatus::new();
    generate(return_call_program(), &mut cgs).unwrap();
    assert_eq!(
        cgs.lines(),
        vec![
            "%tmp1 = add i32 0, 1".to_string(),
            "%tmp2 = add i32 0, 2".to_string(),
            "%tmp0 = call i32 @a(i32 noundef %tmp1, i32 noundef %tmp2)".to_string(),
            "ret i32 %tmp0".to_string(),
        ]
    );
    assert!(cgs.lines().iter().all(|l| !l.contains("alloca")));
}
