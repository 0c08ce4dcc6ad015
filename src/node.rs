//! The syntax tree handed to the code generator.

use vstd::prelude::*;
use crate::token::{ExprSymbol, Value};

verus! {

#[derive(Debug, PartialEq)]
pub struct Expr {
    pub op: ExprSymbol,
    pub lhs: Box<Node>,
    pub rhs: Box<Node>,
}

#[derive(Debug, PartialEq)]
pub struct Call {
    pub callee: Box<Node>,
    pub arguments: Vec<Box<Node>>,
}

#[derive(Debug, PartialEq)]
pub struct If {
    pub condition: Box<Node>,
    pub then_branch: Box<Node>,
    pub else_branch: Option<Box<Node>>,
}

#[derive(Debug, PartialEq)]
pub struct While {
    pub condition: Box<Node>,
    pub body: Box<Node>,
}

#[derive(Debug, PartialEq)]
pub struct For {
    pub initializer: Option<Box<Node>>,
    pub condition: Box<Node>,
    pub updater: Option<Box<Node>>,
    pub body: Box<Node>,
}

#[derive(Debug, PartialEq)]
pub struct Return {
    pub value: Box<Node>,
}

#[derive(Debug, PartialEq)]
pub enum Control {
    If(If),
    While(While),
    For(For),
    Return(Return),
}

#[derive(Debug, PartialEq)]
pub struct Function {
    pub name: Value,
    pub arguments: Vec<Value>,
    pub body: Box<Node>,
}

#[derive(Debug, PartialEq)]
pub struct Program {
    pub statements: Vec<Box<Node>>,
}

#[derive(Debug, PartialEq)]
pub enum Node {
    Value(Value),
    Call(Call),
    Expr(Expr),
    Control(Control),
    Function(Function),
    Program(Program),
}

impl Node {
    pub fn value(val: Value) -> (r: Box<Self>)
        ensures
            *r == Node::Value(val),
    {
        Box::new(Node::Value(val))
    }

    pub fn expr(op: ExprSymbol, lhs: Box<Node>, rhs: Box<Node>) -> (r: Box<Self>)
        ensures
            *r == Node::Expr(Expr { op, lhs, rhs }),
    {
        Box::new(Node::Expr(Expr { op, lhs, rhs }))
    }

    pub fn call(callee: Box<Node>, arguments: Vec<Box<Node>>) -> (r: Box<Self>)
        ensures
            *r == Node::Call(Call { callee, arguments }),
    {
        Box::new(Node::Call(Call { callee, arguments }))
    }

    pub fn return_node(val: Box<Node>) -> (r: Box<Self>)
        ensures
            *r == Node::Control(Control::Return(Return { value: val })),
    {
        Box::new(Node::Control(Control::Return(Return { value: val })))
    }

    pub fn if_node(cond: Box<Node>, then_branch: Box<Node>, else_branch: Option<Box<Node>>) -> (r:
        Box<Self>)
        ensures
            *r == Node::Control(
                Control::If(If { condition: cond, then_branch, else_branch }),
            ),
    {
        Box::new(Node::Control(Control::If(If { condition: cond, then_branch, else_branch })))
    }

    pub fn while_node(cond: Box<Node>, body: Box<Node>) -> (r: Box<Self>)
        ensures
            *r == Node::Control(Control::While(While { condition: cond, body })),
    {
        Box::new(Node::Control(Control::While(While { condition: cond, body })))
    }

    pub fn for_node(
        init: Option<Box<Node>>,
        cond: Box<Node>,
        update: Option<Box<Node>>,
        body: Box<Node>,
    ) -> (r: Box<Self>)
        ensures
            *r == Node::Control(
                Control::For(
                    For { initializer: init, condition: cond, updater: update, body },
                ),
            ),
    {
        Box::new(
            Node::Control(
                Control::For(For { initializer: init, condition: cond, updater: update, body }),
            ),
        )
    }

    pub fn function(name: Value, arguments: Vec<Value>, body: Box<Node>) -> (r: Box<Self>)
        ensures
            *r == Node::Function(Function { name, arguments, body }),
    {
        Box::new(Node::Function(Function { name, arguments, body }))
    }

    pub fn program(statements: Vec<Box<Node>>) -> (r: Box<Node>)
        ensures
            *r == Node::Program(Program { statements }),
    {
        Box::new(Node::Program(Program { statements }))
    }
}

} // verus!
