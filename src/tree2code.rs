//! Lowering of the syntax tree into instructions.

use vstd::prelude::*;
use crate::ir::{Inst, InstV, Label, lemma_tmp_name_injective, tmp_name};
use crate::node::{Call, Control, Expr, For, Function, If, Node, Program, Return, While};
use crate::setting::{CodeGenStatus, defines, label_index, places};
use crate::token::{ExprSymbol, Value};

verus! {

/// What lowering a node hands back besides the instructions it emitted.
#[derive(Debug, Clone, Copy, PartialEq, Eq, Structural)]
pub enum Lowered {
    /// The register that holds the node's value.
    Reg(usize),
    /// The node is a statement and has no value.
    NoValue,
    /// The node closed the current block with a return.
    Terminated,
}

/// Why lowering stopped.
#[derive(Debug, Clone, Copy, PartialEq, Eq, Structural)]
pub enum GenError {
    /// The left side of an assignment is not an identifier.
    AssignTargetNotIdent,
    /// A call's callee is not an identifier.
    CalleeNotIdent,
    /// A function's name is not an identifier.
    FunctionNameNotIdent,
    /// A function's parameter is not an identifier.
    ParameterNotIdent,
    /// An expression's operator is neither arithmetic, comparison nor
    /// assignment.
    NotAnExpression,
    /// A node without a value stands where a value is needed.
    MissingValue,
    /// Every temporary name has been handed out.
    OutOfNames,
}

pub open spec fn is_ident(n: Node) -> bool {
    n matches Node::Value(Value::Ident(_))
}

pub open spec fn is_return(n: Node) -> bool {
    n matches Node::Control(Control::Return(_))
}

pub open spec fn is_assignment(n: Node) -> bool {
    n matches Node::Expr(e) && e.op is Assignment
}

/// Whether lowering the node yields a register.
pub open spec fn yields_value(n: Node) -> bool {
    match n {
        Node::Value(_) => true,
        Node::Call(_) => true,
        Node::Expr(e) => e.op is Arithmetic || e.op is Comparison || e.op is Assignment,
        _ => false,
    }
}

/// The node breaks none of the rules that lowering enforces: assignment
/// targets, callees, function names and parameters are identifiers, every
/// operator is an expression operator, and every operand, condition and
/// returned value has a value.
pub open spec fn well_formed(n: Node) -> bool
    decreases n,
{
    match n {
        Node::Value(_) => true,
        Node::Call(c) => is_ident(*c.callee) && forall|i: int|
            0 <= i < c.arguments@.len() ==> yields_value(*#[trigger] c.arguments@[i])
                && well_formed(*c.arguments@[i]),
        Node::Expr(e) => if e.op is Assignment {
            is_ident(*e.lhs) && yields_value(*e.rhs) && well_formed(*e.rhs)
        } else if e.op is Arithmetic || e.op is Comparison {
            yields_value(*e.lhs) && well_formed(*e.lhs) && yields_value(*e.rhs) && well_formed(
                *e.rhs,
            )
        } else {
            false
        },
        Node::Control(Control::If(x)) => yields_value(*x.condition) && well_formed(*x.condition)
            && well_formed(*x.then_branch) && (match x.else_branch {
            Some(b) => well_formed(*b),
            None => true,
        }),
        Node::Control(Control::While(x)) => yields_value(*x.condition) && well_formed(
            *x.condition,
        ) && well_formed(*x.body),
        Node::Control(Control::For(x)) => (match x.initializer {
            Some(b) => well_formed(*b),
            None => true,
        }) && yields_value(*x.condition) && well_formed(*x.condition) && (match x.updater {
            Some(b) => well_formed(*b),
            None => true,
        }) && well_formed(*x.body),
        Node::Control(Control::Return(x)) => yields_value(*x.value) && well_formed(*x.value),
        Node::Function(f) => f.name is Ident && (forall|i: int|
            0 <= i < f.arguments@.len() ==> #[trigger] f.arguments@[i] is Ident) && well_formed(
            *f.body,
        ),
        Node::Program(p) => forall|i: int|
            0 <= i < p.statements@.len() ==> well_formed(*#[trigger] p.statements@[i]),
    }
}

/// An upper bound on the temporaries drawn while lowering `n`.
pub open spec fn name_bound(n: Node) -> nat
    decreases n, 0nat,
{
    match n {
        Node::Value(_) => 1,
        Node::Call(c) => 1 + seq_bound(c.arguments@),
        Node::Expr(e) => name_bound(*e.lhs) + name_bound(*e.rhs) + 2,
        Node::Control(Control::Return(x)) => name_bound(*x.value),
        Node::Control(Control::If(x)) => name_bound(*x.condition) + 2 + name_bound(*x.then_branch)
            + match x.else_branch {
            Some(b) => name_bound(*b),
            None => 0,
        },
        Node::Control(Control::While(x)) => 2 + name_bound(*x.condition) + name_bound(*x.body),
        Node::Control(Control::For(x)) => 2 + name_bound(*x.condition) + name_bound(*x.body)
            + match x.initializer {
            Some(b) => name_bound(*b),
            None => 0,
        } + match x.updater {
            Some(b) => name_bound(*b),
            None => 0,
        },
        Node::Function(f) => 2 * f.arguments@.len() + name_bound(*f.body),
        Node::Program(p) => seq_bound(p.statements@),
    }
}

/// The sum of the bounds of a sequence of nodes.
pub open spec fn seq_bound(s: Seq<Box<Node>>) -> nat
    decreases s, 0nat,
{
    if s.len() == 0 {
        0
    } else {
        seq_bound(s.drop_last()) + name_bound(*s.last())
    }
}

/// The generator state as lowering sees it: the next temporary, the variable
/// table and the emitted code.
pub struct GenModel {
    pub count: nat,
    pub vars: Map<Seq<char>, usize>,
    pub code: Seq<InstV>,
}

pub open spec fn model(st: CodeGenStatus) -> GenModel {
    GenModel { count: st.name_gen@, vars: st.variables@, code: st.code@.map_values(|i: Inst| i@) }
}

pub open spec fn put(g: GenModel, i: InstV) -> GenModel {
    GenModel { count: g.count, vars: g.vars, code: g.code.push(i) }
}

pub open spec fn draw(g: GenModel) -> GenModel {
    GenModel { count: g.count + 1, vars: g.vars, code: g.code }
}

pub open spec fn reg_of(v: Lowered) -> usize {
    match v {
        Lowered::Reg(k) => k,
        _ => 0,
    }
}

/// What lowering `n` from `g` emits and hands back, when it succeeds.
pub open spec fn lower_spec(n: Node, g: GenModel) -> (GenModel, Lowered)
    decreases n, 0nat,
{
    let c = g.count as usize;
    match n {
        Node::Value(Value::Number(v)) => (
            put(draw(g), InstV::Const { dst: c, value: v }),
            Lowered::Reg(c),
        ),
        Node::Value(Value::Ident(x)) => if g.vars.contains_key(x@) {
            (put(draw(g), InstV::Load { dst: c, ptr: g.vars[x@] }), Lowered::Reg(c))
        } else {
            (
                put(GenModel { count: g.count + 1, vars: g.vars.insert(x@, c), code: g.code },
                InstV::Alloca { dst: c }),
                Lowered::Reg(c),
            )
        },
        Node::Expr(e) => match e.op {
            ExprSymbol::Arithmetic(op) => {
                let (g1, l) = lower_spec(*e.lhs, g);
                let (g2, q) = lower_spec(*e.rhs, g1);
                let d = g2.count as usize;
                (
                    put(draw(g2), InstV::Arith { dst: d, op, lhs: reg_of(l), rhs: reg_of(q) }),
                    Lowered::Reg(d),
                )
            },
            ExprSymbol::Comparison(op) => {
                let (g1, l) = lower_spec(*e.lhs, g);
                let (g2, q) = lower_spec(*e.rhs, g1);
                let d = g2.count as usize;
                let w = (g2.count + 1) as usize;
                (
                    put(
                        put(
                            draw(draw(g2)),
                            InstV::Compare { dst: d, op, lhs: reg_of(l), rhs: reg_of(q) },
                        ),
                        InstV::Widen { dst: w, src: d },
                    ),
                    Lowered::Reg(w),
                )
            },
            ExprSymbol::Assignment => match *e.lhs {
                Node::Value(Value::Ident(x)) => {
                    let (g1, q) = lower_spec(*e.rhs, g);
                    if g1.vars.contains_key(x@) {
                        (
                            put(g1, InstV::Store { src: reg_of(q), ptr: g1.vars[x@] }),
                            Lowered::Reg(g1.vars[x@]),
                        )
                    } else {
                        let p = g1.count as usize;
                        (
                            put(
                                put(
                                    GenModel {
                                        count: g1.count + 1,
                                        vars: g1.vars.insert(x@, p),
                                        code: g1.code,
                                    },
                                    InstV::Alloca { dst: p },
                                ),
                                InstV::Store { src: reg_of(q), ptr: p },
                            ),
                            Lowered::Reg(p),
                        )
                    }
                },
                _ => (g, Lowered::NoValue),
            },
            _ => (g, Lowered::NoValue),
        },
        Node::Call(call) => match *call.callee {
            Node::Value(Value::Ident(f)) => {
                let (g1, regs) = lower_args(call.arguments@, draw(g));
                (put(g1, InstV::Call { dst: c, callee: f@, args: regs }), Lowered::Reg(c))
            },
            _ => (g, Lowered::NoValue),
        },
        Node::Control(Control::Return(x)) => {
            let (g1, v) = lower_spec(*x.value, g);
            (put(g1, InstV::Ret { value: reg_of(v) }), Lowered::Terminated)
        },
        Node::Control(Control::If(x)) => {
            let (g1, cv) = lower_spec(*x.condition, g);
            let j = g1.count as usize;
            let k = (g1.count + 1) as usize;
            let g2 = put(
                put(
                    put(draw(draw(g1)), InstV::Narrow { dst: j, src: reg_of(cv) }),
                    InstV::CondBr { cond: j, on_true: Label::IfTrue(k), on_false: Label::IfFalse(k) },
                ),
                InstV::Label(Label::IfTrue(k)),
            );
            let (g3, tv) = lower_spec(*x.then_branch, g2);
            let then_open = tv != Lowered::Terminated;
            let g4 = put(
                if then_open {
                    put(g3, InstV::Br(Label::IfEnd(k)))
                } else {
                    g3
                },
                InstV::Label(Label::IfFalse(k)),
            );
            let (g5, else_open) = match x.else_branch {
                Some(b) => {
                    let (g5, ev) = lower_spec(*b, g4);
                    let open = ev != Lowered::Terminated;
                    (
                        if open {
                            put(g5, InstV::Br(Label::IfEnd(k)))
                        } else {
                            g5
                        },
                        open,
                    )
                },
                None => (put(g4, InstV::Br(Label::IfEnd(k))), true),
            };
            (
                if then_open || else_open {
                    put(g5, InstV::Label(Label::IfEnd(k)))
                } else {
                    g5
                },
                Lowered::NoValue,
            )
        },
        Node::Control(Control::While(x)) => {
            let g1 = put(
                put(draw(g), InstV::Br(Label::Begin(c))),
                InstV::Label(Label::Begin(c)),
            );
            let (g2, cv) = lower_spec(*x.condition, g1);
            let j = g2.count as usize;
            let g3 = put(
                put(
                    put(draw(g2), InstV::Narrow { dst: j, src: reg_of(cv) }),
                    InstV::CondBr { cond: j, on_true: Label::WhileTrue(c), on_false: Label::End(c) },
                ),
                InstV::Label(Label::WhileTrue(c)),
            );
            let (g4, bv) = lower_spec(*x.body, g3);
            let g5 = if bv != Lowered::Terminated {
                put(g4, InstV::Br(Label::Begin(c)))
            } else {
                g4
            };
            (put(g5, InstV::Label(Label::End(c))), Lowered::NoValue)
        },
        Node::Control(Control::For(x)) => {
            let g0 = match x.initializer {
                Some(b) => lower_spec(*b, draw(g)).0,
                None => draw(g),
            };
            let g1 = put(
                put(g0, InstV::Br(Label::Begin(c))),
                InstV::Label(Label::Begin(c)),
            );
            let (g2, cv) = lower_spec(*x.condition, g1);
            let j = g2.count as usize;
            let g3 = put(
                put(
                    put(draw(g2), InstV::Narrow { dst: j, src: reg_of(cv) }),
                    InstV::CondBr { cond: j, on_true: Label::ForTrue(c), on_false: Label::End(c) },
                ),
                InstV::Label(Label::ForTrue(c)),
            );
            let g4 = match x.updater {
                Some(b) => lower_spec(*b, g3).0,
                None => g3,
            };
            let (g5, bv) = lower_spec(*x.body, g4);
            let g6 = if bv != Lowered::Terminated {
                put(g5, InstV::Br(Label::Begin(c)))
            } else {
                g5
            };
            (put(g6, InstV::Label(Label::End(c))), Lowered::NoValue)
        },
        Node::Function(f) => match f.name {
            Value::Ident(name) => {
                let n = f.arguments@.len();
                let params = Seq::new(n, |i: int| (g.count + i) as usize);
                let g1 = put(
                    GenModel { count: g.count + n, vars: g.vars, code: g.code },
                    InstV::Define { name: name@, params },
                );
                let g2 = bind_params(f.arguments@, g.count, g1);
                let (g3, _) = lower_spec(*f.body, g2);
                (
                    GenModel { count: g3.count, vars: Map::empty(), code: g3.code.push(InstV::Close) },
                    Lowered::NoValue,
                )
            },
            _ => (g, Lowered::NoValue),
        },
        Node::Program(p) => (lower_stmts(p.statements@, g), Lowered::NoValue),
    }
}

/// Lowering call arguments in order; hands back their registers.
pub open spec fn lower_args(s: Seq<Box<Node>>, g: GenModel) -> (GenModel, Seq<usize>)
    decreases s, 0nat,
{
    if s.len() == 0 {
        (g, Seq::empty())
    } else {
        let (g1, rs) = lower_args(s.drop_last(), g);
        let (g2, v) = lower_spec(*s.last(), g1);
        (g2, rs.push(reg_of(v)))
    }
}

/// Lowering statements in order.
pub open spec fn lower_stmts(s: Seq<Box<Node>>, g: GenModel) -> GenModel
    decreases s, 0nat,
{
    if s.len() == 0 {
        g
    } else {
        lower_spec(*s.last(), lower_stmts(s.drop_last(), g)).0
    }
}

/// Storage for each parameter: an alloca, a store of the incoming value
/// (register `first + i`), and the binding.
pub open spec fn bind_params(args: Seq<Value>, first: nat, g: GenModel) -> GenModel
    decreases args.len(),
{
    if args.len() == 0 {
        g
    } else {
        let g1 = bind_params(args.drop_last(), first, g);
        let p = g1.count as usize;
        let i = args.len() - 1;
        let vars = match args.last() {
            Value::Ident(x) => g1.vars.insert(x@, p),
            _ => g1.vars,
        };
        put(
            put(GenModel { count: g1.count + 1, vars, code: g1.code }, InstV::Alloca { dst: p }),
            InstV::Store { src: (first + i) as usize, ptr: p },
        )
    }
}

/// A successful lowering emits exactly what `lower_spec` says.
pub open spec fn exact_post(
    n: Node,
    before: CodeGenStatus,
    after: CodeGenStatus,
    r: Result<Lowered, GenError>,
) -> bool {
    r matches Ok(v) ==> lower_spec(n, model(before)) == (model(after), v)
}

/// `after` continues `before`: the emitted code only grew, the name supply
/// only advanced, and every register defined since was drawn since.
pub open spec fn extends(before: CodeGenStatus, after: CodeGenStatus) -> bool {
    &&& before.name_gen@ <= after.name_gen@
    &&& before.code@.len() <= after.code@.len()
    &&& forall|i: int| 0 <= i < before.code@.len() ==> after.code@[i] == before.code@[i]
    &&& forall|i: int, k: usize|
        before.code@.len() <= i < after.code@.len() && #[trigger] defines(after.code@[i], k)
            ==> before.name_gen@ <= k
    &&& forall|i: int, l: Label|
        before.code@.len() <= i < after.code@.len() && #[trigger] places(after.code@[i], l)
            ==> before.name_gen@ <= label_index(l)
}

proof fn lemma_extends_trans(a: CodeGenStatus, b: CodeGenStatus, c: CodeGenStatus)
    requires
        extends(a, b),
        extends(b, c),
    ensures
        extends(a, c),
{
    assert forall|i: int, k: usize|
        a.code@.len() <= i < c.code@.len() && #[trigger] defines(c.code@[i], k) implies a.name_gen@
        <= k by {
        if i < b.code@.len() {
            assert(defines(b.code@[i], k));
        }
    }
    assert forall|i: int, l: Label|
        a.code@.len() <= i < c.code@.len() && #[trigger] places(c.code@[i], l) implies a.name_gen@
        <= label_index(l) by {
        if i < b.code@.len() {
            assert(places(b.code@[i], l));
        }
    }
}

proof fn lemma_bad_statement(p: Program, i: int)
    requires
        0 <= i < p.statements@.len(),
        !well_formed(*p.statements@[i]),
    ensures
        !well_formed(Node::Program(p)),
{
    let n = Node::Program(p);
    assert(decreases_to!(n->Program_0 => n->Program_0.statements));
}

proof fn lemma_safe_statement(p: Program, i: int)
    requires
        0 <= i < p.statements@.len(),
        block_safe(Node::Program(p)),
    ensures
        block_safe(*p.statements@[i]),
        !is_return(*p.statements@[i]),
{
    let n = Node::Program(p);
    assert(decreases_to!(n->Program_0 => n->Program_0.statements));
}

proof fn lemma_seq_bound_step(s: Seq<Box<Node>>, i: int)
    requires
        0 <= i < s.len(),
    ensures
        seq_bound(s.subrange(0, i + 1)) == seq_bound(s.subrange(0, i)) + name_bound(*s[i]),
{
    let t = s.subrange(0, i + 1);
    assert(t.drop_last() =~= s.subrange(0, i));
    assert(t.last() == s[i]);
}

proof fn lemma_seq_bound_prefix_le(s: Seq<Box<Node>>, j: int)
    requires
        0 <= j <= s.len(),
    ensures
        seq_bound(s.subrange(0, j)) <= seq_bound(s),
    decreases s.len() - j,
{
    if j == s.len() {
        assert(s.subrange(0, j) =~= s);
    } else {
        lemma_seq_bound_step(s, j);
        lemma_seq_bound_prefix_le(s, j + 1);
    }
}

proof fn lemma_seq_bound_all(s: Seq<Box<Node>>)
    ensures
        seq_bound(s.subrange(0, s.len() as int)) == seq_bound(s),
        seq_bound(s.subrange(0, 0)) == 0,
{
    assert(s.subrange(0, s.len() as int) =~= s);
}

proof fn lemma_call_bound(c: Call)
    ensures
        name_bound(Node::Call(c)) == 1 + seq_bound(c.arguments@),
{
    let n = Node::Call(c);
    assert(decreases_to!(n->Call_0 => n->Call_0.arguments));
}

proof fn lemma_program_bound(p: Program)
    ensures
        name_bound(Node::Program(p)) == seq_bound(p.statements@),
{
    let n = Node::Program(p);
    assert(decreases_to!(n->Program_0 => n->Program_0.statements));
}

proof fn lemma_lower_args_step(s: Seq<Box<Node>>, i: int, g: GenModel)
    requires
        0 <= i < s.len(),
    ensures
        lower_args(s.subrange(0, i + 1), g) == ({
            let (g1, rs) = lower_args(s.subrange(0, i), g);
            let (g2, v) = lower_spec(*s[i], g1);
            (g2, rs.push(reg_of(v)))
        }),
        lower_stmts(s.subrange(0, i + 1), g) == lower_spec(*s[i], lower_stmts(s.subrange(0, i), g)).0,
{
    let t = s.subrange(0, i + 1);
    assert(t.drop_last() =~= s.subrange(0, i));
    assert(t.last() == s[i]);
}

proof fn lemma_call_spec(c: Call, g: GenModel)
    ensures
        *c.callee matches Node::Value(Value::Ident(f)) ==> lower_spec(Node::Call(c), g) == ({
            let (g1, regs) = lower_args(c.arguments@, draw(g));
            (
                put(g1, InstV::Call { dst: g.count as usize, callee: f@, args: regs }),
                Lowered::Reg(g.count as usize),
            )
        }),
{
    let n = Node::Call(c);
    assert(decreases_to!(n->Call_0 => n->Call_0.arguments));
}

proof fn lemma_program_spec(p: Program, g: GenModel)
    ensures
        lower_spec(Node::Program(p), g) == (lower_stmts(p.statements@, g), Lowered::NoValue),
{
    let n = Node::Program(p);
    assert(decreases_to!(n->Program_0 => n->Program_0.statements));
}

proof fn lemma_bad_parameter(f: Function, i: int)
    requires
        0 <= i < f.arguments@.len(),
        !(f.arguments@[i] is Ident),
    ensures
        !well_formed(Node::Function(f)),
{
}

proof fn lemma_plain_trans(a: CodeGenStatus, b: CodeGenStatus, c: CodeGenStatus)
    requires
        extends(a, b),
        extends(b, c),
        plain_from(b.code@, a.code@.len() as int),
        plain_from(c.code@, b.code@.len() as int),
    ensures
        plain_from(c.code@, a.code@.len() as int),
{
    assert forall|i: int| a.code@.len() <= i < c.code@.len() implies is_plain(#[trigger] c.code@[i]) by {
        if i < b.code@.len() {
            assert(c.code@[i] == b.code@[i]);
        }
    }
}

/// Draws a fresh temporary index.
fn fresh(st: &mut CodeGenStatus) -> (r: Result<usize, GenError>)
    requires
        old(st).wf(),
    ensures
        final(st).wf(),
        final(st).code == old(st).code,
        final(st).variables == old(st).variables,
        match r {
            Ok(k) => k == old(st).name_gen@ && final(st).name_gen@ == old(st).name_gen@ + 1,
            Err(e) => e == GenError::OutOfNames && old(st).name_gen@ == usize::MAX && *final(st)
                == *old(st),
        },
        extends(*old(st), *final(st)),
        r is Ok ==> model(*final(st)) == draw(model(*old(st))),
{
    if st.name_gen.count() == usize::MAX {
        return Err(GenError::OutOfNames);
    }
    Ok(st.name_gen.next_index())
}

/// Appends one instruction whose registers were drawn and are not yet
/// defined.
fn emit(st: &mut CodeGenStatus, inst: Inst)
    requires
        old(st).wf(),
        forall|k: usize|
            #[trigger] defines(inst, k) ==> k < old(st).name_gen@ && forall|i: int|
                0 <= i < old(st).code@.len() ==> !defines(old(st).code@[i], k),
        inst matches Inst::Define { params, .. } ==> params@.no_duplicates(),
        forall|l: Label|
            #[trigger] places(inst, l) ==> label_index(l) < old(st).name_gen@ && forall|i: int|
                0 <= i < old(st).code@.len() ==> !places(old(st).code@[i], l),
    ensures
        final(st).wf(),
        final(st).code@ == old(st).code@.push(inst),
        final(st).name_gen == old(st).name_gen,
        final(st).variables == old(st).variables,
        ((forall|k: usize| !defines(inst, k)) && !(inst is Label)) ==> extends(*old(st), *final(st)),
        model(*final(st)) == put(model(*old(st)), inst@),
{
    let ghost i = inst@;
    st.code.push(inst);
    assert(st.code@.map_values(|i: Inst| i@) =~= old(st).code@.map_values(|i: Inst| i@).push(i));
}

/// Whether an instruction neither places a label, branches, returns, nor
/// opens or closes a function.
pub open spec fn is_plain(i: Inst) -> bool {
    !(i is Label || i is Br || i is CondBr || i is Ret || i is Define || i is Close)
}

/// Every instruction of `code` from position `from` on is plain.
pub open spec fn plain_from(code: Seq<Inst>, from: int) -> bool {
    forall|i: int| from <= i < code.len() ==> is_plain(#[trigger] code[i])
}

/// Reading a value: a number is materialized into a fresh register; a bound
/// identifier is loaded from its storage; an unbound one gets fresh storage,
/// which is returned as it is, with nothing stored into it.
pub open spec fn value_exact(
    n: Node,
    before: CodeGenStatus,
    after: CodeGenStatus,
    r: Result<Lowered, GenError>,
) -> bool {
    let c = before.name_gen@ as usize;
    match n {
        Node::Value(Value::Number(v)) => r is Ok ==> {
            &&& after.code@ == before.code@.push(Inst::Const { dst: c, value: v })
            &&& r == Ok::<Lowered, GenError>(Lowered::Reg(c))
            &&& after.name_gen@ == before.name_gen@ + 1
        },
        Node::Value(Value::Ident(x)) => r is Ok ==> {
            &&& after.name_gen@ == before.name_gen@ + 1
            &&& r == Ok::<Lowered, GenError>(Lowered::Reg(c))
            &&& if before.variables@.contains_key(x@) {
                &&& after.code@ == before.code@.push(
                    Inst::Load { dst: c, ptr: before.variables@[x@] },
                )
                &&& after.variables@ == before.variables@
            } else {
                &&& after.code@ == before.code@.push(Inst::Alloca { dst: c })
                &&& after.variables@ == before.variables@.insert(x@, c)
            }
        },
        _ => true,
    }
}

/// A binary arithmetic or comparison of two numbers materializes both, then
/// combines them (and widens a comparison's bit), in fresh registers.
pub open spec fn binary_exact(
    n: Node,
    before: CodeGenStatus,
    after: CodeGenStatus,
    r: Result<Lowered, GenError>,
) -> bool {
    let c = before.name_gen@ as usize;
    match n {
        Node::Expr(e) => match (*e.lhs, *e.rhs) {
            (Node::Value(Value::Number(a)), Node::Value(Value::Number(b))) => r is Ok ==> match e.op {
                ExprSymbol::Arithmetic(op) => {
                    &&& after.code@ == before.code@ + seq![
                        Inst::Const { dst: c, value: a },
                        Inst::Const { dst: (c + 1) as usize, value: b },
                        Inst::Arith { dst: (c + 2) as usize, op, lhs: c, rhs: (c + 1) as usize },
                    ]
                    &&& r == Ok::<Lowered, GenError>(Lowered::Reg((c + 2) as usize))
                    &&& after.name_gen@ == before.name_gen@ + 3
                },
                ExprSymbol::Comparison(op) => {
                    &&& after.code@ == before.code@ + seq![
                        Inst::Const { dst: c, value: a },
                        Inst::Const { dst: (c + 1) as usize, value: b },
                        Inst::Compare {
                            dst: (c + 2) as usize,
                            op,
                            lhs: c,
                            rhs: (c + 1) as usize,
                        },
                        Inst::Widen { dst: (c + 3) as usize, src: (c + 2) as usize },
                    ]
                    &&& r == Ok::<Lowered, GenError>(Lowered::Reg((c + 3) as usize))
                    &&& after.name_gen@ == before.name_gen@ + 4
                },
                _ => true,
            },
            _ => true,
        },
        _ => true,
    }
}

/// An `if` whose two arms are both returns places no merge label.
pub open spec fn if_merge_exact(
    n: Node,
    before: CodeGenStatus,
    after: CodeGenStatus,
    r: Result<Lowered, GenError>,
) -> bool {
    match n {
        Node::Control(Control::If(x)) => match x.else_branch {
            Some(b) => (r is Ok && is_return(*x.then_branch) && is_return(*b)) ==> forall|i: int|
                before.code@.len() <= i < after.code@.len() ==> !(#[trigger] after.code@[i] matches Inst::Label(Label::IfEnd(_))),
            None => true,
        },
        _ => true,
    }
}

/// What every lowering step guarantees, for node `n` lowered from state
/// `before` to state `after` with result `r`.
pub open spec fn lowering_post(
    n: Node,
    before: CodeGenStatus,
    after: CodeGenStatus,
    r: Result<Lowered, GenError>,
) -> bool {
    &&& after.wf()
    &&& extends(before, after)
    &&& r is Ok ==> well_formed(n)
    &&& (r is Err && r != Err::<Lowered, GenError>(GenError::OutOfNames)) ==> !well_formed(n)
    &&& r == Err::<Lowered, GenError>(GenError::OutOfNames) ==> after.name_gen@ == usize::MAX
    &&& after.name_gen@ <= before.name_gen@ + name_bound(n)
    &&& r == Err::<Lowered, GenError>(GenError::OutOfNames) ==> after.name_gen@
        < before.name_gen@ + name_bound(n)
    &&& (well_formed(n) && before.name_gen@ + name_bound(n) <= usize::MAX) ==> r is Ok
    &&& r matches Ok(v) ==> {
        &&& (v is Reg) == yields_value(n)
        &&& (v is Terminated) == is_return(n)
        &&& v matches Lowered::Reg(k) ==> k < after.name_gen@
        &&& v matches Lowered::Reg(k) ==> (!is_assignment(n) ==> before.name_gen@ <= k)
    }
    &&& (n is Function && r is Ok) ==> after.variables@ == Map::<Seq<char>, usize>::empty()
    &&& (r is Ok && yields_value(n)) ==> plain_from(
        after.code@,
        before.code@.len() as int,
    )
    &&& (r is Ok && is_return(n)) ==> {
        &&& before.code@.len() < after.code@.len()
        &&& plain_from(after.code@.drop_last(), before.code@.len() as int)
        &&& after.code@.last() is Ret
    }
    &&& value_exact(n, before, after, r)
    &&& binary_exact(n, before, after, r)
    &&& if_merge_exact(n, before, after, r)
}

fn value_of(r: Result<Lowered, GenError>) -> (v: Result<usize, GenError>)
    ensures
        match r {
            Ok(Lowered::Reg(k)) => v == Ok::<usize, GenError>(k),
            Ok(_) => v == Err::<usize, GenError>(GenError::MissingValue),
            Err(e) => v == Err::<usize, GenError>(e),
        },
{
    match r {
        Ok(Lowered::Reg(k)) => Ok(k),
        Ok(_) => Err(GenError::MissingValue),
        Err(e) => Err(e),
    }
}

fn gen_value(value: &Value, st: &mut CodeGenStatus) -> (r: Result<Lowered, GenError>)
    requires
        old(st).wf(),
    ensures
        lowering_post(Node::Value(*value), *old(st), *final(st), r),
        exact_post(Node::Value(*value), *old(st), *final(st), r),
{
    let ghost s0 = *st;
    match value {
        Value::Number(num) => {
            let k = match fresh(st) {
                Ok(k) => k,
                Err(e) => return Err(e),
            };
            emit(st, Inst::Const { dst: k, value: *num });
            Ok(Lowered::Reg(k))
        },
        Value::Ident(idn) => {
            match st.variables.get(idn) {
                Some(ptr) => {
                    let k = match fresh(st) {
                        Ok(k) => k,
                        Err(e) => return Err(e),
                    };
                    emit(st, Inst::Load { dst: k, ptr });
                    Ok(Lowered::Reg(k))
                },
                None => {
                    let ptr = match fresh(st) {
                        Ok(k) => k,
                        Err(e) => return Err(e),
                    };
                    emit(st, Inst::Alloca { dst: ptr });
                    st.variables.insert(idn.clone(), ptr);
                    Ok(Lowered::Reg(ptr))
                },
            }
        },
    }
}

#[verifier::rlimit(100)]
fn gen_expr(expr: &Expr, st: &mut CodeGenStatus) -> (r: Result<Lowered, GenError>)
    requires
        old(st).wf(),
    ensures
        lowering_post(Node::Expr(*expr), *old(st), *final(st), r),
        exact_post(Node::Expr(*expr), *old(st), *final(st), r),
    decreases expr, 0nat,
{
    let ghost s0 = *st;
    match expr.op {
        ExprSymbol::Arithmetic(op) => {
            let lr = lower(&expr.lhs, st);
            let ghost s1 = *st;
            let l = match value_of(lr) {
                Ok(k) => k,
                Err(e) => return Err(e),
            };
            let rr = lower(&expr.rhs, st);
            let ghost s2 = *st;
            proof {
                lemma_extends_trans(s0, s1, s2);
            }
            let r = match value_of(rr) {
                Ok(k) => k,
                Err(e) => return Err(e),
            };
            let k = match fresh(st) {
                Ok(k) => k,
                Err(e) => return Err(e),
            };
            let ghost s3 = *st;
            emit(st, Inst::Arith { dst: k, op, lhs: l, rhs: r });
            proof {
                lemma_extends_trans(s0, s2, *st);
                lemma_plain_trans(s0, s1, s2);
                lemma_extends_trans(s0, s1, s2);
                assert(extends(s2, s3));
                match (&*expr.lhs, &*expr.rhs) {
                    (Node::Value(Value::Number(a)), Node::Value(Value::Number(b))) => {
                        assert(st.code@ =~= s0.code@ + seq![
                            Inst::Const { dst: l, value: *a },
                            Inst::Const { dst: r, value: *b },
                            Inst::Arith { dst: k, op, lhs: l, rhs: r },
                        ]);
                    },
                    _ => {},
                }
            }
            Ok(Lowered::Reg(k))
        },
        ExprSymbol::Comparison(op) => {
            let lr = lower(&expr.lhs, st);
            let ghost s1 = *st;
            let l = match value_of(lr) {
                Ok(k) => k,
                Err(e) => return Err(e),
            };
            let rr = lower(&expr.rhs, st);
            let ghost s2 = *st;
            proof {
                lemma_extends_trans(s0, s1, s2);
            }
            let r = match value_of(rr) {
                Ok(k) => k,
                Err(e) => return Err(e),
            };
            let k = match fresh(st) {
                Ok(k) => k,
                Err(e) => return Err(e),
            };
            emit(st, Inst::Compare { dst: k, op, lhs: l, rhs: r });
            let w = match fresh(st) {
                Ok(w) => w,
                Err(e) => {
                    proof {
                        lemma_extends_trans(s0, s2, *st);
                    }
                    return Err(e);
                },
            };
            emit(st, Inst::Widen { dst: w, src: k });
            proof {
                lemma_extends_trans(s0, s2, *st);
                lemma_plain_trans(s0, s1, s2);
                lemma_extends_trans(s0, s1, s2);
                match (&*expr.lhs, &*expr.rhs) {
                    (Node::Value(Value::Number(a)), Node::Value(Value::Number(b))) => {
                        assert(st.code@ =~= s0.code@ + seq![
                            Inst::Const { dst: l, value: *a },
                            Inst::Const { dst: r, value: *b },
                            Inst::Compare { dst: k, op, lhs: l, rhs: r },
                            Inst::Widen { dst: w, src: k },
                        ]);
                    },
                    _ => {},
                }
            }
            Ok(Lowered::Reg(w))
        },
        ExprSymbol::Assignment => {
            let name = match &*expr.lhs {
                Node::Value(Value::Ident(idn)) => idn,
                _ => return Err(GenError::AssignTargetNotIdent),
            };
            let rr = lower(&expr.rhs, st);
            let ghost s1 = *st;
            let src = match value_of(rr) {
                Ok(k) => k,
                Err(e) => return Err(e),
            };
            let ptr = match st.variables.get(name) {
                Some(p) => p,
                None => {
                    let p = match fresh(st) {
                        Ok(k) => k,
                        Err(e) => return Err(e),
                    };
                    emit(st, Inst::Alloca { dst: p });
                    st.variables.insert(name.clone(), p);
                    p
                },
            };
            emit(st, Inst::Store { src, ptr });
            proof {
                lemma_extends_trans(s0, s1, *st);
            }
            Ok(Lowered::Reg(ptr))
        },
        _ => Err(GenError::NotAnExpression),
    }
}

/// Lowers `n`, appending its instructions to the state's code.
fn lower(n: &Node, st: &mut CodeGenStatus) -> (r: Result<Lowered, GenError>)
    requires
        old(st).wf(),
    ensures
        lowering_post(*n, *old(st), *final(st), r),
        exact_post(*n, *old(st), *final(st), r),
        flow_post(*n, *old(st), *final(st), r),
    decreases n, 0nat,
{
    let ghost s0 = *st;
    let r = match n {
        Node::Expr(expr) => gen_expr(expr, st),
        Node::Value(value) => gen_value(value, st),
        Node::Call(call) => gen_call(call, st),
        Node::Function(function) => gen_function(function, st),
        Node::Program(program) => gen_program(program, st),
        Node::Control(Control::Return(ret)) => gen_return(ret, st),
        Node::Control(Control::If(x)) => gen_if(x, st),
        Node::Control(Control::While(x)) => gen_while(x, st),
        Node::Control(Control::For(x)) => gen_for(x, st),
    };
    proof {
        if r is Ok && yields_value(*n) {
            lemma_flow_plain_from(s0, *st);
        }
    }
    r
}

#[verifier::rlimit(100)]
fn gen_call(call: &Call, st: &mut CodeGenStatus) -> (r: Result<Lowered, GenError>)
    requires
        old(st).wf(),
    ensures
        lowering_post(Node::Call(*call), *old(st), *final(st), r),
        exact_post(Node::Call(*call), *old(st), *final(st), r),
    decreases call, 0nat,
{
    let ghost s0 = *st;
    let callee = match &*call.callee {
        Node::Value(Value::Ident(idn)) => idn,
        _ => return Err(GenError::CalleeNotIdent),
    };
    let k = match fresh(st) {
        Ok(k) => k,
        Err(e) => return Err(e),
    };
    let ghost s1 = *st;
    proof {
        lemma_call_bound(*call);
        lemma_seq_bound_all(call.arguments@);
    }
    let mut args: Vec<usize> = Vec::new();
    let mut i: usize = 0;
    while i < call.arguments.len()
        invariant
            *old(st) == s0,
            s0.wf(),
            k == s0.name_gen@,
            s1.code == s0.code,
            s1.name_gen@ == k + 1,
            st.wf(),
            extends(s1, *st),
            plain_from(st.code@, s1.code@.len() as int),
            0 <= i <= call.arguments@.len(),
            st.name_gen@ <= s1.name_gen@ + seq_bound(call.arguments@.subrange(0, i as int)),
            lower_args(call.arguments@.subrange(0, i as int), model(s1)) == (model(*st), args@),
            name_bound(Node::Call(*call)) == 1 + seq_bound(call.arguments@),
            forall|j: int|
                0 <= j < i ==> yields_value(*#[trigger] call.arguments@[j]) && well_formed(
                    *call.arguments@[j],
                ),
        decreases call.arguments@.len() - i,
    {
        let ghost si = *st;
        let ar = lower(&call.arguments[i], st);
        proof {
            lemma_extends_trans(s1, si, *st);
            lemma_extends_trans(s0, s1, *st);
            if ar matches Ok(Lowered::Reg(_)) {
                lemma_plain_trans(s1, si, *st);
            }
            lemma_seq_bound_step(call.arguments@, i as int);
            lemma_seq_bound_prefix_le(call.arguments@, i as int + 1);
            lemma_lower_args_step(call.arguments@, i as int, model(s1));
        }
        let a = match value_of(ar) {
            Ok(a) => a,
            Err(e) => {
                proof {
                    if e != GenError::OutOfNames {
                        assert(!(yields_value(*call.arguments@[i as int]) && well_formed(
                            *call.arguments@[i as int],
                        )));
                    }
                }
                return Err(e);
            },
        };
        args.push(a);
        i = i + 1;
    }
    proof {
        assert forall|j: int| 0 <= j < st.code@.len() implies !defines(st.code@[j], k) by {
            if j < s0.code@.len() {
                assert(st.code@[j] == s0.code@[j]);
                if defines(s0.code@[j], k) {
                    assert(k < s0.name_gen@);
                }
            }
        }
    }
    let ghost s2 = *st;
    proof {
        assert(call.arguments@.subrange(0, call.arguments@.len() as int) =~= call.arguments@);
        lemma_call_spec(*call, model(s0));
    }
    emit(st, Inst::Call { dst: k, callee: callee.clone(), args });
    proof {
        lemma_extends_trans(s0, s1, s2);
        assert forall|j: int, d: usize|
            s0.code@.len() <= j < st.code@.len() && #[trigger] defines(st.code@[j], d) implies s0.name_gen@
            <= d by {
            if j < s2.code@.len() {
                assert(st.code@[j] == s2.code@[j]);
            }
        }
    }
    Ok(Lowered::Reg(k))
}

#[verifier::rlimit(100)]
fn gen_program(program: &Program, st: &mut CodeGenStatus) -> (r: Result<Lowered, GenError>)
    requires
        old(st).wf(),
    ensures
        lowering_post(Node::Program(*program), *old(st), *final(st), r),
        exact_post(Node::Program(*program), *old(st), *final(st), r),
        flow_post(Node::Program(*program), *old(st), *final(st), r),
    decreases program, 0nat,
{
    let ghost s0 = *st;
    proof {
        lemma_flow_plain_from(s0, s0);
        lemma_program_bound(*program);
        lemma_seq_bound_all(program.statements@);
        lemma_program_spec(*program, model(s0));
        assert(program.statements@.subrange(0, 0) =~= Seq::<Box<Node>>::empty());
    }
    let mut i: usize = 0;
    while i < program.statements.len()
        invariant
            *old(st) == s0,
            st.wf(),
            extends(s0, *st),
            0 <= i <= program.statements@.len(),
            forall|j: int| 0 <= j < i ==> well_formed(*#[trigger] program.statements@[j]),
            block_safe(Node::Program(*program)) ==> flow(segment(s0, *st), true) == Some(true),
            st.name_gen@ <= s0.name_gen@ + seq_bound(program.statements@.subrange(0, i as int)),
            name_bound(Node::Program(*program)) == seq_bound(program.statements@),
            lower_stmts(program.statements@.subrange(0, i as int), model(s0)) == model(*st),
        decreases program.statements@.len() - i,
    {
        let ghost si = *st;
        let sr = lower(&program.statements[i], st);
        proof {
            lemma_extends_trans(s0, si, *st);
            lemma_flow_extend(s0, si, *st);
            if block_safe(Node::Program(*program)) {
                lemma_safe_statement(*program, i as int);
            }
            lemma_seq_bound_step(program.statements@, i as int);
            lemma_seq_bound_prefix_le(program.statements@, i as int + 1);
            lemma_lower_args_step(program.statements@, i as int, model(s0));
        }
        if let Err(e) = sr {
            proof {
                if e != GenError::OutOfNames {
                    lemma_bad_statement(*program, i as int);
                }
            }
            return Err(e);
        }
        i = i + 1;
    }
    proof {
        assert(program.statements@.subrange(0, program.statements@.len() as int) =~= program.statements@);
    }
    Ok(Lowered::NoValue)
}

fn all_idents(values: &Vec<Value>) -> (r: bool)
    ensures
        r == forall|i: int| 0 <= i < values@.len() ==> #[trigger] values@[i] is Ident,
{
    let mut i: usize = 0;
    while i < values.len()
        invariant
            0 <= i <= values@.len(),
            forall|j: int| 0 <= j < i ==> #[trigger] values@[j] is Ident,
        decreases values@.len() - i,
    {
        if let Value::Number(_) = &values[i] {
            return false;
        }
        i = i + 1;
    }
    true
}

#[verifier::rlimit(100)]
fn gen_function(function: &Function, st: &mut CodeGenStatus) -> (r: Result<Lowered, GenError>)
    requires
        old(st).wf(),
    ensures
        lowering_post(Node::Function(*function), *old(st), *final(st), r),
        exact_post(Node::Function(*function), *old(st), *final(st), r),
    decreases function, 0nat,
{
    let ghost s0 = *st;
    let name = match &function.name {
        Value::Ident(idn) => idn,
        _ => return Err(GenError::FunctionNameNotIdent),
    };
    let n = function.arguments.len();
    if !all_idents(&function.arguments) {
        proof {
            let i = choose|i: int| 0 <= i < n && !(#[trigger] function.arguments@[i] is Ident);
            lemma_bad_parameter(*function, i);
        }
        return Err(GenError::ParameterNotIdent);
    }
    let first = st.name_gen.count();
    let mut params: Vec<usize> = Vec::new();
    let mut i: usize = 0;
    while i < n
        invariant
            n == function.arguments@.len(),
            0 <= i <= n,
            *old(st) == s0,
            st.wf(),
            st.code == s0.code,
            st.variables == s0.variables,
            st.name_gen@ == s0.name_gen@ + i,
            params@.len() == i,
            forall|j: int| 0 <= j < i ==> #[trigger] params@[j] == s0.name_gen@ + j,
        decreases n - i,
    {
        let k = match fresh(st) {
            Ok(k) => k,
            Err(e) => {
                assert(extends(s0, *st));
                return Err(e);
            },
        };
        params.push(k);
        i = i + 1;
    }
    proof {
        assert forall|a: int, b: int| 0 <= a < params@.len() && 0 <= b < params@.len() && a != b
            implies params@[a] != params@[b] by {}
        assert forall|k: usize| #[trigger] params@.contains(k) implies k < st.name_gen@
            && forall|j: int| 0 <= j < st.code@.len() ==> !defines(st.code@[j], k) by {
            let a = choose|a: int| 0 <= a < params@.len() && params@[a] == k;
            assert forall|j: int| 0 <= j < st.code@.len() implies !defines(st.code@[j], k) by {
                if defines(st.code@[j], k) {
                    assert(k < s0.name_gen@);
                }
            }
        }
    }
    let ghost sp = *st;
    let ghost pv = params@;
    proof {
        assert(pv =~= Seq::new(n as nat, |j: int| (s0.name_gen@ + j) as usize));
        assert(model(sp) == GenModel { count: s0.name_gen@ + n as nat, vars: s0.variables@, code: model(s0).code });
    }
    emit(st, Inst::Define { name: name.clone(), params });
    let ghost sd = *st;
    proof {
        assert(extends(s0, *st));
        assert(function.arguments@.subrange(0, 0) =~= Seq::<Value>::empty());
    }
    let mut i: usize = 0;
    while i < n
        invariant
            n == function.arguments@.len(),
            0 <= i <= n,
            forall|j: int| 0 <= j < n ==> #[trigger] function.arguments@[j] is Ident,
            *old(st) == s0,
            st.wf(),
            extends(s0, *st),
            first + n <= st.name_gen@,
            first == s0.name_gen@,
            st.name_gen@ == s0.name_gen@ + n + i,
            model(*st) == bind_params(function.arguments@.subrange(0, i as int), first as nat, model(sd)),
        decreases n - i,
    {
        let ghost si = *st;
        let ptr = match fresh(st) {
            Ok(k) => k,
            Err(e) => return Err(e),
        };
        emit(st, Inst::Alloca { dst: ptr });
        emit(st, Inst::Store { src: first + i, ptr });
        match &function.arguments[i] {
            Value::Ident(idn) => {
                st.variables.insert(idn.clone(), ptr);
            },
            Value::Number(_) => {},
        }
        proof {
            lemma_extends_trans(s0, si, *st);
            let t = function.arguments@.subrange(0, i + 1);
            assert(t.drop_last() =~= function.arguments@.subrange(0, i as int));
            assert(t.last() == function.arguments@[i as int]);
            assert(model(*st).code =~= model(si).code.push(InstV::Alloca { dst: ptr }).push(
                InstV::Store { src: (first + i) as usize, ptr },
            ));
            assert(model(*st) == bind_params(t, first as nat, model(sd)));
        }
        i = i + 1;
    }
    let ghost s1 = *st;
    proof {
        assert(function.arguments@.subrange(0, n as int) =~= function.arguments@);
    }
    let br = lower(&function.body, st);
    let ghost s2 = *st;
    proof {
        lemma_extends_trans(s0, s1, *st);
    }
    if let Err(e) = br {
        assert(extends(s0, *st));
        assert(e != GenError::OutOfNames ==> !well_formed(*function.body));
        return Err(e);
    }
    emit(st, Inst::Close);
    st.variables.clear();
    proof {
        assert(model(*st).vars =~= Map::<Seq<char>, usize>::empty());
        assert(model(*st).code == model(s2).code.push(InstV::Close));
    }
    Ok(Lowered::NoValue)
}

fn gen_return(ret: &Return, st: &mut CodeGenStatus) -> (r: Result<Lowered, GenError>)
    requires
        old(st).wf(),
    ensures
        lowering_post(Node::Control(Control::Return(*ret)), *old(st), *final(st), r),
        exact_post(Node::Control(Control::Return(*ret)), *old(st), *final(st), r),
        flow_post(Node::Control(Control::Return(*ret)), *old(st), *final(st), r),
    decreases ret, 0nat,
{
    let ghost s0 = *st;
    let vr = lower(&ret.value, st);
    let v = match value_of(vr) {
        Ok(v) => v,
        Err(e) => return Err(e),
    };
    let ghost s1 = *st;
    emit(st, Inst::Ret { value: v });
    proof {
        lemma_extends_trans(s0, s1, *st);
        lemma_flow_plain_from(s0, s1);
        lemma_flow_emit(s0, s1, *st, Inst::Ret { value: v });
    }
    Ok(Lowered::Terminated)
}

/// Lowers a condition and narrows it to one bit; returns the bit's register.
fn gen_condition(cond: &Node, st: &mut CodeGenStatus) -> (r: Result<usize, GenError>)
    requires
        old(st).wf(),
    ensures
        final(st).wf(),
        extends(*old(st), *final(st)),
        r is Ok ==> yields_value(*cond) && well_formed(*cond),
        (r is Err && r != Err::<usize, GenError>(GenError::OutOfNames)) ==> !(yields_value(*cond)
            && well_formed(*cond)),
        r == Err::<usize, GenError>(GenError::OutOfNames) ==> final(st).name_gen@ == usize::MAX,
        r is Ok ==> plain_from(final(st).code@, old(st).code@.len() as int),
        r matches Ok(con) ==> {
            let (g1, cv) = lower_spec(*cond, model(*old(st)));
            &&& con == g1.count
            &&& model(*final(st)) == put(draw(g1), InstV::Narrow { dst: con, src: reg_of(cv) })
        },
        final(st).name_gen@ <= old(st).name_gen@ + name_bound(*cond) + 1,
        r == Err::<usize, GenError>(GenError::OutOfNames) ==> final(st).name_gen@
            < old(st).name_gen@ + name_bound(*cond) + 1,
    decreases cond, 1nat,
{
    let ghost s0 = *st;
    let cr = lower(cond, st);
    let c = match value_of(cr) {
        Ok(c) => c,
        Err(e) => return Err(e),
    };
    let ghost s1 = *st;
    let con = match fresh(st) {
        Ok(k) => k,
        Err(e) => return Err(e),
    };
    emit(st, Inst::Narrow { dst: con, src: c });
    proof {
        lemma_extends_trans(s0, s1, *st);
    }
    Ok(con)
}

#[verifier::rlimit(100)]
fn gen_if(x: &If, st: &mut CodeGenStatus) -> (r: Result<Lowered, GenError>)
    requires
        old(st).wf(),
    ensures
        lowering_post(Node::Control(Control::If(*x)), *old(st), *final(st), r),
        exact_post(Node::Control(Control::If(*x)), *old(st), *final(st), r),
        flow_post(Node::Control(Control::If(*x)), *old(st), *final(st), r),
    decreases x, 0nat,
{
    let ghost s0 = *st;
    let con = match gen_condition(&x.condition, st) {
        Ok(c) => c,
        Err(e) => return Err(e),
    };
    let ghost sc = *st;
    let k = match fresh(st) {
        Ok(k) => k,
        Err(e) => return Err(e),
    };
    let ghost sk = *st;
    emit(st, Inst::CondBr { cond: con, on_true: Label::IfTrue(k), on_false: Label::IfFalse(k) });
    let ghost sd = *st;
    emit(st, Inst::Label(Label::IfTrue(k)));
    let ghost s1 = *st;
    proof {
        assert(extends(s0, s1));
        lemma_flow_plain_from(s0, sk);
        lemma_flow_emit(
            s0,
            sk,
            sd,
            Inst::CondBr { cond: con, on_true: Label::IfTrue(k), on_false: Label::IfFalse(k) },
        );
        lemma_flow_emit(s0, sd, s1, Inst::Label(Label::IfTrue(k)));
    }
    let tr = lower(&x.then_branch, st);
    proof {
        lemma_extends_trans(s0, s1, *st);
    }
    let then_open = match tr {
        Ok(Lowered::Terminated) => false,
        Ok(_) => true,
        Err(e) => return Err(e),
    };
    let ghost s2 = *st;
    proof {
        lemma_flow_extend(s0, s1, s2);
    }
    if then_open {
        emit(st, Inst::Br(Label::IfEnd(k)));
        proof {
            lemma_flow_emit(s0, s2, *st, Inst::Br(Label::IfEnd(k)));
        }
    }
    let ghost se = *st;
    emit(st, Inst::Label(Label::IfFalse(k)));
    proof {
        assert(extends(s0, *st));
        lemma_flow_emit(s0, se, *st, Inst::Label(Label::IfFalse(k)));
    }
    let ghost s3 = *st;
    let ghost mut s4 = *st;
    let else_open = match &x.else_branch {
        Some(b) => {
            let er = lower(b, st);
            proof {
                lemma_extends_trans(s0, s3, *st);
                s4 = *st;
            }
            let open = match er {
                Ok(Lowered::Terminated) => false,
                Ok(_) => true,
                Err(e) => return Err(e),
            };
            proof {
                lemma_flow_extend(s0, s3, s4);
            }
            if open {
                emit(st, Inst::Br(Label::IfEnd(k)));
                proof {
                    lemma_flow_emit(s0, s4, *st, Inst::Br(Label::IfEnd(k)));
                }
            }
            open
        },
        None => {
            emit(st, Inst::Br(Label::IfEnd(k)));
            proof {
                lemma_flow_emit(s0, s3, *st, Inst::Br(Label::IfEnd(k)));
            }
            true
        },
    };
    let ghost s5 = *st;
    if then_open || else_open {
        emit(st, Inst::Label(Label::IfEnd(k)));
        proof {
            assert(extends(s0, s5));
            lemma_flow_emit(s0, s5, *st, Inst::Label(Label::IfEnd(k)));
        }
    }
    proof {
        assert(extends(s0, *st));
        if x.else_branch is Some && is_return(*x.then_branch) && is_return(
            *x.else_branch->Some_0,
        ) {
            assert(!then_open && !else_open);
            assert(st.code@.len() == s4.code@.len());
            assert forall|i: int| s0.code@.len() <= i < st.code@.len() implies !(
            #[trigger] st.code@[i] matches Inst::Label(Label::IfEnd(_))) by {
                if i < sc.code@.len() {
                    assert(st.code@[i] == sc.code@[i]);
                    assert(is_plain(sc.code@[i]));
                } else if i < s1.code@.len() {
                    assert(st.code@[i] == s1.code@[i]);
                } else if i < s2.code@.len() - 1 {
                    assert(st.code@[i] == s2.code@.drop_last()[i]);
                    assert(is_plain(s2.code@.drop_last()[i]));
                } else if i < s3.code@.len() {
                    assert(st.code@[i] == s3.code@[i]);
                } else if i < s4.code@.len() - 1 {
                    assert(st.code@[i] == s4.code@.drop_last()[i]);
                    assert(is_plain(s4.code@.drop_last()[i]));
                } else {
                    assert(st.code@[i] == s4.code@.last());
                }
            }
        }
    }
    Ok(Lowered::NoValue)
}

#[verifier::rlimit(100)]
fn gen_while(x: &While, st: &mut CodeGenStatus) -> (r: Result<Lowered, GenError>)
    requires
        old(st).wf(),
    ensures
        lowering_post(Node::Control(Control::While(*x)), *old(st), *final(st), r),
        exact_post(Node::Control(Control::While(*x)), *old(st), *final(st), r),
        flow_post(Node::Control(Control::While(*x)), *old(st), *final(st), r),
    decreases x, 0nat,
{
    let ghost s0 = *st;
    let k = match fresh(st) {
        Ok(k) => k,
        Err(e) => return Err(e),
    };
    let ghost sa = *st;
    emit(st, Inst::Br(Label::Begin(k)));
    let ghost sb = *st;
    emit(st, Inst::Label(Label::Begin(k)));
    let ghost s1 = *st;
    proof {
        lemma_flow_plain_from(s0, sa);
        lemma_flow_emit(s0, sa, sb, Inst::Br(Label::Begin(k)));
        lemma_flow_emit(s0, sb, s1, Inst::Label(Label::Begin(k)));
    }
    let con = match gen_condition(&x.condition, st) {
        Ok(c) => c,
        Err(e) => return Err(e),
    };
    let ghost sc = *st;
    emit(st, Inst::CondBr { cond: con, on_true: Label::WhileTrue(k), on_false: Label::End(k) });
    let ghost sd = *st;
    emit(st, Inst::Label(Label::WhileTrue(k)));
    let ghost s2 = *st;
    proof {
        lemma_extends_trans(s0, s1, sc);
        lemma_flow_plain_from(s1, sc);
        lemma_flow_extend(s0, s1, sc);
        lemma_flow_emit(
            s0,
            sc,
            sd,
            Inst::CondBr { cond: con, on_true: Label::WhileTrue(k), on_false: Label::End(k) },
        );
        lemma_flow_emit(s0, sd, s2, Inst::Label(Label::WhileTrue(k)));
        assert(extends(s0, s2));
    }
    let br = lower(&x.body, st);
    let ghost s3 = *st;
    proof {
        lemma_extends_trans(s0, s2, *st);
    }
    if let Err(e) = br {
        return Err(e);
    }
    let body_open = match br {
        Ok(Lowered::Terminated) => false,
        _ => true,
    };
    proof {
        lemma_flow_extend(s0, s2, s3);
    }
    if body_open {
        emit(st, Inst::Br(Label::Begin(k)));
        proof {
            lemma_flow_emit(s0, s3, *st, Inst::Br(Label::Begin(k)));
        }
    }
    let ghost s4 = *st;
    emit(st, Inst::Label(Label::End(k)));
    proof {
        assert(extends(s0, *st));
        lemma_flow_emit(s0, s4, *st, Inst::Label(Label::End(k)));
    }
    Ok(Lowered::NoValue)
}

#[verifier::rlimit(100)]
fn gen_for(x: &For, st: &mut CodeGenStatus) -> (r: Result<Lowered, GenError>)
    requires
        old(st).wf(),
    ensures
        lowering_post(Node::Control(Control::For(*x)), *old(st), *final(st), r),
        exact_post(Node::Control(Control::For(*x)), *old(st), *final(st), r),
        flow_post(Node::Control(Control::For(*x)), *old(st), *final(st), r),
    decreases x, 0nat,
{
    let ghost s0 = *st;
    let k = match fresh(st) {
        Ok(k) => k,
        Err(e) => return Err(e),
    };
    proof {
        lemma_flow_plain_from(s0, *st);
    }
    if let Some(init) = &x.initializer {
        let ghost si = *st;
        let ir = lower(init, st);
        proof {
            lemma_extends_trans(s0, si, *st);
            lemma_flow_extend(s0, si, *st);
        }
        if let Err(e) = ir {
            return Err(e);
        }
    }
    let ghost sa = *st;
    emit(st, Inst::Br(Label::Begin(k)));
    let ghost sb = *st;
    emit(st, Inst::Label(Label::Begin(k)));
    let ghost s1 = *st;
    proof {
        assert(extends(s0, s1));
        lemma_flow_emit(s0, sa, sb, Inst::Br(Label::Begin(k)));
        lemma_flow_emit(s0, sb, s1, Inst::Label(Label::Begin(k)));
    }
    let con = match gen_condition(&x.condition, st) {
        Ok(c) => c,
        Err(e) => {
            proof {
                lemma_extends_trans(s0, s1, *st);
            }
            return Err(e);
        },
    };
    let ghost sc = *st;
    emit(st, Inst::CondBr { cond: con, on_true: Label::ForTrue(k), on_false: Label::End(k) });
    let ghost sd = *st;
    emit(st, Inst::Label(Label::ForTrue(k)));
    let ghost s2 = *st;
    proof {
        lemma_extends_trans(s0, s1, sc);
        lemma_flow_plain_from(s1, sc);
        lemma_flow_extend(s0, s1, sc);
        lemma_flow_emit(
            s0,
            sc,
            sd,
            Inst::CondBr { cond: con, on_true: Label::ForTrue(k), on_false: Label::End(k) },
        );
        lemma_flow_emit(s0, sd, s2, Inst::Label(Label::ForTrue(k)));
        assert(extends(s0, s2));
    }
    if let Some(update) = &x.updater {
        let ur = lower(update, st);
        proof {
            lemma_extends_trans(s0, s2, *st);
            lemma_flow_extend(s0, s2, *st);
        }
        if let Err(e) = ur {
            return Err(e);
        }
    }
    let ghost s3 = *st;
    let br = lower(&x.body, st);
    let ghost s4 = *st;
    proof {
        lemma_extends_trans(s0, s3, *st);
    }
    if let Err(e) = br {
        return Err(e);
    }
    let body_open = match br {
        Ok(Lowered::Terminated) => false,
        _ => true,
    };
    proof {
        lemma_flow_extend(s0, s3, s4);
    }
    if body_open {
        emit(st, Inst::Br(Label::Begin(k)));
        proof {
            lemma_flow_emit(s0, s4, *st, Inst::Br(Label::Begin(k)));
        }
    }
    let ghost s5 = *st;
    emit(st, Inst::Label(Label::End(k)));
    proof {
        assert(extends(s0, *st));
        lemma_flow_emit(s0, s5, *st, Inst::Label(Label::End(k)));
    }
    Ok(Lowered::NoValue)
}

/// Lowers `node`, appending its instructions to `cgs.code`. Fails exactly
/// when the tree is not well formed, or when the supply of temporary names
/// runs out; it succeeds on every well-formed tree for which
/// `name_bound(node)` more names remain.
pub fn generate(node: Box<Node>, cgs: &mut CodeGenStatus) -> (r: Result<Lowered, GenError>)
    requires
        old(cgs).wf(),
    ensures
        lowering_post(*node, *old(cgs), *final(cgs), r),
        exact_post(*node, *old(cgs), *final(cgs), r),
        flow_post(*node, *old(cgs), *final(cgs), r),
{
    lower(&node, cgs)
}

/// No label line is placed twice: in any state that lowering maintains,
/// two distinct instructions never place the same label.
pub proof fn lemma_labels_unique(st: CodeGenStatus, i: int, j: int, l: Label)
    requires
        st.wf(),
        0 <= i < j < st.code@.len(),
        places(st.code@[i], l),
    ensures
        !places(st.code@[j], l),
{
}

/// Register names are never reused: in any state that lowering maintains,
/// and so across a whole program and all of its functions, two distinct
/// instructions define registers with distinct names.
pub proof fn lemma_names_unique(st: CodeGenStatus, i: int, j: int, k: usize, m: usize)
    requires
        st.wf(),
        0 <= i < j < st.code@.len(),
        defines(st.code@[i], k),
        defines(st.code@[j], m),
    ensures
        k != m,
        tmp_name(k as nat) != tmp_name(m as nat),
{
    lemma_tmp_name_injective(k as nat, m as nat);
}

/// Whether the current basic block is still open (lacks its terminator)
/// after one instruction, starting from `open`; `None` where the instruction
/// places a label inside an open block, terminates a block already closed,
/// stands outside any block, or opens or closes a function.
pub open spec fn step(open: bool, i: Inst) -> Option<bool> {
    if i is Label {
        if open {
            None
        } else {
            Some(true)
        }
    } else if i is Br || i is CondBr || i is Ret {
        if open {
            Some(false)
        } else {
            None
        }
    } else if i is Define || i is Close {
        None
    } else if open {
        Some(true)
    } else {
        None
    }
}

/// The block state after running `code` from `open`, or `None` where some
/// block gets no terminator or two.
pub open spec fn flow(code: Seq<Inst>, open: bool) -> Option<bool>
    decreases code.len(),
{
    if code.len() == 0 {
        Some(open)
    } else {
        match flow(code.drop_last(), open) {
            Some(o) => step(o, code.last()),
            None => None,
        }
    }
}

/// The instructions emitted between two states.
pub open spec fn segment(before: CodeGenStatus, after: CodeGenStatus) -> Seq<Inst> {
    after.code@.subrange(before.code@.len() as int, after.code@.len() as int)
}

/// Nodes whose lowering keeps the block structure: every block it opens
/// gets exactly one terminator, and it leaves the current block open unless
/// it is a return. Branch arms and loop parts that are not returns must fall
/// through, and an `if` may not return from both arms.
pub open spec fn block_safe(n: Node) -> bool
    decreases n,
{
    match n {
        Node::Value(_) => true,
        Node::Call(_) => true,
        Node::Expr(_) => true,
        Node::Control(Control::Return(_)) => true,
        Node::Control(Control::If(x)) => block_safe(*x.then_branch) && (match x.else_branch {
            Some(b) => block_safe(*b) && !(is_return(*x.then_branch) && is_return(*b)),
            None => true,
        }),
        Node::Control(Control::While(x)) => block_safe(*x.body),
        Node::Control(Control::For(x)) => (match x.initializer {
            Some(b) => block_safe(*b) && !is_return(*b),
            None => true,
        }) && (match x.updater {
            Some(b) => block_safe(*b) && !is_return(*b),
            None => true,
        }) && block_safe(*x.body),
        Node::Function(_) => false,
        Node::Program(p) => forall|i: int|
            0 <= i < p.statements@.len() ==> block_safe(*#[trigger] p.statements@[i]) && !is_return(
                *p.statements@[i],
            ),
    }
}

/// Lowering a block-safe node from an open block emits code in which each
/// block ends with exactly one terminator, and leaves the block open exactly
/// when the node is not a return.
pub open spec fn flow_post(
    n: Node,
    before: CodeGenStatus,
    after: CodeGenStatus,
    r: Result<Lowered, GenError>,
) -> bool {
    (r is Ok && block_safe(n)) ==> flow(segment(before, after), true) == Some(!is_return(n))
}

proof fn lemma_flow_concat(a: Seq<Inst>, b: Seq<Inst>, o: bool)
    ensures
        flow(a + b, o) == match flow(a, o) {
            Some(m) => flow(b, m),
            None => None,
        },
    decreases b.len(),
{
    if b.len() == 0 {
        assert(a + b =~= a);
    } else {
        assert((a + b).drop_last() =~= a + b.drop_last());
        assert((a + b).last() == b.last());
        lemma_flow_concat(a, b.drop_last(), o);
    }
}

proof fn lemma_flow_plain(s: Seq<Inst>)
    requires
        forall|i: int| 0 <= i < s.len() ==> is_plain(#[trigger] s[i]),
    ensures
        flow(s, true) == Some(true),
    decreases s.len(),
{
    if s.len() > 0 {
        lemma_flow_plain(s.drop_last());
    }
}

/// The flow up to `b` continues the flow up to `a` with the code between.
proof fn lemma_flow_extend(s0: CodeGenStatus, a: CodeGenStatus, b: CodeGenStatus)
    requires
        extends(s0, a),
        extends(a, b),
    ensures
        flow(segment(s0, b), true) == match flow(segment(s0, a), true) {
            Some(m) => flow(segment(a, b), m),
            None => None,
        },
{
    assert(segment(s0, b) =~= segment(s0, a) + segment(a, b));
    lemma_flow_concat(segment(s0, a), segment(a, b), true);
}

/// The flow after appending one instruction.
proof fn lemma_flow_emit(s0: CodeGenStatus, a: CodeGenStatus, b: CodeGenStatus, x: Inst)
    requires
        extends(s0, a),
        b.code@ == a.code@.push(x),
    ensures
        flow(segment(s0, b), true) == match flow(segment(s0, a), true) {
            Some(m) => step(m, x),
            None => None,
        },
{
    assert(segment(s0, b).drop_last() =~= segment(s0, a));
}

/// A plain stretch of code keeps an open block open.
proof fn lemma_flow_plain_from(s0: CodeGenStatus, a: CodeGenStatus)
    requires
        extends(s0, a),
        plain_from(a.code@, s0.code@.len() as int),
    ensures
        flow(segment(s0, a), true) == Some(true),
{
    lemma_flow_plain(segment(s0, a));
}

} // verus!
