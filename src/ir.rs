//! The emitted instructions and their textual form.

use vstd::prelude::*;
use crate::token::{Arithmetic, Comparison};

verus! {

/// The character of a decimal digit.
pub open spec fn digit_char(d: nat) -> char {
    if d == 0 {
        '0'
    } else if d == 1 {
        '1'
    } else if d == 2 {
        '2'
    } else if d == 3 {
        '3'
    } else if d == 4 {
        '4'
    } else if d == 5 {
        '5'
    } else if d == 6 {
        '6'
    } else if d == 7 {
        '7'
    } else if d == 8 {
        '8'
    } else {
        '9'
    }
}

/// The decimal spelling of `n`, without leading zeros.
pub open spec fn decimal_spec(n: nat) -> Seq<char>
    decreases n,
{
    if n < 10 {
        seq![digit_char(n)]
    } else {
        decimal_spec(n / 10).push(digit_char(n % 10))
    }
}

/// The name of the `k`-th drawn temporary.
pub open spec fn tmp_name(k: nat) -> Seq<char> {
    "tmp"@ + decimal_spec(k)
}

fn digit_str(d: usize) -> (r: &'static str)
    requires
        d < 10,
    ensures
        r@ == seq![digit_char(d as nat)],
{
    proof {
        reveal_strlit("0");
        reveal_strlit("1");
        reveal_strlit("2");
        reveal_strlit("3");
        reveal_strlit("4");
        reveal_strlit("5");
        reveal_strlit("6");
        reveal_strlit("7");
        reveal_strlit("8");
        reveal_strlit("9");
    }
    if d == 0 {
        "0"
    } else if d == 1 {
        "1"
    } else if d == 2 {
        "2"
    } else if d == 3 {
        "3"
    } else if d == 4 {
        "4"
    } else if d == 5 {
        "5"
    } else if d == 6 {
        "6"
    } else if d == 7 {
        "7"
    } else if d == 8 {
        "8"
    } else {
        "9"
    }
}

/// Appends the decimal spelling of `n` to `s`.
pub fn push_decimal(s: &mut String, n: usize)
    ensures
        final(s)@ == old(s)@ + decimal_spec(n as nat),
    decreases n,
{
    if n >= 10 {
        push_decimal(s, n / 10);
    }
    s.append(digit_str(n % 10));
    proof {
        if n >= 10 {
            assert(final(s)@ =~= old(s)@ + decimal_spec(n as nat));
        }
    }
}

/// A jump target. Each carries the index of the temporary drawn for the
/// construct that owns it.
#[derive(Debug, Clone, Copy, PartialEq, Eq, Structural)]
pub enum Label {
    IfTrue(usize),
    IfFalse(usize),
    IfEnd(usize),
    Begin(usize),
    WhileTrue(usize),
    ForTrue(usize),
    End(usize),
}

/// One emitted line. Registers are named by the index of the temporary
/// that holds them.
#[derive(Debug, Clone, PartialEq)]
pub enum Inst {
    /// `%dst = add i32 0, value`
    Const { dst: usize, value: usize },
    /// `%dst = alloca i32`
    Alloca { dst: usize },
    /// `%dst = load i32, i32* %ptr`
    Load { dst: usize, ptr: usize },
    /// `store i32 %src, i32* %ptr`
    Store { src: usize, ptr: usize },
    /// `%dst = add|sub|mul|sdiv i32 %lhs, %rhs`
    Arith { dst: usize, op: Arithmetic, lhs: usize, rhs: usize },
    /// `%dst = icmp <cond> i32 %lhs, %rhs`
    Compare { dst: usize, op: Comparison, lhs: usize, rhs: usize },
    /// `%dst = zext i1 %src to i32`
    Widen { dst: usize, src: usize },
    /// `%dst = icmp ne i32 %src, 0`
    Narrow { dst: usize, src: usize },
    /// `label:`
    Label(Label),
    /// `br label %target`
    Br(Label),
    /// `br i1 %cond, label %on_true, label %on_false`
    CondBr { cond: usize, on_true: Label, on_false: Label },
    /// `ret i32 %value`
    Ret { value: usize },
    /// `%dst = call i32 @callee(i32 noundef %a0, ...)`
    Call { dst: usize, callee: String, args: Vec<usize> },
    /// `define i32 @name(i32 noundef %p0, ...) {`
    Define { name: String, params: Vec<usize> },
    /// `}`
    Close,
}

pub open spec fn arith_mnemonic(op: Arithmetic) -> Seq<char> {
    match op {
        Arithmetic::Add => "add"@,
        Arithmetic::Sub => "sub"@,
        Arithmetic::Mul => "mul"@,
        Arithmetic::Div => "sdiv"@,
    }
}

pub open spec fn compare_mnemonic(op: Comparison) -> Seq<char> {
    match op {
        Comparison::Eq => "icmp eq"@,
        Comparison::Neq => "icmp ne"@,
        Comparison::Lt => "icmp slt"@,
        Comparison::Le => "icmp sle"@,
        Comparison::Gt => "icmp sgt"@,
        Comparison::Ge => "icmp sge"@,
    }
}

/// `%tmpK`
pub open spec fn reg_text(k: usize) -> Seq<char> {
    "%"@ + tmp_name(k as nat)
}

pub open spec fn label_text(l: Label) -> Seq<char> {
    match l {
        Label::IfTrue(k) => "if"@ + tmp_name(k as nat) + "_true"@,
        Label::IfFalse(k) => "if"@ + tmp_name(k as nat) + "_false"@,
        Label::IfEnd(k) => "if"@ + tmp_name(k as nat) + "_end"@,
        Label::Begin(k) => "begin"@ + tmp_name(k as nat),
        Label::WhileTrue(k) => "while_true"@ + tmp_name(k as nat),
        Label::ForTrue(k) => "for_true"@ + tmp_name(k as nat),
        Label::End(k) => "end"@ + tmp_name(k as nat),
    }
}

/// `i32 noundef %a0, i32 noundef %a1, ...`
pub open spec fn args_text(args: Seq<usize>) -> Seq<char>
    decreases args.len(),
{
    if args.len() == 0 {
        Seq::empty()
    } else if args.len() == 1 {
        "i32 noundef "@ + reg_text(args[0])
    } else {
        args_text(args.drop_last()) + ", "@ + "i32 noundef "@ + reg_text(args.last())
    }
}

/// The line that an instruction is written as.
pub open spec fn inst_text(i: Inst) -> Seq<char> {
    match i {
        Inst::Const { dst, value } => reg_text(dst) + " = add i32 0, "@ + decimal_spec(
            value as nat,
        ),
        Inst::Alloca { dst } => reg_text(dst) + " = alloca i32"@,
        Inst::Load { dst, ptr } => reg_text(dst) + " = load i32, i32* "@ + reg_text(ptr),
        Inst::Store { src, ptr } => "store i32 "@ + reg_text(src) + ", i32* "@ + reg_text(ptr),
        Inst::Arith { dst, op, lhs, rhs } => reg_text(dst) + " = "@ + arith_mnemonic(op)
            + " i32 "@ + reg_text(lhs) + ", "@ + reg_text(rhs),
        Inst::Compare { dst, op, lhs, rhs } => reg_text(dst) + " = "@ + compare_mnemonic(op)
            + " i32 "@ + reg_text(lhs) + ", "@ + reg_text(rhs),
        Inst::Widen { dst, src } => reg_text(dst) + " = zext i1 "@ + reg_text(src) + " to i32"@,
        Inst::Narrow { dst, src } => reg_text(dst) + " = icmp ne i32 "@ + reg_text(src)
            + ", 0"@,
        Inst::Label(l) => label_text(l) + ":"@,
        Inst::Br(l) => "br label %"@ + label_text(l),
        Inst::CondBr { cond, on_true, on_false } => "br i1 "@ + reg_text(cond) + ", label %"@
            + label_text(on_true) + ", label %"@ + label_text(on_false),
        Inst::Ret { value } => "ret i32 "@ + reg_text(value),
        Inst::Call { dst, callee, args } => reg_text(dst) + " = call i32 @"@ + callee@ + "("@
            + args_text(args@) + ")"@,
        Inst::Define { name, params } => "define i32 @"@ + name@ + "("@ + args_text(params@)
            + ") {"@,
        Inst::Close => "}"@,
    }
}

fn push_reg(s: &mut String, k: usize)
    ensures
        final(s)@ == old(s)@ + reg_text(k),
{
    s.append("%tmp");
    push_decimal(s, k);
    proof {
        reveal_strlit("%tmp");
        reveal_strlit("%");
        reveal_strlit("tmp");
        assert(final(s)@ =~= old(s)@ + reg_text(k));
    }
}

fn push_label(s: &mut String, l: Label)
    ensures
        final(s)@ == old(s)@ + label_text(l),
{
    let ghost s0 = s@;
    let (front, k, back) = match l {
        Label::IfTrue(k) => ("iftmp", k, "_true"),
        Label::IfFalse(k) => ("iftmp", k, "_false"),
        Label::IfEnd(k) => ("iftmp", k, "_end"),
        Label::Begin(k) => ("begintmp", k, ""),
        Label::WhileTrue(k) => ("while_truetmp", k, ""),
        Label::ForTrue(k) => ("for_truetmp", k, ""),
        Label::End(k) => ("endtmp", k, ""),
    };
    s.append(front);
    push_decimal(s, k);
    s.append(back);
    proof {
        reveal_strlit("iftmp");
        reveal_strlit("begintmp");
        reveal_strlit("while_truetmp");
        reveal_strlit("for_truetmp");
        reveal_strlit("endtmp");
        reveal_strlit("if");
        reveal_strlit("begin");
        reveal_strlit("while_true");
        reveal_strlit("for_true");
        reveal_strlit("end");
        reveal_strlit("tmp");
        reveal_strlit("");
        assert(s@ =~= s0 + label_text(l));
    }
}

fn push_args(s: &mut String, args: &Vec<usize>)
    ensures
        final(s)@ == old(s)@ + args_text(args@),
{
    let ghost s0 = s@;
    let mut i: usize = 0;
    while i < args.len()
        invariant
            0 <= i <= args@.len(),
            s@ == s0 + args_text(args@.subrange(0, i as int)),
        decreases args@.len() - i,
    {
        let ghost before = s@;
        if i > 0 {
            s.append(", ");
        }
        s.append("i32 noundef ");
        push_reg(s, args[i]);
        proof {
            let sub = args@.subrange(0, i + 1);
            assert(sub.drop_last() =~= args@.subrange(0, i as int));
            if i == 0 {
                assert(args@.subrange(0, 0) =~= Seq::<usize>::empty());
                assert(s@ =~= s0 + args_text(sub));
            } else {
                assert(s@ =~= s0 + args_text(sub));
            }
        }
        i = i + 1;
    }
    assert(args@.subrange(0, args@.len() as int) =~= args@);
}

impl Inst {
    /// The line this instruction is written as.
    pub fn render(&self) -> (r: String)
        ensures
            r@ == inst_text(*self),
    {
        let mut s = String::new();
        match self {
            Inst::Const { dst, value } => {
                push_reg(&mut s, *dst);
                s.append(" = add i32 0, ");
                push_decimal(&mut s, *value);
            },
            Inst::Alloca { dst } => {
                push_reg(&mut s, *dst);
                s.append(" = alloca i32");
            },
            Inst::Load { dst, ptr } => {
                push_reg(&mut s, *dst);
                s.append(" = load i32, i32* ");
                push_reg(&mut s, *ptr);
            },
            Inst::Store { src, ptr } => {
                s.append("store i32 ");
                push_reg(&mut s, *src);
                s.append(", i32* ");
                push_reg(&mut s, *ptr);
            },
            Inst::Arith { dst, op, lhs, rhs } => {
                push_reg(&mut s, *dst);
                s.append(" = ");
                s.append(arith_str(*op));
                s.append(" i32 ");
                push_reg(&mut s, *lhs);
                s.append(", ");
                push_reg(&mut s, *rhs);
            },
            Inst::Compare { dst, op, lhs, rhs } => {
                push_reg(&mut s, *dst);
                s.append(" = ");
                s.append(compare_str(*op));
                s.append(" i32 ");
                push_reg(&mut s, *lhs);
                s.append(", ");
                push_reg(&mut s, *rhs);
            },
            Inst::Widen { dst, src } => {
                push_reg(&mut s, *dst);
                s.append(" = zext i1 ");
                push_reg(&mut s, *src);
                s.append(" to i32");
            },
            Inst::Narrow { dst, src } => {
                push_reg(&mut s, *dst);
                s.append(" = icmp ne i32 ");
                push_reg(&mut s, *src);
                s.append(", 0");
            },
            Inst::Label(l) => {
                push_label(&mut s, *l);
                s.append(":");
            },
            Inst::Br(l) => {
                s.append("br label %");
                push_label(&mut s, *l);
            },
            Inst::CondBr { cond, on_true, on_false } => {
                s.append("br i1 ");
                push_reg(&mut s, *cond);
                s.append(", label %");
                push_label(&mut s, *on_true);
                s.append(", label %");
                push_label(&mut s, *on_false);
            },
            Inst::Ret { value } => {
                s.append("ret i32 ");
                push_reg(&mut s, *value);
            },
            Inst::Call { dst, callee, args } => {
                push_reg(&mut s, *dst);
                s.append(" = call i32 @");
                s.append(callee.as_str());
                s.append("(");
                push_args(&mut s, args);
                s.append(")");
            },
            Inst::Define { name, params } => {
                s.append("define i32 @");
                s.append(name.as_str());
                s.append("(");
                push_args(&mut s, params);
                s.append(") {");
            },
            Inst::Close => {
                s.append("}");
            },
        }
        assert(s@ =~= inst_text(*self));
        s
    }
}

fn arith_str(op: Arithmetic) -> (r: &'static str)
    ensures
        r@ == arith_mnemonic(op),
{
    match op {
        Arithmetic::Add => "add",
        Arithmetic::Sub => "sub",
        Arithmetic::Mul => "mul",
        Arithmetic::Div => "sdiv",
    }
}

fn compare_str(op: Comparison) -> (r: &'static str)
    ensures
        r@ == compare_mnemonic(op),
{
    match op {
        Comparison::Eq => "icmp eq",
        Comparison::Neq => "icmp ne",
        Comparison::Lt => "icmp slt",
        Comparison::Le => "icmp sle",
        Comparison::Gt => "icmp sgt",
        Comparison::Ge => "icmp sge",
    }
}

proof fn lemma_decimal_len(n: nat)
    ensures
        decimal_spec(n).len() >= 1,
    decreases n,
{
    if n >= 10 {
        lemma_decimal_len(n / 10);
    }
}

/// Distinct numbers have distinct decimal spellings.
pub proof fn lemma_decimal_injective(a: nat, b: nat)
    requires
        decimal_spec(a) == decimal_spec(b),
    ensures
        a == b,
    decreases a,
{
    if a < 10 && b < 10 {
        assert(decimal_spec(a)[0] == digit_char(a));
        assert(decimal_spec(b)[0] == digit_char(b));
    } else if a < 10 {
        lemma_decimal_len(b / 10);
        assert(decimal_spec(b).len() == decimal_spec(b / 10).len() + 1);
    } else if b < 10 {
        lemma_decimal_len(a / 10);
        assert(decimal_spec(a).len() == decimal_spec(a / 10).len() + 1);
    } else {
        let da = decimal_spec(a);
        let db = decimal_spec(b);
        assert(da.last() == digit_char(a % 10));
        assert(db.last() == digit_char(b % 10));
        assert(a % 10 == b % 10);
        assert(da.drop_last() =~= decimal_spec(a / 10));
        assert(db.drop_last() =~= decimal_spec(b / 10));
        lemma_decimal_injective(a / 10, b / 10);
        assert(a == 10 * (a / 10) + a % 10) by (nonlinear_arith);
        assert(b == 10 * (b / 10) + b % 10) by (nonlinear_arith);
    }
}

/// Distinct temporaries have distinct names.
pub proof fn lemma_tmp_name_injective(a: nat, b: nat)
    requires
        a != b,
    ensures
        tmp_name(a) != tmp_name(b),
{
    reveal_strlit("tmp");
    if tmp_name(a) == tmp_name(b) {
        assert(decimal_spec(a) =~= tmp_name(a).subrange(3, tmp_name(a).len() as int));
        assert(decimal_spec(b) =~= tmp_name(b).subrange(3, tmp_name(b).len() as int));
        lemma_decimal_injective(a, b);
    }
}

/// What an instruction says, with names and lists as sequences.
pub enum InstV {
    Const { dst: usize, value: usize },
    Alloca { dst: usize },
    Load { dst: usize, ptr: usize },
    Store { src: usize, ptr: usize },
    Arith { dst: usize, op: Arithmetic, lhs: usize, rhs: usize },
    Compare { dst: usize, op: Comparison, lhs: usize, rhs: usize },
    Widen { dst: usize, src: usize },
    Narrow { dst: usize, src: usize },
    Label(Label),
    Br(Label),
    CondBr { cond: usize, on_true: Label, on_false: Label },
    Ret { value: usize },
    Call { dst: usize, callee: Seq<char>, args: Seq<usize> },
    Define { name: Seq<char>, params: Seq<usize> },
    Close,
}

impl View for Inst {
    type V = InstV;

    open spec fn view(&self) -> InstV {
        match *self {
            Inst::Const { dst, value } => InstV::Const { dst, value },
            Inst::Alloca { dst } => InstV::Alloca { dst },
            Inst::Load { dst, ptr } => InstV::Load { dst, ptr },
            Inst::Store { src, ptr } => InstV::Store { src, ptr },
            Inst::Arith { dst, op, lhs, rhs } => InstV::Arith { dst, op, lhs, rhs },
            Inst::Compare { dst, op, lhs, rhs } => InstV::Compare { dst, op, lhs, rhs },
            Inst::Widen { dst, src } => InstV::Widen { dst, src },
            Inst::Narrow { dst, src } => InstV::Narrow { dst, src },
            Inst::Label(l) => InstV::Label(l),
            Inst::Br(l) => InstV::Br(l),
            Inst::CondBr { cond, on_true, on_false } => InstV::CondBr { cond, on_true, on_false },
            Inst::Ret { value } => InstV::Ret { value },
            Inst::Call { dst, callee, args } => InstV::Call { dst, callee: callee@, args: args@ },
            Inst::Define { name, params } => InstV::Define { name: name@, params: params@ },
            Inst::Close => InstV::Close,
        }
    }
}

} // verus!
