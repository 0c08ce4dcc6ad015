//! The token vocabulary and the classification of fixed lexemes.

use vstd::prelude::*;

verus! {

#[derive(Debug, Clone, Copy, PartialEq, Eq, Structural)]
pub enum Arithmetic {
    Add,
    Sub,
    Mul,
    Div,
}

#[derive(Debug, Clone, Copy, PartialEq, Eq, Structural)]
pub enum Parentheses {
    L,
    R,
}

#[derive(Debug, Clone, Copy, PartialEq, Eq, Structural)]
pub enum BlockBrace {
    L,
    R,
}

#[derive(Debug, Clone, Copy, PartialEq, Eq, Structural)]
pub enum Comparison {
    Eq,
    Neq,
    Lt,
    Le,
    Gt,
    Ge,
}

#[derive(Debug, Clone, Copy, PartialEq, Eq, Structural)]
pub enum ExprSymbol {
    Arithmetic(Arithmetic),
    Parentheses(Parentheses),
    BlockDelimiter(BlockBrace),
    Comparison(Comparison),
    Assignment,
    Stop,
    Comma,
}

#[derive(Debug, Clone, PartialEq)]
pub enum Value {
    Number(usize),
    Ident(String),
}

#[derive(Debug, Clone, Copy, PartialEq, Eq, Structural)]
pub enum ControlStructure {
    If,
    Else,
    For,
    While,
    Return,
}

#[derive(Debug, Clone, PartialEq)]
pub enum Token {
    ControlStructure(ControlStructure),
    ExprSymbol(ExprSymbol),
    Value(Value),
}

/// The fixed lexemes and the token each one stands for.
pub open spec fn symbols() -> Seq<(Seq<char>, Token)> {
    seq![
        ("+"@, Token::ExprSymbol(ExprSymbol::Arithmetic(Arithmetic::Add))),
        ("-"@, Token::ExprSymbol(ExprSymbol::Arithmetic(Arithmetic::Sub))),
        ("*"@, Token::ExprSymbol(ExprSymbol::Arithmetic(Arithmetic::Mul))),
        ("/"@, Token::ExprSymbol(ExprSymbol::Arithmetic(Arithmetic::Div))),
        ("("@, Token::ExprSymbol(ExprSymbol::Parentheses(Parentheses::L))),
        (")"@, Token::ExprSymbol(ExprSymbol::Parentheses(Parentheses::R))),
        ("{"@, Token::ExprSymbol(ExprSymbol::BlockDelimiter(BlockBrace::L))),
        ("}"@, Token::ExprSymbol(ExprSymbol::BlockDelimiter(BlockBrace::R))),
        ("=="@, Token::ExprSymbol(ExprSymbol::Comparison(Comparison::Eq))),
        ("!="@, Token::ExprSymbol(ExprSymbol::Comparison(Comparison::Neq))),
        ("<"@, Token::ExprSymbol(ExprSymbol::Comparison(Comparison::Lt))),
        ("<="@, Token::ExprSymbol(ExprSymbol::Comparison(Comparison::Le))),
        (">"@, Token::ExprSymbol(ExprSymbol::Comparison(Comparison::Gt))),
        (">="@, Token::ExprSymbol(ExprSymbol::Comparison(Comparison::Ge))),
        ("="@, Token::ExprSymbol(ExprSymbol::Assignment)),
        (";"@, Token::ExprSymbol(ExprSymbol::Stop)),
        (","@, Token::ExprSymbol(ExprSymbol::Comma)),
        ("if"@, Token::ControlStructure(ControlStructure::If)),
        ("else"@, Token::ControlStructure(ControlStructure::Else)),
        ("while"@, Token::ControlStructure(ControlStructure::While)),
        ("for"@, Token::ControlStructure(ControlStructure::For)),
        ("return"@, Token::ControlStructure(ControlStructure::Return)),
    ]
}

/// The token of the first entry of `table` whose lexeme is `s`, if any.
pub open spec fn first_match(table: Seq<(Seq<char>, Token)>, s: Seq<char>) -> Option<Token>
    decreases table.len(),
{
    if table.len() == 0 {
        None
    } else if table[0].0 == s {
        Some(table[0].1)
    } else {
        first_match(table.drop_first(), s)
    }
}

/// What classification gives for the lexeme `s`.
pub open spec fn classify_spec(s: Seq<char>) -> Option<Token> {
    first_match(symbols(), s)
}

/// Character-by-character equality of two strings.
fn same_text(a: &str, b: &str) -> (r: bool)
    ensures
        r == (a@ == b@),
{
    let n = a.unicode_len();
    if n != b.unicode_len() {
        return false;
    }
    let mut i: usize = 0;
    while i < n
        invariant
            n == a@.len(),
            n == b@.len(),
            0 <= i <= n,
            forall|k: int| 0 <= k < i ==> a@[k] == b@[k],
        decreases n - i,
    {
        if a.get_char(i) != b.get_char(i) {
            return false;
        }
        i = i + 1;
    }
    assert(a@ =~= b@);
    true
}

impl Token {
    pub fn arith(a: Arithmetic) -> (r: Self)
        ensures
            r == Token::ExprSymbol(ExprSymbol::Arithmetic(a)),
    {
        Self::ExprSymbol(ExprSymbol::Arithmetic(a))
    }

    pub fn comp(c: Comparison) -> (r: Self)
        ensures
            r == Token::ExprSymbol(ExprSymbol::Comparison(c)),
    {
        Self::ExprSymbol(ExprSymbol::Comparison(c))
    }

    pub fn paren(p: Parentheses) -> (r: Self)
        ensures
            r == Token::ExprSymbol(ExprSymbol::Parentheses(p)),
    {
        Self::ExprSymbol(ExprSymbol::Parentheses(p))
    }

    pub fn block(b: BlockBrace) -> (r: Self)
        ensures
            r == Token::ExprSymbol(ExprSymbol::BlockDelimiter(b)),
    {
        Self::ExprSymbol(ExprSymbol::BlockDelimiter(b))
    }

    pub fn assign() -> (r: Self)
        ensures
            r == Token::ExprSymbol(ExprSymbol::Assignment),
    {
        Self::ExprSymbol(ExprSymbol::Assignment)
    }

    pub fn stop() -> (r: Self)
        ensures
            r == Token::ExprSymbol(ExprSymbol::Stop),
    {
        Self::ExprSymbol(ExprSymbol::Stop)
    }

    pub fn comma() -> (r: Self)
        ensures
            r == Token::ExprSymbol(ExprSymbol::Comma),
    {
        Self::ExprSymbol(ExprSymbol::Comma)
    }

    pub fn ctrl(c: ControlStructure) -> (r: Self)
        ensures
            r == Token::ControlStructure(c),
    {
        Self::ControlStructure(c)
    }

    pub fn number(n: usize) -> (r: Self)
        ensures
            r == Token::Value(Value::Number(n)),
    {
        Self::Value(Value::Number(n))
    }

    pub fn ident(name: &str) -> (r: Self)
        ensures
            r matches Token::Value(Value::Ident(s)) && s@ == name@,
    {
        Self::Value(Value::Ident(String::from_str(name)))
    }
}

impl Token {
    /// The token that the lexeme `input` spells, or `None` where it is none
    /// of the fixed lexemes.
    pub fn classify(input: &str) -> (r: Option<Self>)
        ensures
            r == classify_spec(input@),
    {
        proof {
            reveal_with_fuel(first_match, 23);
        }
        if same_text(input, "+") {
            return Some(Token::arith(Arithmetic::Add));
        }
        if same_text(input, "-") {
            return Some(Token::arith(Arithmetic::Sub));
        }
        if same_text(input, "*") {
            return Some(Token::arith(Arithmetic::Mul));
        }
        if same_text(input, "/") {
            return Some(Token::arith(Arithmetic::Div));
        }
        if same_text(input, "(") {
            return Some(Token::paren(Parentheses::L));
        }
        if same_text(input, ")") {
            return Some(Token::paren(Parentheses::R));
        }
        if same_text(input, "{") {
            return Some(Token::block(BlockBrace::L));
        }
        if same_text(input, "}") {
            return Some(Token::block(BlockBrace::R));
        }
        if same_text(input, "==") {
            return Some(Token::comp(Comparison::Eq));
        }
        if same_text(input, "!=") {
            return Some(Token::comp(Comparison::Neq));
        }
        if same_text(input, "<") {
            return Some(Token::comp(Comparison::Lt));
        }
        if same_text(input, "<=") {
            return Some(Token::comp(Comparison::Le));
        }
        if same_text(input, ">") {
            return Some(Token::comp(Comparison::Gt));
        }
        if same_text(input, ">=") {
            return Some(Token::comp(Comparison::Ge));
        }
        if same_text(input, "=") {
            return Some(Token::assign());
        }
        if same_text(input, ";") {
            return Some(Token::stop());
        }
        if same_text(input, ",") {
            return Some(Token::comma());
        }
        if same_text(input, "if") {
            return Some(Token::ctrl(ControlStructure::If));
        }
        if same_text(input, "else") {
            return Some(Token::ctrl(ControlStructure::Else));
        }
        if same_text(input, "while") {
            return Some(Token::ctrl(ControlStructure::While));
        }
        if same_text(input, "for") {
            return Some(Token::ctrl(ControlStructure::For));
        }
        if same_text(input, "return") {
            return Some(Token::ctrl(ControlStructure::Return));
        }
        None
    }
}

proof fn lemma_first_match_at(table: Seq<(Seq<char>, Token)>, i: int)
    requires
        0 <= i < table.len(),
        forall|j: int| 0 <= j < i ==> table[j].0 != table[i].0,
    ensures
        first_match(table, table[i].0) == Some(table[i].1),
    decreases i,
{
    if i > 0 {
        let rest = table.drop_first();
        assert(rest[i - 1] == table[i]);
        assert forall|j: int| 0 <= j < i - 1 implies #[trigger] rest[j].0 != rest[i - 1].0 by {
            assert(rest[j] == table[j + 1]);
        }
        lemma_first_match_at(rest, i - 1);
    }
}

/// Classification is a function of the lexeme: each fixed lexeme always gives
/// the token that the table pairs with it.
pub proof fn lemma_classify_table(i: int)
    requires
        0 <= i < symbols().len(),
    ensures
        classify_spec(symbols()[i].0) == Some(symbols()[i].1),
{
    reveal_strlit("+");
    reveal_strlit("-");
    reveal_strlit("*");
    reveal_strlit("/");
    reveal_strlit("(");
    reveal_strlit(")");
    reveal_strlit("{");
    reveal_strlit("}");
    reveal_strlit("==");
    reveal_strlit("!=");
    reveal_strlit("<");
    reveal_strlit("<=");
    reveal_strlit(">");
    reveal_strlit(">=");
    reveal_strlit("=");
    reveal_strlit(";");
    reveal_strlit(",");
    reveal_strlit("if");
    reveal_strlit("else");
    reveal_strlit("while");
    reveal_strlit("for");
    reveal_strlit("return");
    let t = symbols();
    assert forall|j: int, k: int| 0 <= j < k < t.len() implies t[j].0 != t[k].0 by {
        if t[j].0.len() == t[k].0.len() {
            assert(t[j].0[0] != t[k].0[0] || t[j].0[1] != t[k].0[1]);
        }
    }
    lemma_first_match_at(t, i);
}

/// A string that is none of the fixed lexemes is never classified.
pub proof fn lemma_classify_no_match(s: Seq<char>)
    requires
        forall|i: int| 0 <= i < symbols().len() ==> symbols()[i].0 != s,
    ensures
        classify_spec(s) is None,
{
    reveal_with_fuel(first_match, 23);
    assert(symbols()[0].0 != s);
    assert(symbols()[1].0 != s);
    assert(symbols()[2].0 != s);
    assert(symbols()[3].0 != s);
    assert(symbols()[4].0 != s);
    assert(symbols()[5].0 != s);
    assert(symbols()[6].0 != s);
    assert(symbols()[7].0 != s);
    assert(symbols()[8].0 != s);
    assert(symbols()[9].0 != s);
    assert(symbols()[10].0 != s);
    assert(symbols()[11].0 != s);
    assert(symbols()[12].0 != s);
    assert(symbols()[13].0 != s);
    assert(symbols()[14].0 != s);
    assert(symbols()[15].0 != s);
    assert(symbols()[16].0 != s);
    assert(symbols()[17].0 != s);
    assert(symbols()[18].0 != s);
    assert(symbols()[19].0 != s);
    assert(symbols()[20].0 != s);
    assert(symbols()[21].0 != s);
}

} // verus!
