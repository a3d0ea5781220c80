//! The expression tree built by the parser.
//!
//! A tree is a constant leaf or an operator node that owns one or two
//! sub-expressions. Numeric literals are kept as their exact source text, so
//! no precision is lost before a caller converts them.
use vstd::prelude::*;

verus! {

/// True for the characters a numeric literal is made of: a decimal digit or `.`.
pub open spec fn is_literal_char(c: char) -> bool {
    ('0' <= c && c <= '9') || c == '.'
}

/// True for a decimal digit.
pub open spec fn is_digit(c: char) -> bool {
    '0' <= c && c <= '9'
}

/// A well-formed literal: digits and at most one `.`, with at least one digit
/// (`12`, `1.5`, `.5`, `3.`; not `.` nor `1.2.3`).
pub open spec fn literal_ok(t: Seq<char>) -> bool {
    &&& forall|k: int| 0 <= k < t.len() ==> #[trigger] is_literal_char(t[k])
    &&& exists|k: int| 0 <= k < t.len() && #[trigger] is_digit(t[k])
    &&& forall|a: int, b: int| 0 <= a < b < t.len() && t[a] == '.' ==> t[b] != '.'
}

/// The digit character for `d < 10`.
pub open spec fn digit_char(d: int) -> char {
    seq!['0', '1', '2', '3', '4', '5', '6', '7', '8', '9'][d]
}

/// The decimal text of `v`, without leading zeros.
pub open spec fn decimal(v: nat) -> Seq<char>
    decreases v,
{
    if v < 10 {
        seq![digit_char(v as int)]
    } else {
        decimal(v / 10).push(digit_char((v % 10) as int))
    }
}

proof fn lemma_decimal_digits(v: nat)
    ensures
        decimal(v).len() > 0,
        forall|k: int| 0 <= k < decimal(v).len() ==> #[trigger] is_digit(decimal(v)[k]),
    decreases v,
{
    if v >= 10 {
        lemma_decimal_digits(v / 10);
    }
}

/// The decimal text of an integer is a well-formed literal.
pub proof fn lemma_decimal_literal(v: nat)
    ensures
        literal_ok(decimal(v)),
{
    lemma_decimal_digits(v);
    let t = decimal(v);
    assert(is_digit(t[0]));
    assert forall|k: int| 0 <= k < t.len() implies #[trigger] is_literal_char(t[k]) by {
        assert(is_digit(t[k]));
    }
    assert forall|a: int, b: int| 0 <= a < b < t.len() && t[a] == '.' implies t[b] != '.' by {
        assert(is_digit(t[a]));
    }
}

/// Appends the decimal text of `v`.
fn push_decimal(v: u64, out: &mut Vec<char>)
    ensures
        final(out)@ == old(out)@ + decimal(v as nat),
    decreases v,
{
    if v >= 10 {
        push_decimal(v / 10, out);
    }
    let d = v % 10;
    let c = if d == 0 {
        '0'
    } else if d == 1 {
        '1'
    } else if d == 2 {
        '2'
    } else if d == 3 {
        '3'
    } else if d == 4 {
        '4'
    } else if d == 5 {
        '5'
    } else if d == 6 {
        '6'
    } else if d == 7 {
        '7'
    } else if d == 8 {
        '8'
    } else {
        '9'
    };
    out.push(c);
    proof {
        if v >= 10 {
            assert(decimal(v as nat) == decimal((v / 10) as nat).push(digit_char((v % 10) as int)));
        }
    }
    assert(final(out)@ =~= old(out)@ + decimal(v as nat));
}

/// A numeric constant, held as the text of a well-formed literal.
pub struct Number {
    text: Vec<char>,
}

impl View for Number {
    type V = Seq<char>;

    closed spec fn view(&self) -> Seq<char> {
        self.text@
    }
}

impl Number {
    /// The literal always satisfies `literal_ok`.
    pub closed spec fn wf(&self) -> bool {
        literal_ok(self.text@)
    }

    /// Checks whether `t` is a well-formed literal.
    pub fn is_literal(t: &[char]) -> (r: bool)
        ensures
            r == literal_ok(t@),
    {
        let mut i: usize = 0;
        let mut dots: usize = 0;
        let mut digit = false;
        while i < t.len()
            invariant
                i <= t@.len(),
                dots <= 1,
                forall|k: int| 0 <= k < i ==> #[trigger] is_literal_char(t@[k]),
                digit <==> exists|k: int| 0 <= k < i && #[trigger] is_digit(t@[k]),
                dots == 0 ==> forall|k: int| 0 <= k < i ==> t@[k] != '.',
                dots == 1 ==> exists|k: int| 0 <= k < i && t@[k] == '.',
                forall|a: int, b: int| 0 <= a < b < i && t@[a] == '.' ==> t@[b] != '.',
            decreases t.len() - i,
        {
            let c = t[i];
            if c == '.' {
                if dots == 1 {
                    return false;
                }
                dots = 1;
                assert(!is_digit(t@[i as int]));
            } else if '0' <= c && c <= '9' {
                digit = true;
                assert(is_digit(t@[i as int]));
            } else {
                assert(!is_literal_char(t@[i as int]));
                return false;
            }
            i = i + 1;
        }
        digit
    }

    /// Makes a number from literal text, or `None` where the text is not a
    /// well-formed literal.
    pub fn new(text: Vec<char>) -> (r: Option<Number>)
        ensures
            r is Some <==> literal_ok(text@),
            r matches Some(n) ==> n@ == text@ && n.wf(),
    {
        if Number::is_literal(text.as_slice()) {
            Some(Number { text })
        } else {
            None
        }
    }

    /// The constant with the value of an integer, written in decimal.
    pub fn from_u64(v: u64) -> (r: Number)
        ensures
            r@ == decimal(v as nat),
            r.wf(),
    {
        let mut text: Vec<char> = Vec::new();
        push_decimal(v, &mut text);
        proof {
            lemma_decimal_literal(v as nat);
            assert(text@ =~= decimal(v as nat));
        }
        Number { text }
    }

    /// The literal text.
    pub fn as_chars(&self) -> (r: &[char])
        ensures
            r@ == self@,
    {
        self.text.as_slice()
    }
}

/// The mathematical shape of an expression: what a tree means, with each
/// constant given by its literal text.
pub enum Tree {
    Const(Seq<char>),
    Add(Box<Tree>, Box<Tree>),
    Sub(Box<Tree>, Box<Tree>),
    Mul(Box<Tree>, Box<Tree>),
    Div(Box<Tree>, Box<Tree>),
    Rem(Box<Tree>, Box<Tree>),
    Neg(Box<Tree>),
    Abs(Box<Tree>),
}

/// An operator node, which owns its operands.
pub enum Operator {
    /// The sum of two expressions.
    Add(Box<Expression>, Box<Expression>),
    /// The difference of two expressions.
    Sub(Box<Expression>, Box<Expression>),
    /// The product of two expressions.
    Mul(Box<Expression>, Box<Expression>),
    /// The quotient of two expressions.
    Div(Box<Expression>, Box<Expression>),
    /// The remainder of two expressions.
    Rem(Box<Expression>, Box<Expression>),
    /// The negation of an expression.
    Neg(Box<Expression>),
    /// The absolute value of an expression.
    Abs(Box<Expression>),
}

/// An expression tree: a constant or an operator node.
pub enum Expression {
    Constant(Number),
    Op(Operator),
}

impl Expression {
    /// The tree this expression stands for.
    pub open spec fn tree(&self) -> Tree
        decreases self,
    {
        match self {
            Expression::Constant(n) => Tree::Const(n@),
            Expression::Op(op) => match op {
                Operator::Add(l, r) => Tree::Add(Box::new(l.tree()), Box::new(r.tree())),
                Operator::Sub(l, r) => Tree::Sub(Box::new(l.tree()), Box::new(r.tree())),
                Operator::Mul(l, r) => Tree::Mul(Box::new(l.tree()), Box::new(r.tree())),
                Operator::Div(l, r) => Tree::Div(Box::new(l.tree()), Box::new(r.tree())),
                Operator::Rem(l, r) => Tree::Rem(Box::new(l.tree()), Box::new(r.tree())),
                Operator::Neg(e) => Tree::Neg(Box::new(e.tree())),
                Operator::Abs(e) => Tree::Abs(Box::new(e.tree())),
            },
        }
    }

    /// Every constant in the tree holds a well-formed literal.
    pub open spec fn wf(&self) -> bool
        decreases self,
    {
        match self {
            Expression::Constant(n) => n.wf(),
            Expression::Op(op) => match op {
                Operator::Add(l, r) => l.wf() && r.wf(),
                Operator::Sub(l, r) => l.wf() && r.wf(),
                Operator::Mul(l, r) => l.wf() && r.wf(),
                Operator::Div(l, r) => l.wf() && r.wf(),
                Operator::Rem(l, r) => l.wf() && r.wf(),
                Operator::Neg(e) => e.wf(),
                Operator::Abs(e) => e.wf(),
            },
        }
    }
}

/// A constant expression.
pub fn val(n: Number) -> (e: Expression)
    ensures
        e.tree() == Tree::Const(n@),
        e.wf() == n.wf(),
{
    Expression::Constant(n)
}

/// The sum of two expressions.
pub fn add(l: Expression, r: Expression) -> (e: Expression)
    ensures
        e.tree() == Tree::Add(Box::new(l.tree()), Box::new(r.tree())),
        e.wf() == (l.wf() && r.wf()),
{
    Expression::Op(Operator::Add(Box::new(l), Box::new(r)))
}

/// The difference of two expressions.
pub fn sub(l: Expression, r: Expression) -> (e: Expression)
    ensures
        e.tree() == Tree::Sub(Box::new(l.tree()), Box::new(r.tree())),
        e.wf() == (l.wf() && r.wf()),
{
    Expression::Op(Operator::Sub(Box::new(l), Box::new(r)))
}

/// The product of two expressions.
pub fn mul(l: Expression, r: Expression) -> (e: Expression)
    ensures
        e.tree() == Tree::Mul(Box::new(l.tree()), Box::new(r.tree())),
        e.wf() == (l.wf() && r.wf()),
{
    Expression::Op(Operator::Mul(Box::new(l), Box::new(r)))
}

/// The quotient of two expressions.
pub fn div(l: Expression, r: Expression) -> (e: Expression)
    ensures
        e.tree() == Tree::Div(Box::new(l.tree()), Box::new(r.tree())),
        e.wf() == (l.wf() && r.wf()),
{
    Expression::Op(Operator::Div(Box::new(l), Box::new(r)))
}

/// The remainder of two expressions.
pub fn rem(l: Expression, r: Expression) -> (e: Expression)
    ensures
        e.tree() == Tree::Rem(Box::new(l.tree()), Box::new(r.tree())),
        e.wf() == (l.wf() && r.wf()),
{
    Expression::Op(Operator::Rem(Box::new(l), Box::new(r)))
}

/// The negation of an expression.
pub fn neg(x: Expression) -> (e: Expression)
    ensures
        e.tree() == Tree::Neg(Box::new(x.tree())),
        e.wf() == x.wf(),
{
    Expression::Op(Operator::Neg(Box::new(x)))
}

/// The absolute value of an expression.
pub fn abs(x: Expression) -> (e: Expression)
    ensures
        e.tree() == Tree::Abs(Box::new(x.tree())),
        e.wf() == x.wf(),
{
    Expression::Op(Operator::Abs(Box::new(x)))
}

} // verus!
