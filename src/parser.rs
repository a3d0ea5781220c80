//! The recursive-descent parser.
//!
//! The grammar, lowest precedence first:
//!
//! ```txt
//! add    := mul (('+' | '-') add)?
//! mul    := base (('*' | '/' | '%') mul)?
//! base   := '-' base | '+' base | '(' add ')' | '|' add '|' | number
//! number := [0-9.]+
//! ```
//!
//! Spaces and tabs may stand between tokens; a line feed or carriage return
//! ends the input. Each level is described below by a spec function from the
//! input and a start position to an outcome and the position where the parser
//! stops, and the executable parser is proved to follow it.
use vstd::prelude::*;
use crate::expression::{Expression, Number, Tree, is_literal_char, literal_ok};
use crate::expression;
use vstd::std_specs::iter::IteratorSpec;

verus! {

/// What one parse step found: a tree, nothing, or an error message with the
/// character index where it was detected.
pub enum Outcome {
    Present(Tree),
    Absent,
    Error(Seq<char>, int),
}

pub open spec fn msg_incorrect_number() -> Seq<char> {
    "Incorrect number"@
}

pub open spec fn msg_expected_paren() -> Seq<char> {
    "Expected ')'"@
}

pub open spec fn msg_expected_bar() -> Seq<char> {
    "Expected '|'"@
}

pub open spec fn msg_extra_input() -> Seq<char> {
    "Extra input"@
}

/// The character at `i`, unless `i` is past the end or at a line terminator.
pub open spec fn peek_at(s: Seq<char>, i: int) -> Option<char> {
    if 0 <= i < s.len() && s[i] != '\n' && s[i] != '\r' {
        Some(s[i])
    } else {
        None
    }
}

pub open spec fn is_space_char(c: char) -> bool {
    c == ' ' || c == '\t'
}

/// The first position at or after `i` that does not hold a space or a tab.
pub open spec fn space_end(s: Seq<char>, i: int) -> int
    decreases s.len() - i,
{
    if 0 <= i < s.len() && is_space_char(s[i]) {
        space_end(s, i + 1)
    } else {
        i
    }
}

/// The first position at or after `i` that does not hold a literal character.
pub open spec fn literal_end(s: Seq<char>, i: int) -> int
    decreases s.len() - i,
{
    if 0 <= i < s.len() && is_literal_char(s[i]) {
        literal_end(s, i + 1)
    } else {
        i
    }
}

/// `number` at `i`: absent unless a literal character comes after the
/// spaces; else the maximal run of literal characters, which must be a
/// well-formed literal.
pub open spec fn number_at(s: Seq<char>, i: int) -> (Outcome, int) {
    let a = space_end(s, i);
    if !(peek_at(s, a) matches Some(c) && is_literal_char(c)) {
        (Outcome::Absent, a)
    } else {
        let b = literal_end(s, a);
        if literal_ok(s.subrange(a, b)) {
            (Outcome::Present(Tree::Const(s.subrange(a, b))), b)
        } else {
            (Outcome::Error(msg_incorrect_number(), a), b)
        }
    }
}

/// `base` at `i`. Unary `+` negates, as unary `-` does.
pub open spec fn base_at(s: Seq<char>, i: int) -> (Outcome, int)
    decreases s.len() - i, 0int,
{
    let a = space_end(s, i);
    // Never taken (`lemma_space_end_advances`); the test lets the termination
    // check see that the recursive calls below start further on.
    if a < i {
        (Outcome::Absent, i)
    } else if peek_at(s, a) == Some('-') || peek_at(s, a) == Some('+') {
        let (r, j) = base_at(s, a + 1);
        match r {
            Outcome::Present(t) => (Outcome::Present(Tree::Neg(Box::new(t))), j),
            _ => (r, j),
        }
    } else if peek_at(s, a) == Some('(') || peek_at(s, a) == Some('|') {
        let bar = peek_at(s, a) == Some('|');
        let (r, j) = add_at(s, a + 1);
        match r {
            Outcome::Present(t) => {
                let k = space_end(s, j);
                if !bar && peek_at(s, k) == Some(')') {
                    (Outcome::Present(t), k + 1)
                } else if bar && peek_at(s, k) == Some('|') {
                    (Outcome::Present(Tree::Abs(Box::new(t))), k + 1)
                } else if !bar {
                    (Outcome::Error(msg_expected_paren(), k), k)
                } else {
                    (Outcome::Error(msg_expected_bar(), k), k)
                }
            },
            _ => (r, j),
        }
    } else {
        number_at(s, a)
    }
}

/// `mul` at `i`: operators `*`, `/` and `%`, grouped to the right.
pub open spec fn mul_at(s: Seq<char>, i: int) -> (Outcome, int)
    decreases s.len() - i, 1int,
{
    let (l, j) = base_at(s, i);
    match l {
        Outcome::Present(lt) => {
            let k = space_end(s, j);
            let op = peek_at(s, k);
            // `i <= k` always holds (`lemma_base_advances`); it is stated for
            // the termination check.
            if (op == Some('*') || op == Some('/') || op == Some('%')) && i <= k {
                let (r, m) = mul_at(s, k + 1);
                match r {
                    Outcome::Present(rt) => (Outcome::Present(
                        if op == Some('*') {
                            Tree::Mul(Box::new(lt), Box::new(rt))
                        } else if op == Some('/') {
                            Tree::Div(Box::new(lt), Box::new(rt))
                        } else {
                            Tree::Rem(Box::new(lt), Box::new(rt))
                        },
                    ), m),
                    _ => (r, m),
                }
            } else {
                (l, k)
            }
        },
        _ => (l, j),
    }
}

/// `add` at `i`: operators `+` and `-`, grouped to the right.
pub open spec fn add_at(s: Seq<char>, i: int) -> (Outcome, int)
    decreases s.len() - i, 2int,
{
    let (l, j) = mul_at(s, i);
    match l {
        Outcome::Present(lt) => {
            let k = space_end(s, j);
            let op = peek_at(s, k);
            // `i <= k` always holds (`lemma_mul_advances`); it is stated for
            // the termination check.
            if (op == Some('+') || op == Some('-')) && i <= k {
                let (r, m) = add_at(s, k + 1);
                match r {
                    Outcome::Present(rt) => (Outcome::Present(
                        if op == Some('+') {
                            Tree::Add(Box::new(lt), Box::new(rt))
                        } else {
                            Tree::Sub(Box::new(lt), Box::new(rt))
                        },
                    ), m),
                    _ => (r, m),
                }
            } else {
                (l, k)
            }
        },
        _ => (l, j),
    }
}

/// A whole line: an `add` expression, then only spaces up to the end.
pub open spec fn parse_line(s: Seq<char>) -> Outcome {
    let (r, j) = add_at(s, 0);
    if r is Error {
        r
    } else {
        let k = space_end(s, j);
        if peek_at(s, k) is None {
            r
        } else {
            Outcome::Error(msg_extra_input(), k)
        }
    }
}

/// Parses one line into an expression tree.
///
/// The whole line must be an `add` expression, up to trailing spaces and an
/// optional line terminator; anything else after it is an `Extra input`
/// error at its index. A line that holds no expression gives `Absent`.
pub fn parse(s: &String) -> (r: ParseResult)
    ensures
        r@ == parse_line(s@),
        r.wf(),
{
    let mut parser = Parser::new(s.as_str());
    let res = parser.parse_add();
    if res.is_error() {
        return res;
    }
    parser.skip_space();
    if parser.peek().is_none() {
        return res;
    }
    ParseResult::Error(String::from_str("Extra input"), parser.idx)
}

/// From any position in a run of spaces and tabs that reaches the end of the
/// input, skipping spaces ends at the end.
proof fn lemma_space_end_blank(s: Seq<char>, i: int)
    requires
        0 <= i <= s.len(),
        forall|k: int| i <= k < s.len() ==> is_space_char(#[trigger] s[k]),
    ensures
        space_end(s, i) == s.len(),
    decreases s.len() - i,
{
    if i < s.len() {
        lemma_space_end_blank(s, i + 1);
    }
}

/// A line that holds only spaces and tabs, the empty line included, parses
/// to `Absent`.
pub proof fn lemma_blank_line_absent(s: Seq<char>)
    requires
        forall|k: int| 0 <= k < s.len() ==> is_space_char(#[trigger] s[k]),
    ensures
        parse_line(s) == Outcome::Absent,
{
    lemma_space_end_blank(s, 0);
    lemma_space_end_blank(s, s.len() as int);
    assert(number_at(s, s.len() as int) == (Outcome::Absent, s.len() as int));
    assert(base_at(s, 0) == (Outcome::Absent, s.len() as int));
    assert(mul_at(s, 0) == (Outcome::Absent, s.len() as int));
    assert(add_at(s, 0) == (Outcome::Absent, s.len() as int));
}

/// The result of a parse: an expression, nothing, or an error message with
/// the character index where it was detected.
pub enum ParseResult {
    /// An expression was parsed.
    Present(Expression),
    /// Nothing that could be parsed was found.
    Absent,
    /// The input breaks the grammar.
    Error(String, usize),
}

impl View for ParseResult {
    type V = Outcome;

    open spec fn view(&self) -> Outcome {
        match self {
            ParseResult::Present(e) => Outcome::Present(e.tree()),
            ParseResult::Absent => Outcome::Absent,
            ParseResult::Error(m, i) => Outcome::Error(m@, *i as int),
        }
    }
}

impl ParseResult {
    /// A present result holds a tree whose literals are well formed.
    pub open spec fn wf(&self) -> bool {
        self matches ParseResult::Present(e) ==> e.wf()
    }

    /// Applies `f` to a present expression; an absent or failed result passes
    /// through unchanged.
    fn map<F: FnOnce(Expression) -> Expression>(self, f: F) -> (r: ParseResult)
        requires
            self matches ParseResult::Present(e) ==> f.requires((e,)),
        ensures
            self matches ParseResult::Present(e) ==> (r matches ParseResult::Present(y) && f.ensures((e,), y)),
            !(self is Present) ==> r == self,
    {
        match self {
            ParseResult::Present(e) => ParseResult::Present(f(e)),
            other => other,
        }
    }

    /// True where an expression is present.
    pub fn is_present(&self) -> (r: bool)
        ensures
            r == self is Present,
    {
        match self {
            ParseResult::Present(_) => true,
            _ => false,
        }
    }

    /// True where nothing was found.
    pub fn is_absent(&self) -> (r: bool)
        ensures
            r == self is Absent,
    {
        match self {
            ParseResult::Absent => true,
            _ => false,
        }
    }

    /// True where the input breaks the grammar.
    pub fn is_error(&self) -> (r: bool)
        ensures
            r == self is Error,
    {
        match self {
            ParseResult::Error(_, _) => true,
            _ => false,
        }
    }

    /// The expression, where one is present.
    pub fn present(self) -> (r: Option<Expression>)
        ensures
            self matches ParseResult::Present(e) ==> r == Some(e),
            !(self is Present) ==> r is None,
    {
        match self {
            ParseResult::Present(x) => Some(x),
            _ => None,
        }
    }

    /// The error message, where the result is an error.
    pub fn error(self) -> (r: Option<String>)
        ensures
            self matches ParseResult::Error(m, _) ==> r == Some(m),
            !(self is Error) ==> r is None,
    {
        match self {
            ParseResult::Error(x, _) => Some(x),
            _ => None,
        }
    }

    /// The error index, where the result is an error.
    pub fn error_index(self) -> (r: Option<usize>)
        ensures
            self matches ParseResult::Error(_, i) ==> r == Some(i),
            !(self is Error) ==> r is None,
    {
        match self {
            ParseResult::Error(_, x) => Some(x),
            _ => None,
        }
    }
}

/// True where `c` holds a space or a tab.
pub fn _is_space(c: Option<char>) -> (r: bool)
    ensures
        r == (c matches Some(ch) && is_space_char(ch)),
{
    match c {
        None => false,
        Some(ch) => ch == ' ' || ch == '\t',
    }
}

/// True where `c` holds a decimal digit or a period.
pub fn _is_number_char(c: Option<char>) -> (r: bool)
    ensures
        r == (c matches Some(ch) && is_literal_char(ch)),
{
    match c {
        None => false,
        Some(ch) => ('0' <= ch && ch <= '9') || ch == '.',
    }
}

/// A cursor over one line: the characters and the current index.
pub struct Parser {
    idx: usize,
    chars: Vec<char>,
}

impl Parser {
    /// The characters of the line.
    pub closed spec fn input(&self) -> Seq<char> {
        self.chars@
    }

    /// The current index.
    pub closed spec fn pos(&self) -> int {
        self.idx as int
    }

    /// A cursor at the start of `s`.
    pub fn new(s: &str) -> (p: Parser)
        ensures
            p.input() == s@,
            p.pos() == 0,
    {
        let mut chars: Vec<char> = Vec::new();
        let mut it = s.chars();
        proof {
            broadcast use vstd::string::axiom_spec_iter, vstd::string::next_postcondition;
        }
        loop
            invariant
                chars@ + it.remaining() == s@,
                it.decrease() is Some,
            ensures
                chars@ == s@,
            decreases it.decrease()->0,
        {
            match it.next() {
                Some(c) => chars.push(c),
                None => {
                    assert(chars@ =~= s@);
                    break;
                },
            }
        }
        Parser { idx: 0, chars }
    }

    /// The current character, or `None` at the end of the input or at a line
    /// terminator.
    pub fn peek(&self) -> (r: Option<char>)
        ensures
            r == peek_at(self.input(), self.pos()),
    {
        if self.idx < self.chars.len() {
            let ch = self.chars[self.idx];
            if ch == '\n' || ch == '\r' {
                None
            } else {
                Some(ch)
            }
        } else {
            None
        }
    }

    /// Moves past the current character.
    pub fn skip(&mut self)
        requires
            old(self).pos() < old(self).input().len(),
        ensures
            final(self).input() == old(self).input(),
            final(self).pos() == old(self).pos() + 1,
    {
        let n = self.chars.len();
        assert(self.idx < n);
        self.idx = self.idx + 1;
    }

    /// Moves past any spaces and tabs.
    pub fn skip_space(&mut self)
        ensures
            final(self).input() == old(self).input(),
            final(self).pos() == space_end(old(self).input(), old(self).pos()),
            final(self).pos() >= old(self).pos(),
    {
        while _is_space(self.peek())
            invariant
                self.input() == old(self).input(),
                old(self).pos() <= self.pos(),
                space_end(self.input(), self.pos()) == space_end(old(self).input(), old(self).pos()),
            decreases self.input().len() - self.pos(),
        {
            self.skip();
        }
    }

    /// Moves past any spaces and tabs, then peeks.
    pub fn symbol(&mut self) -> (r: Option<char>)
        ensures
            final(self).input() == old(self).input(),
            final(self).pos() == space_end(old(self).input(), old(self).pos()),
            final(self).pos() >= old(self).pos(),
            r == peek_at(final(self).input(), final(self).pos()),
    {
        self.skip_space();
        self.peek()
    }

    /// Parses a `number`.
    fn parse_number(&mut self) -> (r: ParseResult)
        ensures
            final(self).input() == old(self).input(),
            (r@, final(self).pos()) == number_at(old(self).input(), old(self).pos()),
            final(self).pos() >= old(self).pos(),
            r.wf(),
    {
        self.skip_space();
        let c = self.peek();
        let s = self.idx;
        if !_is_number_char(c) {
            return ParseResult::Absent;
        }
        let mut st: Vec<char> = Vec::new();
        let mut c = c;
        while _is_number_char(c)
            invariant
                self.input() == old(self).input(),
                s <= self.pos() <= self.input().len(),
                c == peek_at(self.input(), self.pos()),
                st@ == self.input().subrange(s as int, self.pos()),
                literal_end(self.input(), s as int) == literal_end(self.input(), self.pos()),
            decreases self.input().len() - self.pos(),
        {
            st.push(c.unwrap());
            self.skip();
            c = self.peek();
            assert(st@ =~= self.input().subrange(s as int, self.pos()));
        }
        match Number::new(st) {
            Some(n) => ParseResult::Present(expression::val(n)),
            None => ParseResult::Error(String::from_str("Incorrect number"), s),
        }
    }

    /// Parses a `base`.
    fn parse_base(&mut self) -> (r: ParseResult)
        ensures
            final(self).input() == old(self).input(),
            (r@, final(self).pos()) == base_at(old(self).input(), old(self).pos()),
            final(self).pos() >= old(self).pos(),
            r.wf(),
        decreases old(self).input().len() - old(self).pos(), 0int,
    {
        let c = self.symbol();
        if c == Some('-') || c == Some('+') {
            self.skip();
            let inner = self.parse_base();
            inner.map(expression::neg)
        } else if c == Some('(') || c == Some('|') {
            let bar = c == Some('|');
            self.skip();
            match self.parse_add() {
                ParseResult::Present(e) => {
                    let close = self.symbol();
                    if !bar && close == Some(')') {
                        self.skip();
                        ParseResult::Present(e)
                    } else if bar && close == Some('|') {
                        self.skip();
                        ParseResult::Present(expression::abs(e))
                    } else if !bar {
                        ParseResult::Error(String::from_str("Expected ')'"), self.idx)
                    } else {
                        ParseResult::Error(String::from_str("Expected '|'"), self.idx)
                    }
                },
                other => other,
            }
        } else {
            self.parse_number()
        }
    }

    /// Parses a `mul`.
    fn parse_mul(&mut self) -> (r: ParseResult)
        ensures
            final(self).input() == old(self).input(),
            (r@, final(self).pos()) == mul_at(old(self).input(), old(self).pos()),
            final(self).pos() >= old(self).pos(),
            r.wf(),
        decreases old(self).input().len() - old(self).pos(), 1int,
    {
        let lhs = match self.parse_base() {
            ParseResult::Present(x) => x,
            other => return other,
        };
        let c = self.symbol();
        if !(c == Some('*') || c == Some('/') || c == Some('%')) {
            return ParseResult::Present(lhs);
        }
        self.skip();
        match self.parse_mul() {
            ParseResult::Present(rhs) => ParseResult::Present(
                if c == Some('*') {
                    expression::mul(lhs, rhs)
                } else if c == Some('/') {
                    expression::div(lhs, rhs)
                } else {
                    expression::rem(lhs, rhs)
                },
            ),
            other => other,
        }
    }

    /// Parses an `add`.
    fn parse_add(&mut self) -> (r: ParseResult)
        ensures
            final(self).input() == old(self).input(),
            (r@, final(self).pos()) == add_at(old(self).input(), old(self).pos()),
            final(self).pos() >= old(self).pos(),
            r.wf(),
        decreases old(self).input().len() - old(self).pos(), 2int,
    {
        let lhs = match self.parse_mul() {
            ParseResult::Present(x) => x,
            other => return other,
        };
        let c = self.symbol();
        if !(c == Some('+') || c == Some('-')) {
            return ParseResult::Present(lhs);
        }
        self.skip();
        match self.parse_add() {
            ParseResult::Present(rhs) => ParseResult::Present(
                if c == Some('+') {
                    expression::add(lhs, rhs)
                } else {
                    expression::sub(lhs, rhs)
                },
            ),
            other => other,
        }
    }
}

} // verus!
