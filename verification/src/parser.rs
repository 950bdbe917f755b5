//! The parser: consumes a token sequence and produces an expression tree by
//! recursive descent with precedence climbing. Every binary level is
//! left-associative; unary is right-associative by construction. Parsing
//! stops at the first syntax error and returns it; no partial tree escapes.
//!
//! The grammar is specified by the `spec_*` functions below, one per
//! precedence level, and every executable parsing function is proved to
//! return exactly what its specification level says.

use vstd::prelude::*;

use crate::lexer::spec_is_digit;
use crate::token::{tokens_view, SpecToken, Token, TokenType};
use vstd::string::StrSliceExecFns;

verus! {

/// An expression tree. Each interior node owns its children outright.
/// `operator` on `Binary`/`Unary` retains the full originating token so later
/// stages can report errors against the operator's source position. A float
/// literal keeps its numeric text; turning it into a machine float is left to
/// unverified callers.
#[derive(Debug)]
pub enum Expr {
    Binary { left: Box<Expr>, operator: Token, right: Box<Expr> },
    Unary { operator: Token, right: Box<Expr> },
    Grouping(Box<Expr>),
    LiteralTrue,
    LiteralFalse,
    LiteralNull,
    LiteralInt(i64),
    LiteralDouble(String),
    LiteralString(String),
}

/// The mathematical value of an expression tree.
pub enum SpecExpr {
    Binary { left: Box<SpecExpr>, operator: SpecToken, right: Box<SpecExpr> },
    Unary { operator: SpecToken, right: Box<SpecExpr> },
    Grouping(Box<SpecExpr>),
    LiteralTrue,
    LiteralFalse,
    LiteralNull,
    LiteralInt(i64),
    LiteralDouble(Seq<char>),
    LiteralString(Seq<char>),
}

impl View for Expr {
    type V = SpecExpr;

    open spec fn view(&self) -> SpecExpr
        decreases self,
    {
        match self {
            Expr::Binary { left, operator, right } => SpecExpr::Binary {
                left: Box::new((**left).view()),
                operator: operator.view(),
                right: Box::new((**right).view()),
            },
            Expr::Unary { operator, right } => SpecExpr::Unary {
                operator: operator.view(),
                right: Box::new((**right).view()),
            },
            Expr::Grouping(inner) => SpecExpr::Grouping(Box::new((**inner).view())),
            Expr::LiteralTrue => SpecExpr::LiteralTrue,
            Expr::LiteralFalse => SpecExpr::LiteralFalse,
            Expr::LiteralNull => SpecExpr::LiteralNull,
            Expr::LiteralInt(v) => SpecExpr::LiteralInt(*v),
            Expr::LiteralDouble(s) => SpecExpr::LiteralDouble(s.view()),
            Expr::LiteralString(s) => SpecExpr::LiteralString(s.view()),
        }
    }
}

/// A fatal syntax error. The first one reported aborts the entire parse.
#[derive(Debug)]
pub enum ParseError {
    /// `primary` found no matching alternative. `found` is the offending
    /// token, or nothing at end-of-input.
    ExpectedExpression { found: Option<Token> },
    /// A required terminator (for example a closing parenthesis) is absent.
    ExpectedToken { expected: TokenType, found: Option<Token> },
    /// An integer literal's text does not denote a 64-bit signed integer.
    InvalidIntLiteral { token: Token },
}

/// The mathematical value of a parse error.
pub enum SpecParseError {
    ExpectedExpression { found: Option<SpecToken> },
    ExpectedToken { expected: TokenType, found: Option<SpecToken> },
    InvalidIntLiteral { token: SpecToken },
}

impl View for ParseError {
    type V = SpecParseError;

    open spec fn view(&self) -> SpecParseError {
        match self {
            ParseError::ExpectedExpression { found } => SpecParseError::ExpectedExpression {
                found: match found {
                    Some(t) => Some(t.view()),
                    None => None,
                },
            },
            ParseError::ExpectedToken { expected, found } => SpecParseError::ExpectedToken {
                expected: *expected,
                found: match found {
                    Some(t) => Some(t.view()),
                    None => None,
                },
            },
            ParseError::InvalidIntLiteral { token } => SpecParseError::InvalidIntLiteral {
                token: token.view(),
            },
        }
    }
}

/// The numeric value of one decimal digit character.
pub open spec fn digit_val(c: char) -> int {
    c as u32 - 48
}

/// The value of a run of decimal digit characters, most significant first.
pub open spec fn digits_value(s: Seq<char>) -> int
    decreases s.len(),
{
    if s.len() == 0 {
        0
    } else {
        digits_value(s.drop_last()) * 10 + digit_val(s.last())
    }
}

/// Whether every character of `s` is a decimal digit.
pub open spec fn all_digits(s: Seq<char>) -> bool {
    forall|k: int| 0 <= k < s.len() ==> spec_is_digit(#[trigger] s[k])
}

/// What an integer literal's text denotes: its value, if the text is a
/// nonempty run of digits whose value fits in an `i64`, and nothing
/// otherwise.
pub open spec fn spec_parse_int(s: Seq<char>) -> Option<i64> {
    if s.len() > 0 && all_digits(s) && digits_value(s) <= i64::MAX {
        Some(digits_value(s) as i64)
    } else {
        None
    }
}

/// A run of digits has a nonnegative value.
pub proof fn lemma_digits_value_nonneg(s: Seq<char>)
    requires
        all_digits(s),
    ensures
        digits_value(s) >= 0,
    decreases s.len(),
{
    if s.len() > 0 {
        assert(all_digits(s.drop_last()));
        lemma_digits_value_nonneg(s.drop_last());
    }
}

/// The value of a prefix of a digit run is at most the value of the whole
/// run.
pub proof fn lemma_digits_value_prefix_le(s: Seq<char>, m: int)
    requires
        all_digits(s),
        0 <= m <= s.len(),
    ensures
        digits_value(s.subrange(0, m)) <= digits_value(s),
    decreases s.len() - m,
{
    if m < s.len() {
        lemma_digits_value_prefix_le(s, m + 1);
        assert(s.subrange(0, m + 1).drop_last() =~= s.subrange(0, m));
        assert(all_digits(s.subrange(0, m)));
        lemma_digits_value_nonneg(s.subrange(0, m));
        assert(digits_value(s.subrange(0, m + 1)) == digits_value(s.subrange(0, m)) * 10
            + digit_val(s.subrange(0, m + 1).last()));
    } else {
        assert(s.subrange(0, m) =~= s);
    }
}

/// An ASCII decimal digit.
fn is_digit_char(c: char) -> (r: bool)
    ensures
        r == spec_is_digit(c),
{
    let u = c as u32;
    48 <= u && u <= 57
}

/// Parses the text of an integer literal: the value it denotes, or nothing if
/// the text is not a nonempty digit run or its value does not fit in an
/// `i64`.
pub fn parse_int_lexeme(s: &String) -> (r: Option<i64>)
    ensures
        r == spec_parse_int(s@),
{
    let n = s.as_str().unicode_len();
    if n == 0 {
        return None;
    }
    let mut v: i64 = 0;
    let mut i: usize = 0;
    while i < n
        invariant
            0 <= i <= n,
            n == s@.len(),
            0 <= v <= i64::MAX,
            v == digits_value(s@.subrange(0, i as int)),
            forall|k: int| 0 <= k < i ==> spec_is_digit(#[trigger] s@[k]),
        decreases n - i,
    {
        let c = s.as_str().get_char(i);
        if !is_digit_char(c) {
            return None;
        }
        let d: i64 = (c as u32) as i64 - 48;
        proof {
            assert(s@.subrange(0, i + 1).drop_last() =~= s@.subrange(0, i as int));
        }
        let m = match v.checked_mul(10) {
            Some(m) => m,
            None => {
                proof {
                    if all_digits(s@) {
                        lemma_digits_value_prefix_le(s@, i + 1);
                    }
                }
                return None;
            }
        };
        v = match m.checked_add(d) {
            Some(w) => w,
            None => {
                proof {
                    if all_digits(s@) {
                        lemma_digits_value_prefix_le(s@, i + 1);
                    }
                }
                return None;
            }
        };
        i = i + 1;
    }
    proof {
        assert(s@.subrange(0, n as int) =~= s@);
    }
    Some(v)
}

/// The result of one specification-level parsing rule: the expression parsed
/// and the position after it, or the error that aborted the parse.
pub enum SpecParse {
    Good { e: SpecExpr, next: int },
    Bad { err: SpecParseError },
}

/// Clamps a position into `[lo, len]`. Every parsing rule leaves the cursor
/// inside that range, so the clamp never changes a reachable value; it only
/// makes termination of the mutually recursive rules evident.
pub open spec fn clip(len: int, lo: int, j: int) -> int {
    if j < lo {
        lo
    } else if j > len {
        len
    } else {
        j
    }
}

/// The token at position `i`, or nothing at end-of-input: what an error
/// reports as the offending token.
pub open spec fn found_at(toks: Seq<SpecToken>, i: int) -> Option<SpecToken> {
    if 0 <= i < toks.len() {
        Some(toks[i])
    } else {
        None
    }
}

/// expression := equality
pub open spec fn spec_expression(toks: Seq<SpecToken>, i: int) -> SpecParse
    decreases toks.len() - i, 12int,
    when 0 <= i <= toks.len()
{
    spec_equality(toks, i)
}

/// equality := comparison ( ("!=" | "==") comparison )*
pub open spec fn spec_equality(toks: Seq<SpecToken>, i: int) -> SpecParse
    decreases toks.len() - i, 11int,
    when 0 <= i <= toks.len()
{
    match spec_comparison(toks, i) {
        SpecParse::Good { e, next } => spec_equality_rest(
            toks,
            clip(toks.len() as int, i, next),
            e,
        ),
        bad => bad,
    }
}

/// The left-folding repetition of the equality level.
pub open spec fn spec_equality_rest(toks: Seq<SpecToken>, i: int, acc: SpecExpr) -> SpecParse
    decreases toks.len() - i, 10int,
    when 0 <= i <= toks.len()
{
    if i < toks.len() && (toks[i].kind == TokenType::Bangequal || toks[i].kind
        == TokenType::Equalequal) {
        match spec_comparison(toks, i + 1) {
            SpecParse::Good { e, next } => spec_equality_rest(
                toks,
                clip(toks.len() as int, i + 1, next),
                SpecExpr::Binary { left: Box::new(acc), operator: toks[i], right: Box::new(e) },
            ),
            bad => bad,
        }
    } else {
        SpecParse::Good { e: acc, next: i }
    }
}

/// comparison := term ( (">" | ">=" | "<" | "<=") term )*
pub open spec fn spec_comparison(toks: Seq<SpecToken>, i: int) -> SpecParse
    decreases toks.len() - i, 9int,
    when 0 <= i <= toks.len()
{
    match spec_term(toks, i) {
        SpecParse::Good { e, next } => spec_comparison_rest(
            toks,
            clip(toks.len() as int, i, next),
            e,
        ),
        bad => bad,
    }
}

/// The left-folding repetition of the comparison level.
pub open spec fn spec_comparison_rest(toks: Seq<SpecToken>, i: int, acc: SpecExpr) -> SpecParse
    decreases toks.len() - i, 8int,
    when 0 <= i <= toks.len()
{
    if i < toks.len() && (toks[i].kind == TokenType::Greater || toks[i].kind
        == TokenType::Greaterequal || toks[i].kind == TokenType::Less || toks[i].kind
        == TokenType::Lessequal) {
        match spec_term(toks, i + 1) {
            SpecParse::Good { e, next } => spec_comparison_rest(
                toks,
                clip(toks.len() as int, i + 1, next),
                SpecExpr::Binary { left: Box::new(acc), operator: toks[i], right: Box::new(e) },
            ),
            bad => bad,
        }
    } else {
        SpecParse::Good { e: acc, next: i }
    }
}

/// term := factor ( ("+" | "-") factor )*
pub open spec fn spec_term(toks: Seq<SpecToken>, i: int) -> SpecParse
    decreases toks.len() - i, 7int,
    when 0 <= i <= toks.len()
{
    match spec_factor(toks, i) {
        SpecParse::Good { e, next } => spec_term_rest(toks, clip(toks.len() as int, i, next), e),
        bad => bad,
    }
}

/// The left-folding repetition of the term level.
pub open spec fn spec_term_rest(toks: Seq<SpecToken>, i: int, acc: SpecExpr) -> SpecParse
    decreases toks.len() - i, 6int,
    when 0 <= i <= toks.len()
{
    if i < toks.len() && (toks[i].kind == TokenType::Plus || toks[i].kind == TokenType::Minus) {
        match spec_factor(toks, i + 1) {
            SpecParse::Good { e, next } => spec_term_rest(
                toks,
                clip(toks.len() as int, i + 1, next),
                SpecExpr::Binary { left: Box::new(acc), operator: toks[i], right: Box::new(e) },
            ),
            bad => bad,
        }
    } else {
        SpecParse::Good { e: acc, next: i }
    }
}

/// factor := unary ( ("/" | "*") unary )*
pub open spec fn spec_factor(toks: Seq<SpecToken>, i: int) -> SpecParse
    decreases toks.len() - i, 5int,
    when 0 <= i <= toks.len()
{
    match spec_unary(toks, i) {
        SpecParse::Good { e, next } => spec_factor_rest(toks, clip(toks.len() as int, i, next), e),
        bad => bad,
    }
}

/// The left-folding repetition of the factor level.
pub open spec fn spec_factor_rest(toks: Seq<SpecToken>, i: int, acc: SpecExpr) -> SpecParse
    decreases toks.len() - i, 4int,
    when 0 <= i <= toks.len()
{
    if i < toks.len() && (toks[i].kind == TokenType::Slash || toks[i].kind == TokenType::Star) {
        match spec_unary(toks, i + 1) {
            SpecParse::Good { e, next } => spec_factor_rest(
                toks,
                clip(toks.len() as int, i + 1, next),
                SpecExpr::Binary { left: Box::new(acc), operator: toks[i], right: Box::new(e) },
            ),
            bad => bad,
        }
    } else {
        SpecParse::Good { e: acc, next: i }
    }
}

/// unary := ("!" | "-") unary | primary
pub open spec fn spec_unary(toks: Seq<SpecToken>, i: int) -> SpecParse
    decreases toks.len() - i, 3int,
    when 0 <= i <= toks.len()
{
    if i < toks.len() && (toks[i].kind == TokenType::Bang || toks[i].kind == TokenType::Minus) {
        match spec_unary(toks, i + 1) {
            SpecParse::Good { e, next } => SpecParse::Good {
                e: SpecExpr::Unary { operator: toks[i], right: Box::new(e) },
                next,
            },
            bad => bad,
        }
    } else {
        spec_primary(toks, i)
    }
}

/// primary := "false" | "true" | "null" | INTEGER | FLOAT | STRING
///          | "(" expression ")"
pub open spec fn spec_primary(toks: Seq<SpecToken>, i: int) -> SpecParse
    decreases toks.len() - i, 2int,
    when 0 <= i <= toks.len()
{
    if i >= toks.len() {
        SpecParse::Bad { err: SpecParseError::ExpectedExpression { found: None } }
    } else {
        let t = toks[i];
        if t.kind == TokenType::False {
            SpecParse::Good { e: SpecExpr::LiteralFalse, next: i + 1 }
        } else if t.kind == TokenType::True {
            SpecParse::Good { e: SpecExpr::LiteralTrue, next: i + 1 }
        } else if t.kind == TokenType::Null {
            SpecParse::Good { e: SpecExpr::LiteralNull, next: i + 1 }
        } else if t.kind == TokenType::Int {
            match spec_parse_int(t.lexeme) {
                Some(v) => SpecParse::Good { e: SpecExpr::LiteralInt(v), next: i + 1 },
                None => SpecParse::Bad { err: SpecParseError::InvalidIntLiteral { token: t } },
            }
        } else if t.kind == TokenType::Double {
            SpecParse::Good { e: SpecExpr::LiteralDouble(t.lexeme), next: i + 1 }
        } else if t.kind == TokenType::String {
            SpecParse::Good { e: SpecExpr::LiteralString(t.lexeme), next: i + 1 }
        } else if t.kind == TokenType::Leftparen {
            match spec_expression(toks, i + 1) {
                SpecParse::Good { e, next } => {
                    let j = clip(toks.len() as int, i + 1, next);
                    if j < toks.len() && toks[j].kind == TokenType::Rightparen {
                        SpecParse::Good { e: SpecExpr::Grouping(Box::new(e)), next: j + 1 }
                    } else {
                        SpecParse::Bad {
                            err: SpecParseError::ExpectedToken {
                                expected: TokenType::Rightparen,
                                found: found_at(toks, j),
                            },
                        }
                    }
                }
                bad => bad,
            }
        } else {
            SpecParse::Bad { err: SpecParseError::ExpectedExpression { found: Some(t) } }
        }
    }
}

/// How an executable parsing result relates to its specification level: on
/// success the tree and the new cursor position agree, on failure the error
/// agrees.
pub open spec fn parse_result_matches(
    sp: SpecParse,
    r: Result<Expr, ParseError>,
    newpos: int,
) -> bool {
    match (sp, r) {
        (SpecParse::Good { e, next }, Ok(x)) => x@ == e && newpos == next,
        (SpecParse::Bad { err }, Err(x)) => x@ == err,
        _ => false,
    }
}

/// The parser. Its only mutable state is the cursor; every rule either
/// consumes tokens monotonically or fails permanently.
#[derive(Debug)]
pub struct Parser {
    tokens: Vec<Token>,
    file_path: String,
    current: usize,
}

impl Parser {
    /// The values of the tokens being parsed.
    pub closed spec fn toks(&self) -> Seq<SpecToken> {
        tokens_view(self.tokens@)
    }

    /// The cursor position.
    pub closed spec fn pos(&self) -> int {
        self.current as int
    }

    /// The parser's invariant: the cursor lies inside the token sequence or
    /// one past its end.
    pub closed spec fn wf(&self) -> bool {
        self.current <= self.tokens@.len() && self.toks().len() == self.tokens@.len()
    }

    /// A fresh parser over the given tokens, standing at the start. The file
    /// path is kept only for diagnostics.
    pub fn new(tokens: Vec<Token>, file_path: String) -> (ret: Parser)
        ensures
            ret.wf(),
            ret.toks() == tokens_view(tokens@),
            ret.pos() == 0,
    {
        Parser { tokens, file_path, current: 0 }
    }

    /// Whether the cursor has reached the end of the token sequence.
    pub fn is_at_end(&self) -> (r: bool)
        requires
            self.wf(),
        ensures
            r == (self.pos() >= self.toks().len()),
    {
        self.tokens.len() <= self.current
    }

    /// The token under the cursor.
    pub fn peek(&self) -> (r: Token)
        requires
            self.wf(),
            self.pos() < self.toks().len(),
        ensures
            r@ == self.toks()[self.pos()],
    {
        self.tokens[self.current].clone()
    }

    /// The most recently consumed token.
    pub fn previous(&self) -> (r: Token)
        requires
            self.wf(),
            1 <= self.pos(),
        ensures
            r@ == self.toks()[self.pos() - 1],
    {
        self.tokens[self.current - 1].clone()
    }

    /// Consumes and returns the token under the cursor.
    pub fn advance(&mut self) -> (r: Token)
        requires
            old(self).wf(),
            old(self).pos() < old(self).toks().len(),
        ensures
            final(self).wf(),
            final(self).toks() == old(self).toks(),
            final(self).pos() == old(self).pos() + 1,
            r@ == old(self).toks()[old(self).pos()],
    {
        proof {
            vstd::std_specs::vec::axiom_spec_len(&self.tokens);
        }
        let t = self.tokens[self.current].clone();
        self.current = self.current + 1;
        t
    }

    /// Whether the token under the cursor has the given kind, without
    /// consuming it; reports no match at end-of-input.
    pub fn check(&self, token_type: TokenType) -> (r: bool)
        requires
            self.wf(),
        ensures
            r == (self.pos() < self.toks().len() && self.toks()[self.pos()].kind == token_type),
    {
        if self.is_at_end() {
            return false;
        }
        self.tokens[self.current].token_type == token_type
    }

    /// Whether the token under the cursor has either of the two given kinds.
    fn check2(&self, a: TokenType, b: TokenType) -> (r: bool)
        requires
            self.wf(),
        ensures
            r == (self.pos() < self.toks().len() && (self.toks()[self.pos()].kind == a
                || self.toks()[self.pos()].kind == b)),
    {
        self.check(a) || self.check(b)
    }

    /// Whether the token under the cursor has any of the four given kinds.
    fn check4(&self, a: TokenType, b: TokenType, c: TokenType, d: TokenType) -> (r: bool)
        requires
            self.wf(),
        ensures
            r == (self.pos() < self.toks().len() && (self.toks()[self.pos()].kind == a
                || self.toks()[self.pos()].kind == b || self.toks()[self.pos()].kind == c
                || self.toks()[self.pos()].kind == d)),
    {
        self.check(a) || self.check(b) || self.check(c) || self.check(d)
    }

    /// The token under the cursor, or nothing at end-of-input: what errors
    /// report as the offending token.
    fn found_token(&self) -> (r: Option<Token>)
        requires
            self.wf(),
        ensures
            match r {
                Some(t) => found_at(self.toks(), self.pos()) == Some(t@),
                None => found_at(self.toks(), self.pos()) is None,
            },
    {
        if self.is_at_end() {
            None
        } else {
            Some(self.peek())
        }
    }

    /// Consumes the token under the cursor if it has the required kind, and
    /// otherwise reports which kind was expected and what stood there.
    pub fn consume_token(&mut self, token_type: TokenType) -> (r: Result<Token, ParseError>)
        requires
            old(self).wf(),
        ensures
            final(self).wf(),
            final(self).toks() == old(self).toks(),
            ({
                if old(self).pos() < old(self).toks().len() && old(self).toks()[old(
                    self,
                ).pos()].kind == token_type {
                    &&& r matches Ok(t) && t@ == old(self).toks()[old(self).pos()]
                    &&& final(self).pos() == old(self).pos() + 1
                } else {
                    &&& r matches Err(e) && e@ == SpecParseError::ExpectedToken {
                        expected: token_type,
                        found: found_at(old(self).toks(), old(self).pos()),
                    }
                    &&& final(self).pos() == old(self).pos()
                }
            }),
    {
        if self.check(token_type) {
            return Ok(self.advance());
        }
        Err(ParseError::ExpectedToken { expected: token_type, found: self.found_token() })
    }

    /// Parses one expression starting at the cursor: the entry point of the
    /// grammar.
    pub fn parse(&mut self) -> (r: Result<Expr, ParseError>)
        requires
            old(self).wf(),
        ensures
            final(self).wf(),
            final(self).toks() == old(self).toks(),
            parse_result_matches(
                spec_expression(old(self).toks(), old(self).pos()),
                r,
                final(self).pos(),
            ),
    {
        self.expression()
    }

    /// expression := equality
    pub fn expression(&mut self) -> (r: Result<Expr, ParseError>)
        requires
            old(self).wf(),
        ensures
            final(self).wf(),
            final(self).toks() == old(self).toks(),
            old(self).pos() <= final(self).pos(),
            parse_result_matches(
                spec_expression(old(self).toks(), old(self).pos()),
                r,
                final(self).pos(),
            ),
        decreases old(self).toks().len() - old(self).pos(), 12int,
    {
        self.equality()
    }

    /// equality := comparison ( ("!=" | "==") comparison )*
    #[verifier::loop_isolation(false)]
    fn equality(&mut self) -> (r: Result<Expr, ParseError>)
        requires
            old(self).wf(),
        ensures
            final(self).wf(),
            final(self).toks() == old(self).toks(),
            old(self).pos() <= final(self).pos(),
            parse_result_matches(
                spec_equality(old(self).toks(), old(self).pos()),
                r,
                final(self).pos(),
            ),
        decreases old(self).toks().len() - old(self).pos(), 11int,
    {
        let ghost toks = old(self).toks();
        let ghost pos0 = old(self).pos();
        let mut expr = match self.comparison() {
            Ok(e) => e,
            Err(err) => {
                return Err(err);
            }
        };
        while self.check2(TokenType::Bangequal, TokenType::Equalequal)
            invariant
                self.wf(),
                self.toks() == toks,
                pos0 <= self.pos(),
                0 <= pos0 <= toks.len(),
                spec_equality(toks, pos0) == spec_equality_rest(toks, self.pos(), expr@),
            decreases toks.len() - self.pos(),
        {
            let operator = self.advance();
            let right = match self.comparison() {
                Ok(e) => e,
                Err(err) => {
                    return Err(err);
                }
            };
            expr = Expr::Binary {
                left: Box::new(expr),
                operator,
                right: Box::new(right),
            };
        }
        Ok(expr)
    }

    /// comparison := term ( (">" | ">=" | "<" | "<=") term )*
    #[verifier::loop_isolation(false)]
    fn comparison(&mut self) -> (r: Result<Expr, ParseError>)
        requires
            old(self).wf(),
        ensures
            final(self).wf(),
            final(self).toks() == old(self).toks(),
            old(self).pos() <= final(self).pos(),
            parse_result_matches(
                spec_comparison(old(self).toks(), old(self).pos()),
                r,
                final(self).pos(),
            ),
        decreases old(self).toks().len() - old(self).pos(), 9int,
    {
        let ghost toks = old(self).toks();
        let ghost pos0 = old(self).pos();
        let mut expr = match self.term() {
            Ok(e) => e,
            Err(err) => {
                return Err(err);
            }
        };
        while self.check4(
            TokenType::Greater,
            TokenType::Greaterequal,
            TokenType::Less,
            TokenType::Lessequal,
        )
            invariant
                self.wf(),
                self.toks() == toks,
                pos0 <= self.pos(),
                0 <= pos0 <= toks.len(),
                spec_comparison(toks, pos0) == spec_comparison_rest(toks, self.pos(), expr@),
            decreases toks.len() - self.pos(),
        {
            let operator = self.advance();
            let right = match self.term() {
                Ok(e) => e,
                Err(err) => {
                    return Err(err);
                }
            };
            expr = Expr::Binary {
                left: Box::new(expr),
                operator,
                right: Box::new(right),
            };
        }
        Ok(expr)
    }

    /// term := factor ( ("+" | "-") factor )*
    #[verifier::loop_isolation(false)]
    fn term(&mut self) -> (r: Result<Expr, ParseError>)
        requires
            old(self).wf(),
        ensures
            final(self).wf(),
            final(self).toks() == old(self).toks(),
            old(self).pos() <= final(self).pos(),
            parse_result_matches(
                spec_term(old(self).toks(), old(self).pos()),
                r,
                final(self).pos(),
            ),
        decreases old(self).toks().len() - old(self).pos(), 7int,
    {
        let ghost toks = old(self).toks();
        let ghost pos0 = old(self).pos();
        let mut expr = match self.factor() {
            Ok(e) => e,
            Err(err) => {
                return Err(err);
            }
        };
        while self.check2(TokenType::Plus, TokenType::Minus)
            invariant
                self.wf(),
                self.toks() == toks,
                pos0 <= self.pos(),
                0 <= pos0 <= toks.len(),
                spec_term(toks, pos0) == spec_term_rest(toks, self.pos(), expr@),
            decreases toks.len() - self.pos(),
        {
            let operator = self.advance();
            let right = match self.factor() {
                Ok(e) => e,
                Err(err) => {
                    return Err(err);
                }
            };
            expr = Expr::Binary {
                left: Box::new(expr),
                operator,
                right: Box::new(right),
            };
        }
        Ok(expr)
    }

    /// factor := unary ( ("/" | "*") unary )*
    #[verifier::loop_isolation(false)]
    fn factor(&mut self) -> (r: Result<Expr, ParseError>)
        requires
            old(self).wf(),
        ensures
            final(self).wf(),
            final(self).toks() == old(self).toks(),
            old(self).pos() <= final(self).pos(),
            parse_result_matches(
                spec_factor(old(self).toks(), old(self).pos()),
                r,
                final(self).pos(),
            ),
        decreases old(self).toks().len() - old(self).pos(), 5int,
    {
        let ghost toks = old(self).toks();
        let ghost pos0 = old(self).pos();
        let mut expr = match self.unary() {
            Ok(e) => e,
            Err(err) => {
                return Err(err);
            }
        };
        while self.check2(TokenType::Slash, TokenType::Star)
            invariant
                self.wf(),
                self.toks() == toks,
                pos0 <= self.pos(),
                0 <= pos0 <= toks.len(),
                spec_factor(toks, pos0) == spec_factor_rest(toks, self.pos(), expr@),
            decreases toks.len() - self.pos(),
        {
            let operator = self.advance();
            let right = match self.unary() {
                Ok(e) => e,
                Err(err) => {
                    return Err(err);
                }
            };
            expr = Expr::Binary {
                left: Box::new(expr),
                operator,
                right: Box::new(right),
            };
        }
        Ok(expr)
    }

    /// unary := ("!" | "-") unary | primary
    fn unary(&mut self) -> (r: Result<Expr, ParseError>)
        requires
            old(self).wf(),
        ensures
            final(self).wf(),
            final(self).toks() == old(self).toks(),
            old(self).pos() <= final(self).pos(),
            parse_result_matches(
                spec_unary(old(self).toks(), old(self).pos()),
                r,
                final(self).pos(),
            ),
        decreases old(self).toks().len() - old(self).pos(), 3int,
    {
        if self.check2(TokenType::Bang, TokenType::Minus) {
            let operator = self.advance();
            let right = match self.unary() {
                Ok(e) => e,
                Err(err) => {
                    return Err(err);
                }
            };
            return Ok(Expr::Unary { operator, right: Box::new(right) });
        }
        self.primary()
    }

    /// primary := "false" | "true" | "null" | INTEGER | FLOAT | STRING
    ///          | "(" expression ")"
    fn primary(&mut self) -> (r: Result<Expr, ParseError>)
        requires
            old(self).wf(),
        ensures
            final(self).wf(),
            final(self).toks() == old(self).toks(),
            old(self).pos() <= final(self).pos(),
            parse_result_matches(
                spec_primary(old(self).toks(), old(self).pos()),
                r,
                final(self).pos(),
            ),
        decreases old(self).toks().len() - old(self).pos(), 2int,
    {
        if self.check(TokenType::False) {
            self.advance();
            return Ok(Expr::LiteralFalse);
        }
        if self.check(TokenType::True) {
            self.advance();
            return Ok(Expr::LiteralTrue);
        }
        if self.check(TokenType::Null) {
            self.advance();
            return Ok(Expr::LiteralNull);
        }
        if self.check(TokenType::Int) {
            let token = self.advance();
            return match parse_int_lexeme(&token.lexeme) {
                Some(v) => Ok(Expr::LiteralInt(v)),
                None => Err(ParseError::InvalidIntLiteral { token }),
            };
        }
        if self.check(TokenType::Double) {
            let token = self.advance();
            return Ok(Expr::LiteralDouble(token.lexeme));
        }
        if self.check(TokenType::String) {
            let token = self.advance();
            return Ok(Expr::LiteralString(token.lexeme));
        }
        if self.check(TokenType::Leftparen) {
            self.advance();
            let inner = match self.expression() {
                Ok(e) => e,
                Err(err) => {
                    return Err(err);
                }
            };
            return match self.consume_token(TokenType::Rightparen) {
                Ok(_) => Ok(Expr::Grouping(Box::new(inner))),
                Err(err) => Err(err),
            };
        }
        Err(ParseError::ExpectedExpression { found: self.found_token() })
    }
}

/// What the minimal arithmetic evaluator yields on an expression: the exact
/// value of `+`, `-`, `*`, truncating `/`, and unary `-`/`+` over 64-bit
/// signed integer literals, or nothing where a subexpression is not
/// arithmetic, a division divides by zero, or any intermediate result leaves
/// the 64-bit range.
pub open spec fn spec_eval(e: SpecExpr) -> Option<i64>
    decreases e,
{
    match e {
        SpecExpr::Binary { left, operator, right } => {
            match (spec_eval(*left), spec_eval(*right)) {
                (Some(l), Some(r)) => {
                    if operator.kind == TokenType::Plus {
                        l.checked_add(r)
                    } else if operator.kind == TokenType::Minus {
                        l.checked_sub(r)
                    } else if operator.kind == TokenType::Star {
                        l.checked_mul(r)
                    } else if operator.kind == TokenType::Slash {
                        l.checked_div(r)
                    } else {
                        None
                    }
                }
                _ => None,
            }
        }
        SpecExpr::Unary { operator, right } => {
            match spec_eval(*right) {
                Some(v) => {
                    if operator.kind == TokenType::Minus {
                        (0i64).checked_sub(v)
                    } else if operator.kind == TokenType::Plus {
                        Some(v)
                    } else {
                        None
                    }
                }
                None => None,
            }
        }
        SpecExpr::Grouping(inner) => spec_eval(*inner),
        SpecExpr::LiteralInt(v) => Some(v),
        _ => None,
    }
}

/// A thin recursive walker over the tree, used to sanity-check parsed
/// expressions: evaluates integer arithmetic exactly, and returns nothing on
/// non-arithmetic trees, division by zero, or 64-bit overflow.
pub fn evaluate(expr: Expr) -> (r: Option<i64>)
    ensures
        r == spec_eval(expr@),
    decreases expr,
{
    match expr {
        Expr::Binary { left, operator, right } => {
            let l = match evaluate(*left) {
                Some(v) => v,
                None => {
                    return None;
                }
            };
            let r2 = match evaluate(*right) {
                Some(v) => v,
                None => {
                    return None;
                }
            };
            if operator.token_type == TokenType::Plus {
                l.checked_add(r2)
            } else if operator.token_type == TokenType::Minus {
                l.checked_sub(r2)
            } else if operator.token_type == TokenType::Star {
                l.checked_mul(r2)
            } else if operator.token_type == TokenType::Slash {
                l.checked_div(r2)
            } else {
                None
            }
        }
        Expr::Unary { operator, right } => {
            let v = match evaluate(*right) {
                Some(v) => v,
                None => {
                    return None;
                }
            };
            if operator.token_type == TokenType::Minus {
                (0i64).checked_sub(v)
            } else if operator.token_type == TokenType::Plus {
                Some(v)
            } else {
                None
            }
        }
        Expr::Grouping(inner) => evaluate(*inner),
        Expr::LiteralInt(v) => Some(v),
        _ => None,
    }
}

} // verus!
