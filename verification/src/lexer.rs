//! The lexer: consumes source text and produces an ordered sequence of typed,
//! position-tagged tokens, or fails if the text contains a character that
//! matches no rule or a string literal that is never closed.
//!
//! The scanning algorithm is specified by `scan_step`, which says, for a
//! cursor standing at a token start, which token (if any) is produced, which
//! error (if any) is recorded, and where the cursor stands afterwards.
//! `scan_tokens` and `scan_errs` iterate that step over the whole input.

use vstd::prelude::*;

use crate::token::{SpecToken, Token, TokenSpan, TokenType};
use vstd::std_specs::iter::IteratorSpec;

verus! {

broadcast use vstd::string::group_string_axioms;

/// A lex-time failure. Scanning continues past it, but the overall result of
/// `lex_tokens` is failure if any was recorded.
#[derive(Debug, PartialEq, Eq, Clone, Copy, Structural)]
pub enum LexError {
    /// A scanned character matched no lexical rule.
    UnexpectedCharacter { ch: char, span: TokenSpan },
    /// A string literal had no closing quote before end-of-input.
    UnterminatedString { span: TokenSpan },
}

/// The mathematical value of a `LexError`, with spans as unbounded integers.
pub enum SpecLexError {
    UnexpectedCharacter { ch: char, start: int, end: int },
    UnterminatedString { start: int, end: int },
}

impl View for LexError {
    type V = SpecLexError;

    open spec fn view(&self) -> SpecLexError {
        match *self {
            LexError::UnexpectedCharacter { ch, span } => SpecLexError::UnexpectedCharacter {
                ch,
                start: span.start as int,
                end: span.end as int,
            },
            LexError::UnterminatedString { span } => SpecLexError::UnterminatedString {
                start: span.start as int,
                end: span.end as int,
            },
        }
    }
}

/// The values of a sequence of lex errors.
pub open spec fn errors_view(es: Seq<LexError>) -> Seq<SpecLexError> {
    es.map(|i: int, e: LexError| e@)
}

/// An ASCII decimal digit.
pub open spec fn spec_is_digit(c: char) -> bool {
    48 <= c as u32 && c as u32 <= 57
}

/// An ASCII letter or an underscore: the characters that may start a word.
pub open spec fn spec_is_alpha(c: char) -> bool {
    (97 <= c as u32 && c as u32 <= 122) || (65 <= c as u32 && c as u32 <= 90) || c == '_'
}

/// A character that may continue a word: a letter, a digit, or an underscore.
pub open spec fn spec_is_word_char(c: char) -> bool {
    spec_is_digit(c) || spec_is_alpha(c)
}

/// The position of the first non-digit character at or after `i`, or the end
/// of the input.
pub open spec fn digits_end(src: Seq<char>, i: int) -> int
    decreases src.len() - i,
    when 0 <= i <= src.len()
{
    if i < src.len() && spec_is_digit(src[i]) {
        digits_end(src, i + 1)
    } else {
        i
    }
}

/// The position of the first non-word character at or after `i`, or the end
/// of the input.
pub open spec fn word_end(src: Seq<char>, i: int) -> int
    decreases src.len() - i,
    when 0 <= i <= src.len()
{
    if i < src.len() && spec_is_word_char(src[i]) {
        word_end(src, i + 1)
    } else {
        i
    }
}

/// The position of the first double quote at or after `i`, or the end of the
/// input if the string body is never closed.
pub open spec fn string_body_end(src: Seq<char>, i: int) -> int
    decreases src.len() - i,
    when 0 <= i <= src.len()
{
    if i < src.len() && src[i] != '"' {
        string_body_end(src, i + 1)
    } else {
        i
    }
}

/// The position of the first newline at or after `i`, or the end of the
/// input: where a line comment stops consuming.
pub open spec fn line_comment_end(src: Seq<char>, i: int) -> int
    decreases src.len() - i,
    when 0 <= i <= src.len()
{
    if i < src.len() && src[i] != '\n' {
        line_comment_end(src, i + 1)
    } else {
        i
    }
}

pub proof fn lemma_digits_end_bounds(src: Seq<char>, i: int)
    requires
        0 <= i <= src.len(),
    ensures
        i <= digits_end(src, i) <= src.len(),
    decreases src.len() - i,
{
    if i < src.len() && spec_is_digit(src[i]) {
        lemma_digits_end_bounds(src, i + 1);
    }
}

pub proof fn lemma_word_end_bounds(src: Seq<char>, i: int)
    requires
        0 <= i <= src.len(),
    ensures
        i <= word_end(src, i) <= src.len(),
    decreases src.len() - i,
{
    if i < src.len() && spec_is_word_char(src[i]) {
        lemma_word_end_bounds(src, i + 1);
    }
}

pub proof fn lemma_string_body_end_bounds(src: Seq<char>, i: int)
    requires
        0 <= i <= src.len(),
    ensures
        i <= string_body_end(src, i) <= src.len(),
    decreases src.len() - i,
{
    if i < src.len() && src[i] != '"' {
        lemma_string_body_end_bounds(src, i + 1);
    }
}

pub proof fn lemma_line_comment_end_bounds(src: Seq<char>, i: int)
    requires
        0 <= i <= src.len(),
    ensures
        i <= line_comment_end(src, i) <= src.len(),
    decreases src.len() - i,
{
    if i < src.len() && src[i] != '\n' {
        lemma_line_comment_end_bounds(src, i + 1);
    }
}

/// The keyword kind whose spelling is exactly `s`, or `Identifier` if `s` is
/// not a keyword. The lookup is exact-match only: no prefix matches.
pub open spec fn keyword_kind(s: Seq<char>) -> TokenType {
    if s == "class"@ {
        TokenType::Class
    } else if s == "else"@ {
        TokenType::Else
    } else if s == "false"@ {
        TokenType::False
    } else if s == "fn"@ {
        TokenType::Fn
    } else if s == "for"@ {
        TokenType::For
    } else if s == "if"@ {
        TokenType::If
    } else if s == "null"@ {
        TokenType::Null
    } else if s == "return"@ {
        TokenType::Return
    } else if s == "super"@ {
        TokenType::Super
    } else if s == "this"@ {
        TokenType::This
    } else if s == "true"@ {
        TokenType::True
    } else if s == "while"@ {
        TokenType::While
    } else if s == "in"@ {
        TokenType::In
    } else {
        TokenType::Identifier
    }
}

/// What one scanning step does: the token it emits (if any), the error it
/// records (if any), and the cursor position after the step.
pub struct ScanStep {
    pub token: Option<SpecToken>,
    pub err: Option<SpecLexError>,
    pub next: int,
}

/// A step that emits a token spanning `[i, end)` whose lexeme is exactly that
/// range of the source.
pub open spec fn step_token(src: Seq<char>, i: int, kind: TokenType, end: int) -> ScanStep {
    ScanStep {
        token: Some(SpecToken { kind, lexeme: src.subrange(i, end), start: i, end }),
        err: None,
        next: end,
    }
}

/// A step that emits nothing and moves the cursor to `next`.
pub open spec fn step_skip(next: int) -> ScanStep {
    ScanStep { token: None, err: None, next }
}

/// Whether the character after position `i` exists and equals `x`: the test
/// behind every two-character token.
pub open spec fn has_second(src: Seq<char>, i: int, x: char) -> bool {
    i + 1 < src.len() && src[i + 1] == x
}

/// One step of scanning with the cursor standing at `i`: classifies the
/// character at `i` exactly as the lexer does.
pub open spec fn scan_step(src: Seq<char>, i: int) -> ScanStep {
    let c = src[i];
    if c == '(' {
        step_token(src, i, TokenType::Leftparen, i + 1)
    } else if c == ')' {
        step_token(src, i, TokenType::Rightparen, i + 1)
    } else if c == '{' {
        step_token(src, i, TokenType::Leftcurl, i + 1)
    } else if c == '}' {
        step_token(src, i, TokenType::Rightcurl, i + 1)
    } else if c == '[' {
        step_token(src, i, TokenType::Leftbrack, i + 1)
    } else if c == ']' {
        step_token(src, i, TokenType::Rightbrack, i + 1)
    } else if c == ',' {
        step_token(src, i, TokenType::Comma, i + 1)
    } else if c == '.' {
        step_token(src, i, TokenType::Dot, i + 1)
    } else if c == '+' {
        step_token(src, i, TokenType::Plus, i + 1)
    } else if c == '-' {
        step_token(src, i, TokenType::Minus, i + 1)
    } else if c == ';' {
        step_token(src, i, TokenType::Semicolon, i + 1)
    } else if c == '\r' || c == '\t' || c == ' ' || c == '\n' {
        step_skip(i + 1)
    } else if c == '"' {
        let j = string_body_end(src, i + 1);
        if j >= src.len() {
            ScanStep {
                token: None,
                err: Some(SpecLexError::UnterminatedString { start: i, end: src.len() as int }),
                next: src.len() as int,
            }
        } else {
            ScanStep {
                token: Some(
                    SpecToken {
                        kind: TokenType::String,
                        lexeme: src.subrange(i + 1, j),
                        start: i,
                        end: j + 1,
                    },
                ),
                err: None,
                next: j + 1,
            }
        }
    } else if c == '&' {
        // A lone `&` produces no token at all; only `&&` is recognised.
        if has_second(src, i, '&') {
            step_token(src, i, TokenType::And, i + 2)
        } else {
            step_skip(i + 1)
        }
    } else if c == '|' {
        if has_second(src, i, '|') {
            step_token(src, i, TokenType::Or, i + 2)
        } else {
            step_skip(i + 1)
        }
    } else if c == '*' {
        if has_second(src, i, '*') {
            step_token(src, i, TokenType::Power, i + 2)
        } else {
            step_token(src, i, TokenType::Star, i + 1)
        }
    } else if c == '!' {
        if has_second(src, i, '=') {
            step_token(src, i, TokenType::Bangequal, i + 2)
        } else {
            step_token(src, i, TokenType::Bang, i + 1)
        }
    } else if c == '=' {
        if has_second(src, i, '=') {
            step_token(src, i, TokenType::Equalequal, i + 2)
        } else {
            step_token(src, i, TokenType::Equal, i + 1)
        }
    } else if c == '>' {
        if has_second(src, i, '=') {
            step_token(src, i, TokenType::Greaterequal, i + 2)
        } else {
            step_token(src, i, TokenType::Greater, i + 1)
        }
    } else if c == '<' {
        if has_second(src, i, '=') {
            step_token(src, i, TokenType::Lessequal, i + 2)
        } else {
            step_token(src, i, TokenType::Less, i + 1)
        }
    } else if c == '/' {
        if has_second(src, i, '/') {
            // A line comment: consume through the end of the line.
            step_skip(line_comment_end(src, i + 2))
        } else {
            step_token(src, i, TokenType::Slash, i + 1)
        }
    } else if spec_is_digit(c) {
        let j = digits_end(src, i + 1);
        if j < src.len() && src[j] == '.' && j + 1 < src.len() && spec_is_digit(src[j + 1]) {
            step_token(src, i, TokenType::Double, digits_end(src, j + 1))
        } else {
            step_token(src, i, TokenType::Int, j)
        }
    } else if spec_is_alpha(c) {
        let j = word_end(src, i + 1);
        ScanStep {
            token: Some(
                SpecToken {
                    kind: keyword_kind(src.subrange(i, j)),
                    lexeme: src.subrange(i, j),
                    start: i,
                    end: j,
                },
            ),
            err: None,
            next: j,
        }
    } else {
        ScanStep {
            token: None,
            err: Some(SpecLexError::UnexpectedCharacter { ch: c, start: i, end: i + 1 }),
            next: i + 1,
        }
    }
}

/// Every scanning step advances the cursor and stays inside the input.
pub proof fn lemma_scan_step_bounds(src: Seq<char>, i: int)
    requires
        0 <= i < src.len(),
    ensures
        i < scan_step(src, i).next <= src.len(),
{
    let c = src[i];
    if c == '"' {
        lemma_string_body_end_bounds(src, i + 1);
    } else if c == '/' && has_second(src, i, '/') {
        lemma_line_comment_end_bounds(src, i + 2);
    } else if spec_is_digit(c) {
        lemma_digits_end_bounds(src, i + 1);
        let j = digits_end(src, i + 1);
        if j < src.len() && src[j] == '.' && j + 1 < src.len() && spec_is_digit(src[j + 1]) {
            lemma_digits_end_bounds(src, j + 1);
        }
    } else if spec_is_alpha(c) {
        lemma_word_end_bounds(src, i + 1);
    }
}

/// All tokens that scanning emits from position `i` to the end of the input.
pub open spec fn scan_tokens(src: Seq<char>, i: int) -> Seq<SpecToken>
    decreases src.len() - i,
    when 0 <= i <= src.len()
    via scan_tokens_decreases
{
    if i >= src.len() {
        Seq::empty()
    } else {
        let st = scan_step(src, i);
        match st.token {
            Some(t) => seq![t] + scan_tokens(src, st.next),
            None => scan_tokens(src, st.next),
        }
    }
}

#[via_fn]
proof fn scan_tokens_decreases(src: Seq<char>, i: int) {
    if 0 <= i && i < src.len() {
        lemma_scan_step_bounds(src, i);
    }
}

/// All errors that scanning records from position `i` to the end of the
/// input, in the order they are encountered.
pub open spec fn scan_errs(src: Seq<char>, i: int) -> Seq<SpecLexError>
    decreases src.len() - i,
    when 0 <= i <= src.len()
    via scan_errs_decreases
{
    if i >= src.len() {
        Seq::empty()
    } else {
        let st = scan_step(src, i);
        match st.err {
            Some(e) => seq![e] + scan_errs(src, st.next),
            None => scan_errs(src, st.next),
        }
    }
}

#[via_fn]
proof fn scan_errs_decreases(src: Seq<char>, i: int) {
    if 0 <= i && i < src.len() {
        lemma_scan_step_bounds(src, i);
    }
}

/// What lexing a whole source text yields: its token sequence, or nothing if
/// any error is recorded along the way.
pub open spec fn spec_lex(src: Seq<char>) -> Option<Seq<SpecToken>> {
    if scan_errs(src, 0).len() > 0 {
        None
    } else {
        Some(scan_tokens(src, 0))
    }
}

/// The number of newline characters strictly before `idx`, plus one: the
/// one-based line number of the position `idx`.
pub open spec fn spec_line_of(src: Seq<char>, idx: int) -> int
    decreases idx,
    when 0 <= idx <= src.len()
{
    if idx <= 0 {
        1
    } else {
        spec_line_of(src, idx - 1) + if src[idx - 1] == '\n' { 1int } else { 0int }
    }
}

/// The value of an option of tokens, used to state what `get_next_token`
/// returns.
pub open spec fn token_opt_view(r: Option<Token>) -> Option<SpecToken> {
    match r {
        Some(t) => Some(t@),
        None => None,
    }
}

/// A sequence holding the single error `e`, or the empty sequence.
pub open spec fn err_opt_seq(e: Option<SpecLexError>) -> Seq<SpecLexError> {
    match e {
        Some(x) => seq![x],
        None => Seq::empty(),
    }
}

/// Appends one character to a string.
///
/// Relies on `String::push`: it appends the given `char` to the end of the
/// string.
#[verifier::external_body]
fn push_char(s: &mut String, c: char)
    ensures
        final(s)@ == old(s)@.push(c),
{
    s.push(c);
}

/// The keyword kind whose spelling is exactly `word`, or `Identifier` if
/// `word` is not a keyword.
pub fn classify(word: &String) -> (t: TokenType)
    ensures
        t == keyword_kind(word@),
{
    if *word == String::from_str("class") {
        TokenType::Class
    } else if *word == String::from_str("else") {
        TokenType::Else
    } else if *word == String::from_str("false") {
        TokenType::False
    } else if *word == String::from_str("fn") {
        TokenType::Fn
    } else if *word == String::from_str("for") {
        TokenType::For
    } else if *word == String::from_str("if") {
        TokenType::If
    } else if *word == String::from_str("null") {
        TokenType::Null
    } else if *word == String::from_str("return") {
        TokenType::Return
    } else if *word == String::from_str("super") {
        TokenType::Super
    } else if *word == String::from_str("this") {
        TokenType::This
    } else if *word == String::from_str("true") {
        TokenType::True
    } else if *word == String::from_str("while") {
        TokenType::While
    } else if *word == String::from_str("in") {
        TokenType::In
    } else {
        TokenType::Identifier
    }
}

/// The scanner. `start` is the begin offset of the lexeme being scanned,
/// `current` is the cursor, and `errors` records every lex-time failure in
/// the order encountered.
#[derive(Debug)]
pub struct Lexer {
    source: Vec<char>,
    start: usize,
    current: usize,
    errors: Vec<LexError>,
}

impl Lexer {
    /// The characters of the source text.
    pub closed spec fn src(&self) -> Seq<char> {
        self.source@
    }

    /// The cursor position.
    pub closed spec fn pos(&self) -> int {
        self.current as int
    }

    /// The begin offset of the lexeme being scanned.
    pub closed spec fn lexeme_start(&self) -> int {
        self.start as int
    }

    /// The errors recorded so far.
    pub closed spec fn errs(&self) -> Seq<SpecLexError> {
        errors_view(self.errors@)
    }

    /// The scanner's invariant: the lexeme bounds lie inside the source.
    pub closed spec fn wf(&self) -> bool {
        self.start <= self.current <= self.source@.len()
    }

    /// A fresh scanner over the given source text, standing at the start.
    pub fn from_string(source: String) -> (ret: Lexer)
        ensures
            ret.wf(),
            ret.src() == source@,
            ret.pos() == 0,
            ret.lexeme_start() == 0,
            ret.errs() == Seq::<SpecLexError>::empty(),
    {
        let mut chars = source.as_str().chars();
        let mut v: Vec<char> = Vec::new();
        loop
            invariant
                v@ + chars.remaining() == source@,
                IteratorSpec::decrease(&chars) is Some,
            ensures
                v@ == source@,
            decreases IteratorSpec::decrease(&chars)->0,
        {
            match chars.next() {
                Some(c) => {
                    v.push(c);
                    proof {
                        assert(v@ + chars.remaining() =~= source@);
                    }
                }
                None => {
                    proof {
                        assert(v@ + chars.remaining() =~= v@);
                    }
                    break;
                }
            }
        }
        let ret = Lexer {
            source: v,
            start: 0,
            current: 0,
            errors: Vec::new(),
        };
        proof {
            assert(ret.errs() =~= Seq::<SpecLexError>::empty());
        }
        ret
    }

    /// Whether the cursor has reached the end of the input.
    fn is_at_end(&self) -> (r: bool)
        ensures
            r == (self.pos() >= self.src().len()),
    {
        self.current >= self.source.len()
    }

    /// Consumes and returns the character under the cursor.
    fn advance(&mut self) -> (c: char)
        requires
            old(self).wf(),
            old(self).pos() < old(self).src().len(),
        ensures
            final(self).wf(),
            c == old(self).src()[old(self).pos()],
            final(self).src() == old(self).src(),
            final(self).pos() == old(self).pos() + 1,
            final(self).lexeme_start() == old(self).lexeme_start(),
            final(self).errs() == old(self).errs(),
    {
        proof {
            vstd::std_specs::vec::axiom_spec_len(&self.source);
        }
        let c = self.source[self.current];
        self.current = self.current + 1;
        c
    }

    /// The character under the cursor, or the nul character at end-of-input.
    fn peek(&self) -> (c: char)
        requires
            self.wf(),
        ensures
            c == if self.pos() < self.src().len() {
                self.src()[self.pos()]
            } else {
                '\0'
            },
    {
        if self.is_at_end() {
            '\0'
        } else {
            self.source[self.current]
        }
    }

    /// The character one past the cursor, or the nul character if there is
    /// none.
    fn peek_next(&self) -> (c: char)
        requires
            self.wf(),
            self.pos() < self.src().len(),
        ensures
            c == if self.pos() + 1 < self.src().len() {
                self.src()[self.pos() + 1]
            } else {
                '\0'
            },
    {
        proof {
            vstd::std_specs::vec::axiom_spec_len(&self.source);
        }
        if self.current + 1 >= self.source.len() {
            '\0'
        } else {
            self.source[self.current + 1]
        }
    }

    /// Consumes the character under the cursor if it equals `expected`.
    fn match_next(&mut self, expected: char) -> (r: bool)
        requires
            old(self).wf(),
        ensures
            final(self).wf(),
            final(self).src() == old(self).src(),
            final(self).lexeme_start() == old(self).lexeme_start(),
            final(self).errs() == old(self).errs(),
            r == (old(self).pos() < old(self).src().len() && old(self).src()[old(self).pos()]
                == expected),
            final(self).pos() == if r {
                old(self).pos() + 1
            } else {
                old(self).pos()
            },
    {
        proof {
            vstd::std_specs::vec::axiom_spec_len(&self.source);
        }
        if self.is_at_end() {
            return false;
        }
        if self.source[self.current] != expected {
            return false;
        }
        self.current = self.current + 1;
        true
    }

    /// The substring of the source between offsets `a` and `b`.
    fn substring(&self, a: usize, b: usize) -> (r: String)
        requires
            a <= b <= self.src().len(),
        ensures
            r@ == self.src().subrange(a as int, b as int),
    {
        let mut s = String::new();
        let mut i = a;
        while i < b
            invariant
                a <= i <= b <= self.src().len(),
                s@ == self.src().subrange(a as int, i as int),
            decreases b - i,
        {
            push_char(&mut s, self.source[i]);
            proof {
                assert(self.src().subrange(a as int, i as int).push(self.src()[i as int])
                    =~= self.src().subrange(a as int, i + 1));
            }
            i = i + 1;
        }
        proof {
            assert(s@ =~= self.src().subrange(a as int, b as int));
        }
        s
    }

    /// The text of the lexeme being scanned: the substring between `start`
    /// and the cursor.
    fn get_lexem_string(&self) -> (r: String)
        requires
            self.wf(),
        ensures
            r@ == self.src().subrange(self.lexeme_start(), self.pos()),
    {
        self.substring(self.start, self.current)
    }

    /// An ASCII decimal digit.
    fn is_digit(c: char) -> (r: bool)
        ensures
            r == spec_is_digit(c),
    {
        let u = c as u32;
        48 <= u && u <= 57
    }

    /// An ASCII letter or an underscore.
    fn is_alpha(c: char) -> (r: bool)
        ensures
            r == spec_is_alpha(c),
    {
        let u = c as u32;
        (97 <= u && u <= 122) || (65 <= u && u <= 90) || c == '_'
    }

    /// The one-based line number of the byte offset `idx`, derived on demand
    /// by counting newline characters before it.
    pub fn get_line_from_idx(&self, idx: usize) -> (line: usize)
        requires
            idx <= self.src().len(),
            idx < usize::MAX,
        ensures
            line == spec_line_of(self.src(), idx as int),
    {
        let mut line: usize = 1;
        let mut i: usize = 0;
        while i < idx
            invariant
                0 <= i <= idx <= self.src().len(),
                idx < usize::MAX,
                line == spec_line_of(self.src(), i as int),
                line <= i + 1,
            decreases idx - i,
        {
            if self.source[i] == '\n' {
                line = line + 1;
            }
            i = i + 1;
        }
        line
    }

    /// Scans the rest of a string literal, the opening quote already
    /// consumed. On success the cursor stands after the closing quote; if
    /// end-of-input comes first, records an unterminated-string error.
    fn string_token(&mut self) -> (r: Option<TokenType>)
        requires
            old(self).wf(),
        ensures
            final(self).wf(),
            final(self).src() == old(self).src(),
            final(self).lexeme_start() == old(self).lexeme_start(),
            ({
                let j = string_body_end(old(self).src(), old(self).pos());
                if j >= old(self).src().len() {
                    &&& r is None
                    &&& final(self).pos() == old(self).src().len()
                    &&& final(self).errs() == old(self).errs() + seq![
                        SpecLexError::UnterminatedString {
                            start: old(self).lexeme_start(),
                            end: old(self).src().len() as int,
                        },
                    ]
                } else {
                    &&& r == Some(TokenType::String)
                    &&& final(self).pos() == j + 1
                    &&& final(self).errs() == old(self).errs()
                }
            }),
    {
        let ghost pos0 = self.pos();
        while self.peek() != '"' && !self.is_at_end()
            invariant
                self.wf(),
                self.src() == old(self).src(),
                self.lexeme_start() == old(self).lexeme_start(),
                self.errs() == old(self).errs(),
                pos0 <= self.pos(),
                string_body_end(self.src(), self.pos()) == string_body_end(self.src(), pos0),
            decreases self.src().len() - self.pos(),
        {
            self.advance();
        }

        if self.is_at_end() {
            self.errors.push(
                LexError::UnterminatedString {
                    span: TokenSpan { start: self.start, end: self.current },
                },
            );
            proof {
                assert(self.errs() =~= old(self).errs() + seq![
                    SpecLexError::UnterminatedString {
                        start: old(self).lexeme_start(),
                        end: old(self).src().len() as int,
                    },
                ]);
            }
            return None;
        }

        // The closing quote.
        self.advance();
        Some(TokenType::String)
    }

    /// Scans the rest of a number, the first digit already consumed: a run of
    /// digits, then optionally a decimal point followed by a second run.
    fn number_token(&mut self) -> (r: Option<TokenType>)
        requires
            old(self).wf(),
        ensures
            final(self).wf(),
            final(self).src() == old(self).src(),
            final(self).lexeme_start() == old(self).lexeme_start(),
            final(self).errs() == old(self).errs(),
            ({
                let j = digits_end(old(self).src(), old(self).pos());
                if j < old(self).src().len() && old(self).src()[j] == '.' && j + 1 < old(
                    self,
                ).src().len() && spec_is_digit(old(self).src()[j + 1]) {
                    r == Some(TokenType::Double) && final(self).pos() == digits_end(
                        old(self).src(),
                        j + 1,
                    )
                } else {
                    r == Some(TokenType::Int) && final(self).pos() == j
                }
            }),
    {
        let ghost pos0 = self.pos();
        while Lexer::is_digit(self.peek())
            invariant
                self.wf(),
                self.src() == old(self).src(),
                self.lexeme_start() == old(self).lexeme_start(),
                self.errs() == old(self).errs(),
                pos0 <= self.pos(),
                digits_end(self.src(), self.pos()) == digits_end(self.src(), pos0),
            decreases self.src().len() - self.pos(),
        {
            self.advance();
        }

        let mut is_float = false;
        if self.peek() == '.' && Lexer::is_digit(self.peek_next()) {
            is_float = true;
            // The decimal point.
            self.advance();
            let ghost pos1 = self.pos();
            while Lexer::is_digit(self.peek())
                invariant
                    self.wf(),
                    self.src() == old(self).src(),
                    self.lexeme_start() == old(self).lexeme_start(),
                    self.errs() == old(self).errs(),
                    pos1 <= self.pos(),
                    digits_end(self.src(), self.pos()) == digits_end(self.src(), pos1),
                decreases self.src().len() - self.pos(),
            {
                self.advance();
            }
        }

        if is_float {
            Some(TokenType::Double)
        } else {
            Some(TokenType::Int)
        }
    }

    /// Scans the rest of a word, the first letter already consumed, and
    /// classifies it against the keyword table.
    fn identifier_token(&mut self) -> (r: Option<TokenType>)
        requires
            old(self).wf(),
        ensures
            final(self).wf(),
            final(self).src() == old(self).src(),
            final(self).lexeme_start() == old(self).lexeme_start(),
            final(self).errs() == old(self).errs(),
            final(self).pos() == word_end(old(self).src(), old(self).pos()),
            r == Some(
                keyword_kind(
                    final(self).src().subrange(final(self).lexeme_start(), final(self).pos()),
                ),
            ),
    {
        let ghost pos0 = self.pos();
        while Lexer::is_digit(self.peek()) || Lexer::is_alpha(self.peek())
            invariant
                self.wf(),
                self.src() == old(self).src(),
                self.lexeme_start() == old(self).lexeme_start(),
                self.errs() == old(self).errs(),
                pos0 <= self.pos(),
                word_end(self.src(), self.pos()) == word_end(self.src(), pos0),
            decreases self.src().len() - self.pos(),
        {
            self.advance();
        }
        let lexeme = self.get_lexem_string();
        Some(classify(&lexeme))
    }

    /// Scans one lexeme starting at the cursor: returns the token it denotes,
    /// or nothing for whitespace, comments, lone `&`/`|`, and errors. Exactly
    /// follows `scan_step`.
    fn get_next_token(&mut self) -> (r: Option<Token>)
        requires
            old(self).wf(),
            old(self).pos() < old(self).src().len(),
            old(self).lexeme_start() == old(self).pos(),
        ensures
            final(self).wf(),
            final(self).src() == old(self).src(),
            ({
                let st = scan_step(old(self).src(), old(self).pos());
                &&& final(self).pos() == st.next
                &&& final(self).errs() == old(self).errs() + err_opt_seq(st.err)
                &&& token_opt_view(r) == st.token
            }),
    {
        let c = self.advance();

        let token: Option<TokenType> = if c == '(' {
            Some(TokenType::Leftparen)
        } else if c == ')' {
            Some(TokenType::Rightparen)
        } else if c == '{' {
            Some(TokenType::Leftcurl)
        } else if c == '}' {
            Some(TokenType::Rightcurl)
        } else if c == '[' {
            Some(TokenType::Leftbrack)
        } else if c == ']' {
            Some(TokenType::Rightbrack)
        } else if c == ',' {
            Some(TokenType::Comma)
        } else if c == '.' {
            Some(TokenType::Dot)
        } else if c == '+' {
            Some(TokenType::Plus)
        } else if c == '-' {
            Some(TokenType::Minus)
        } else if c == ';' {
            Some(TokenType::Semicolon)
        } else if c == '\r' || c == '\t' || c == ' ' || c == '\n' {
            None
        } else if c == '"' {
            self.string_token()
        } else if c == '&' {
            if self.match_next('&') {
                Some(TokenType::And)
            } else {
                None
            }
        } else if c == '|' {
            if self.match_next('|') {
                Some(TokenType::Or)
            } else {
                None
            }
        } else if c == '*' {
            if self.match_next('*') {
                Some(TokenType::Power)
            } else {
                Some(TokenType::Star)
            }
        } else if c == '!' {
            if self.match_next('=') {
                Some(TokenType::Bangequal)
            } else {
                Some(TokenType::Bang)
            }
        } else if c == '=' {
            if self.match_next('=') {
                Some(TokenType::Equalequal)
            } else {
                Some(TokenType::Equal)
            }
        } else if c == '>' {
            if self.match_next('=') {
                Some(TokenType::Greaterequal)
            } else {
                Some(TokenType::Greater)
            }
        } else if c == '<' {
            if self.match_next('=') {
                Some(TokenType::Lessequal)
            } else {
                Some(TokenType::Less)
            }
        } else if c == '/' {
            if self.match_next('/') {
                let ghost pos0 = self.pos();
                while self.peek() != '\n' && !self.is_at_end()
                    invariant
                        self.wf(),
                        self.src() == old(self).src(),
                        self.lexeme_start() == old(self).lexeme_start(),
                        self.errs() == old(self).errs(),
                        pos0 <= self.pos(),
                        line_comment_end(self.src(), self.pos()) == line_comment_end(
                            self.src(),
                            pos0,
                        ),
                    decreases self.src().len() - self.pos(),
                {
                    self.advance();
                }
                None
            } else {
                Some(TokenType::Slash)
            }
        } else if Lexer::is_digit(c) {
            self.number_token()
        } else if Lexer::is_alpha(c) {
            self.identifier_token()
        } else {
            self.errors.push(
                LexError::UnexpectedCharacter {
                    ch: c,
                    span: TokenSpan { start: self.start, end: self.current },
                },
            );
            proof {
                assert(self.errs() =~= old(self).errs() + seq![
                    SpecLexError::UnexpectedCharacter {
                        ch: c,
                        start: old(self).pos(),
                        end: old(self).pos() + 1,
                    },
                ]);
            }
            None
        };

        proof {
            assert(old(self).errs() + Seq::<SpecLexError>::empty() =~= old(self).errs());
        }

        proof {
            let st = scan_step(old(self).src(), old(self).pos());
            if token == Some(TokenType::String) {
                lemma_string_body_end_bounds(old(self).src(), old(self).pos() + 1);
                assert(self.lexeme_start() + 2 <= self.pos());
            }
        }

        match token {
            Some(t) => {
                let lexeme = if t == TokenType::String {
                    self.substring(self.start + 1, self.current - 1)
                } else {
                    self.get_lexem_string()
                };
                Some(
                    Token {
                        token_type: t,
                        span: TokenSpan { start: self.start, end: self.current },
                        lexeme,
                    },
                )
            }
            None => None,
        }
    }

    /// Lexes the whole source text from the cursor onward. Returns the
    /// complete token sequence, or nothing if any error was recorded; callers
    /// must not use a partial sequence.
    pub fn lex_tokens(&mut self) -> (r: Option<Vec<Token>>)
        requires
            old(self).wf(),
        ensures
            final(self).wf(),
            final(self).src() == old(self).src(),
            final(self).errs() == old(self).errs() + scan_errs(old(self).src(), old(self).pos()),
            ({
                match r {
                    Some(v) => old(self).errs().len() == 0 && scan_errs(
                        old(self).src(),
                        old(self).pos(),
                    ).len() == 0 && crate::token::tokens_view(v@) == scan_tokens(
                        old(self).src(),
                        old(self).pos(),
                    ),
                    None => old(self).errs().len() + scan_errs(
                        old(self).src(),
                        old(self).pos(),
                    ).len() > 0,
                }
            }),
    {
        let ghost src0 = self.src();
        let ghost pos0 = self.pos();
        let mut tokens: Vec<Token> = Vec::new();

        while !self.is_at_end()
            invariant
                self.wf(),
                self.src() == src0,
                pos0 <= self.pos(),
                0 <= pos0 <= src0.len(),
                crate::token::tokens_view(tokens@) + scan_tokens(src0, self.pos())
                    == scan_tokens(src0, pos0),
                self.errs() + scan_errs(src0, self.pos()) == old(self).errs() + scan_errs(
                    src0,
                    pos0,
                ),
            decreases self.src().len() - self.pos(),
        {
            proof {
                lemma_scan_step_bounds(src0, self.pos());
            }
            let ghost p = self.pos();
            let ghost toks_pre = crate::token::tokens_view(tokens@);
            let ghost errs_pre = self.errs();
            // The start of a new lexeme.
            self.start = self.current;
            let token = self.get_next_token();
            proof {
                let st = scan_step(src0, p);
                assert(scan_errs(src0, p) =~= err_opt_seq(st.err) + scan_errs(src0, st.next));
                assert((errs_pre + err_opt_seq(st.err)) + scan_errs(src0, st.next) =~= errs_pre
                    + scan_errs(src0, p));
            }
            if let Some(t) = token {
                tokens.push(t);
                proof {
                    let st = scan_step(src0, p);
                    assert(crate::token::tokens_view(tokens@) =~= toks_pre + seq![t@]);
                    assert(scan_tokens(src0, p) =~= seq![t@] + scan_tokens(src0, st.next));
                    assert((toks_pre + seq![t@]) + scan_tokens(src0, self.pos()) =~= toks_pre + (
                    seq![t@] + scan_tokens(src0, self.pos())));
                }
            } else {
                proof {
                    let st = scan_step(src0, p);
                    assert(scan_tokens(src0, p) =~= scan_tokens(src0, st.next));
                }
            }
        }

        proof {
            assert(scan_tokens(src0, self.pos()) =~= Seq::<SpecToken>::empty());
            assert(scan_errs(src0, self.pos()) =~= Seq::<SpecLexError>::empty());
            assert(crate::token::tokens_view(tokens@) + Seq::<SpecToken>::empty()
                =~= crate::token::tokens_view(tokens@));
            assert(self.errs() + Seq::<SpecLexError>::empty() =~= self.errs());
        }

        if self.errors.len() > 0 {
            return None;
        }

        Some(tokens)
    }

    /// The errors recorded so far, in the order encountered.
    pub fn errors(&self) -> (r: &Vec<LexError>)
        ensures
            errors_view(r@) == self.errs(),
    {
        &self.errors
    }
}

/// If every character in `[i, j)` is not a quote and `j` is a quote or the
/// end of the input, then `j` is where the string body ends.
proof fn lemma_string_body_end_is(src: Seq<char>, i: int, j: int)
    requires
        0 <= i <= j <= src.len(),
        forall|k: int| i <= k < j ==> #[trigger] src[k] != '"',
        j == src.len() || src[j] == '"',
    ensures
        string_body_end(src, i) == j,
    decreases j - i,
{
    if i < j {
        lemma_string_body_end_is(src, i + 1, j);
    }
}

/// A source text that is a single double-quoted literal with no embedded
/// quote lexes without error to exactly one string token, whose lexeme is the
/// text between the quotes and whose span covers the whole input.
pub proof fn lemma_single_string_literal(text: Seq<char>)
    requires
        forall|k: int| 0 <= k < text.len() ==> #[trigger] text[k] != '"',
    ensures
        ({
            let src = seq!['"'] + text + seq!['"'];
            &&& scan_errs(src, 0) == Seq::<SpecLexError>::empty()
            &&& scan_tokens(src, 0) == seq![
                SpecToken {
                    kind: TokenType::String,
                    lexeme: text,
                    start: 0,
                    end: text.len() + 2 as int,
                },
            ]
            &&& spec_lex(src) == Some(
                seq![
                    SpecToken {
                        kind: TokenType::String,
                        lexeme: text,
                        start: 0,
                        end: text.len() + 2 as int,
                    },
                ],
            )
        }),
{
    let src = seq!['"'] + text + seq!['"'];
    assert(src.len() == text.len() + 2);
    assert(src[0] == '"');
    assert(src[text.len() as int + 1] == '"');
    assert forall|k: int| 1 <= k < text.len() + 1 implies #[trigger] src[k] != '"' by {
        assert(src[k] == text[k - 1]);
    }
    lemma_string_body_end_is(src, 1, text.len() as int + 1);
    let st = scan_step(src, 0);
    assert(src.subrange(1, text.len() as int + 1) =~= text);
    assert(st.token == Some(
        SpecToken { kind: TokenType::String, lexeme: text, start: 0, end: text.len() + 2 as int },
    ));
    assert(st.next == src.len());
    assert(scan_tokens(src, st.next) =~= Seq::<SpecToken>::empty());
    assert(scan_errs(src, st.next) =~= Seq::<SpecLexError>::empty());
    assert(scan_tokens(src, 0) =~= seq![st.token->0] + Seq::<SpecToken>::empty());
    assert(scan_tokens(src, 0) =~= seq![st.token->0]);
    assert(scan_errs(src, 0) =~= Seq::<SpecLexError>::empty());
}

/// A source text that opens a string literal and never closes it lexes to a
/// failure: the one error recorded is an unterminated string spanning from
/// the opening quote to the end of the input, and no token sequence comes
/// back.
pub proof fn lemma_unterminated_string(src: Seq<char>)
    requires
        src.len() >= 1,
        src[0] == '"',
        forall|k: int| 1 <= k < src.len() ==> #[trigger] src[k] != '"',
    ensures
        scan_errs(src, 0) == seq![
            SpecLexError::UnterminatedString { start: 0, end: src.len() as int },
        ],
        spec_lex(src) is None,
{
    lemma_string_body_end_is(src, 1, src.len() as int);
    let st = scan_step(src, 0);
    assert(st.next == src.len());
    assert(scan_errs(src, st.next) =~= Seq::<SpecLexError>::empty());
    assert(scan_errs(src, 0) =~= seq![st.err->0] + Seq::<SpecLexError>::empty());
    assert(scan_errs(src, 0) =~= seq![
        SpecLexError::UnterminatedString { start: 0, end: src.len() as int },
    ]);
}

/// Keyword lookup is exact-match only: a word is classified as a keyword kind
/// exactly when it is that keyword's spelling, letter for letter, and as an
/// identifier otherwise. In particular no proper prefix or extension of a
/// keyword matches it.
pub proof fn lemma_keyword_lookup_exact(s: Seq<char>)
    ensures
        (keyword_kind(s) == TokenType::Class) <==> (s == "class"@),
        (keyword_kind(s) == TokenType::Else) <==> (s == "else"@),
        (keyword_kind(s) == TokenType::False) <==> (s == "false"@),
        (keyword_kind(s) == TokenType::Fn) <==> (s == "fn"@),
        (keyword_kind(s) == TokenType::For) <==> (s == "for"@),
        (keyword_kind(s) == TokenType::If) <==> (s == "if"@),
        (keyword_kind(s) == TokenType::Null) <==> (s == "null"@),
        (keyword_kind(s) == TokenType::Return) <==> (s == "return"@),
        (keyword_kind(s) == TokenType::Super) <==> (s == "super"@),
        (keyword_kind(s) == TokenType::This) <==> (s == "this"@),
        (keyword_kind(s) == TokenType::True) <==> (s == "true"@),
        (keyword_kind(s) == TokenType::While) <==> (s == "while"@),
        (keyword_kind(s) == TokenType::In) <==> (s == "in"@),
        (keyword_kind(s) == TokenType::Identifier) <==> (s != "class"@ && s != "else"@ && s
            != "false"@ && s != "fn"@ && s != "for"@ && s != "if"@ && s != "null"@ && s
            != "return"@ && s != "super"@ && s != "this"@ && s != "true"@ && s != "while"@ && s
            != "in"@),
{
    reveal_strlit("class");
    reveal_strlit("else");
    reveal_strlit("false");
    reveal_strlit("fn");
    reveal_strlit("for");
    reveal_strlit("if");
    reveal_strlit("null");
    reveal_strlit("return");
    reveal_strlit("super");
    reveal_strlit("this");
    reveal_strlit("true");
    reveal_strlit("while");
    reveal_strlit("in");
    assert("class"@.len() == 5 && "else"@.len() == 4 && "false"@.len() == 5 && "fn"@.len() == 2
        && "for"@.len() == 3 && "if"@.len() == 2 && "null"@.len() == 4 && "return"@.len() == 6
        && "super"@.len() == 5 && "this"@.len() == 4 && "true"@.len() == 4 && "while"@.len() == 5
        && "in"@.len() == 2);
    assert("false"@[0] == 'f' && "class"@[0] == 'c' && "super"@[0] == 's' && "while"@[0] == 'w');
    assert("else"@[0] == 'e' && "null"@[0] == 'n' && "this"@[0] == 't' && "true"@[0] == 't');
    assert("this"@[1] == 'h' && "true"@[1] == 'r');
    assert("fn"@[0] == 'f' && "if"@[0] == 'i' && "in"@[0] == 'i');
    assert("if"@[1] == 'f' && "in"@[1] == 'n');
}

} // verus!
