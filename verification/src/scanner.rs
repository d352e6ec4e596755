//! The scanner: what the tokens of a text are, and the scan that finds them.
//!
//! Decoding a number literal into a double is the caller's: `decode` stands
//! for the host's conversion from decimal text.

use vstd::prelude::*;
use crate::error::{ScanError, ScanErrorKind};
use crate::number::Number;
use crate::text::chars_of;
use crate::token::Token;
use crate::token_type::TokenType;

verus! {

/// A decimal digit.
pub open spec fn digit(c: char) -> bool {
    '0' <= c && c <= '9'
}

/// A letter of the Latin alphabet or an underscore.
pub open spec fn letter(c: char) -> bool {
    ('a' <= c && c <= 'z') || ('A' <= c && c <= 'Z') || c == '_'
}

/// A character that can stand in an identifier after its first.
pub open spec fn word_char(c: char) -> bool {
    digit(c) || letter(c)
}

/// The end of the longest run of digits that starts at `from`.
pub open spec fn digits_end(s: Seq<char>, from: int) -> int
    decreases s.len() - from,
{
    if 0 <= from < s.len() && digit(s[from]) {
        digits_end(s, from + 1)
    } else {
        from
    }
}

/// The end of the longest run of letters, digits and underscores that starts
/// at `from`.
pub open spec fn word_end(s: Seq<char>, from: int) -> int
    decreases s.len() - from,
{
    if 0 <= from < s.len() && word_char(s[from]) {
        word_end(s, from + 1)
    } else {
        from
    }
}

/// The index of the first newline at or after `from`, or the length of the
/// text where there is none.
pub open spec fn line_end(s: Seq<char>, from: int) -> int
    decreases s.len() - from,
{
    if 0 <= from < s.len() && s[from] != '\n' {
        line_end(s, from + 1)
    } else {
        from
    }
}

/// The index of the first double quote at or after `from`, or the length of
/// the text where there is none.
pub open spec fn quote_at(s: Seq<char>, from: int) -> int
    decreases s.len() - from,
{
    if 0 <= from < s.len() && s[from] != '"' {
        quote_at(s, from + 1)
    } else {
        from
    }
}

/// The end of the number literal whose first digit stands at `from`: digits,
/// and after them a dot and more digits where the dot is followed by a digit.
pub open spec fn number_end(s: Seq<char>, from: int) -> int {
    let whole: int = digits_end(s, from);
    if whole + 1 < s.len() && s[whole] == '.' && digit(s[whole + 1]) {
        digits_end(s, whole + 1)
    } else {
        whole
    }
}

/// The number of newlines before the index `pos`.
pub open spec fn newlines(s: Seq<char>, pos: int) -> int
    decreases pos,
{
    if pos <= 0 || pos > s.len() {
        0
    } else {
        newlines(s, pos - 1) + (if s[pos - 1] == '\n' {
            1int
        } else {
            0int
        })
    }
}

/// The line on which the index `pos` stands. Lines are counted from 1.
pub open spec fn line_at(s: Seq<char>, pos: int) -> int {
    1 + newlines(s, pos)
}

/// The keyword that `text` spells, if it spells one.
pub open spec fn keyword(text: Seq<char>) -> Option<TokenType> {
    if text == "and"@ {
        Some(TokenType::And)
    } else if text == "class"@ {
        Some(TokenType::Class)
    } else if text == "else"@ {
        Some(TokenType::Else)
    } else if text == "false"@ {
        Some(TokenType::False)
    } else if text == "for"@ {
        Some(TokenType::For)
    } else if text == "fun"@ {
        Some(TokenType::Fun)
    } else if text == "if"@ {
        Some(TokenType::If)
    } else if text == "nil"@ {
        Some(TokenType::Nil)
    } else if text == "or"@ {
        Some(TokenType::Or)
    } else if text == "print"@ {
        Some(TokenType::Print)
    } else if text == "return"@ {
        Some(TokenType::Return)
    } else if text == "super"@ {
        Some(TokenType::Super)
    } else if text == "this"@ {
        Some(TokenType::This)
    } else if text == "true"@ {
        Some(TokenType::True)
    } else if text == "var"@ {
        Some(TokenType::Var)
    } else if text == "while"@ {
        Some(TokenType::While)
    } else {
        None
    }
}

/// What a lexeme is.
pub enum Class {
    /// Punctuation, an operator, a keyword, an identifier or the end of the
    /// input: a kind without a payload.
    Plain(TokenType),
    /// A string literal. Its payload is the text between the quotes.
    Text,
    /// A number literal. Its payload is what `decode` makes of the lexeme.
    Numeral,
}

/// A token's place in the text: it spans the indices from `start` up to `end`.
pub struct Lexeme {
    pub class: Class,
    pub start: int,
    pub end: int,
}

/// What the scanner finds at an index: where the next scan starts, and the
/// lexeme or the failure that it found, if any.
pub struct Step {
    pub end: int,
    pub class: Option<Class>,
    pub error: Option<ScanError>,
}

/// A step that yields a token without payload.
pub open spec fn plain(kind: TokenType, end: int) -> Step {
    Step { end, class: Some(Class::Plain(kind)), error: None }
}

/// A step that yields nothing.
pub open spec fn skip(end: int) -> Step {
    Step { end, class: None, error: None }
}

/// A step that yields a failure on the line of the index `at`.
pub open spec fn failure(s: Seq<char>, kind: ScanErrorKind, at: int, end: int) -> Step {
    Step { end, class: None, error: Some(ScanError { kind, line: line_at(s, at) as usize }) }
}

/// The step at the index `pos` of the text.
///
/// A two-character operator is taken where its second character follows.
/// `//` starts a comment that runs up to the end of the line. White space
/// is passed over. A string literal runs up to the next double quote; where
/// there is none, the rest of the text is passed over and the failure is
/// reported on the line where the literal starts. A character that starts
/// no token is a failure and is dropped.
pub open spec fn lex_at(s: Seq<char>, pos: int) -> Step
    recommends
        0 <= pos < s.len(),
{
    let c = s[pos];
    let next: int = pos + 1;
    let equals = next < s.len() && s[next] == '=';
    if c == '(' {
        plain(TokenType::LeftParen, next)
    } else if c == ')' {
        plain(TokenType::RightParen, next)
    } else if c == '{' {
        plain(TokenType::LeftBrace, next)
    } else if c == '}' {
        plain(TokenType::RightBrace, next)
    } else if c == ',' {
        plain(TokenType::Comma, next)
    } else if c == '.' {
        plain(TokenType::Dot, next)
    } else if c == '-' {
        plain(TokenType::Minus, next)
    } else if c == '+' {
        plain(TokenType::Plus, next)
    } else if c == ';' {
        plain(TokenType::Semicolon, next)
    } else if c == '*' {
        plain(TokenType::Star, next)
    } else if c == '!' {
        if equals {
            plain(TokenType::BangEqual, next + 1)
        } else {
            plain(TokenType::Bang, next)
        }
    } else if c == '=' {
        if equals {
            plain(TokenType::EqualEqual, next + 1)
        } else {
            plain(TokenType::Equal, next)
        }
    } else if c == '<' {
        if equals {
            plain(TokenType::LessEqual, next + 1)
        } else {
            plain(TokenType::Less, next)
        }
    } else if c == '>' {
        if equals {
            plain(TokenType::GreaterEqual, next + 1)
        } else {
            plain(TokenType::Greater, next)
        }
    } else if c == '/' {
        if next < s.len() && s[next] == '/' {
            skip(line_end(s, next + 1))
        } else {
            plain(TokenType::Slash, next)
        }
    } else if c == ' ' || c == '\r' || c == '\t' || c == '\n' {
        skip(next)
    } else if c == '"' {
        let close: int = quote_at(s, next);
        if close < s.len() {
            Step { end: close + 1, class: Some(Class::Text), error: None }
        } else {
            failure(s, ScanErrorKind::UnterminatedString, pos, close)
        }
    } else if digit(c) {
        Step { end: number_end(s, pos), class: Some(Class::Numeral), error: None }
    } else if letter(c) {
        let end: int = word_end(s, pos);
        match keyword(s.subrange(pos, end)) {
            Some(kind) => plain(kind, end),
            None => plain(TokenType::Identifier, end),
        }
    } else {
        failure(s, ScanErrorKind::UnexpectedCharacter, pos, next)
    }
}

/// A run ends at or after its start, and within the text.
pub proof fn lemma_runs(s: Seq<char>, from: int)
    requires
        0 <= from <= s.len(),
    ensures
        from <= digits_end(s, from) <= s.len(),
        from <= word_end(s, from) <= s.len(),
        from <= line_end(s, from) <= s.len(),
        from <= quote_at(s, from) <= s.len(),
    decreases s.len() - from,
{
    if from < s.len() {
        lemma_runs(s, from + 1);
    }
}

/// Every step moves on, and stays within the text.
pub proof fn lemma_step_advances(s: Seq<char>, pos: int)
    requires
        0 <= pos < s.len(),
    ensures
        pos < lex_at(s, pos).end <= s.len(),
{
    lemma_runs(s, pos);
    lemma_runs(s, pos + 1);
    if pos + 2 <= s.len() {
        lemma_runs(s, pos + 2);
    }
    let whole: int = digits_end(s, pos);
    if whole + 1 < s.len() {
        lemma_runs(s, whole + 1);
    }
}

/// There are no more newlines before an index than characters.
pub proof fn lemma_newlines_bound(s: Seq<char>, pos: int)
    ensures
        0 <= newlines(s, pos),
        pos >= 0 ==> newlines(s, pos) <= pos,
    decreases pos,
{
    if 0 < pos <= s.len() {
        lemma_newlines_bound(s, pos - 1);
    }
}

/// The lexemes of the text from the index `pos` on, in order, and after
/// them the end of the input.
pub open spec fn lexemes_from(s: Seq<char>, pos: int) -> Seq<Lexeme>
    decreases s.len() - pos,
{
    if 0 <= pos < s.len() {
        let step = lex_at(s, pos);
        proof {
            lemma_step_advances(s, pos);
        }
        (match step.class {
            Some(class) => seq![Lexeme { class, start: pos, end: step.end }],
            None => Seq::<Lexeme>::empty(),
        }) + lexemes_from(s, step.end)
    } else {
        seq![
            Lexeme {
                class: Class::Plain(TokenType::Eof),
                start: s.len() as int,
                end: s.len() as int,
            },
        ]
    }
}

/// The failures of a scan of the text from the index `pos` on, in order.
pub open spec fn errors_from(s: Seq<char>, pos: int) -> Seq<ScanError>
    decreases s.len() - pos,
{
    if 0 <= pos < s.len() {
        let step = lex_at(s, pos);
        proof {
            lemma_step_advances(s, pos);
        }
        (match step.error {
            Some(error) => seq![error],
            None => Seq::<ScanError>::empty(),
        }) + errors_from(s, step.end)
    } else {
        Seq::<ScanError>::empty()
    }
}

/// `literal` is what `decode` may make of the text `digits`.
pub open spec fn decoded<D: Fn(&str) -> Number>(
    decode: D,
    digits: Seq<char>,
    literal: Number,
) -> bool {
    exists|text: &str| text@ == digits && #[trigger] decode.ensures((text,), literal)
}

/// `token` is a token for `lexeme`: it carries the lexeme's text and the line
/// on which the lexeme ends, and its kind is the lexeme's. A string literal
/// carries the text between its quotes, a number literal what `decode` may
/// make of its text.
pub open spec fn agrees<D: Fn(&str) -> Number>(
    s: Seq<char>,
    decode: D,
    token: Token,
    lexeme: Lexeme,
) -> bool {
    &&& token.lexeme@ == s.subrange(lexeme.start, lexeme.end)
    &&& token.line == line_at(s, lexeme.end)
    &&& match lexeme.class {
        Class::Plain(kind) => token.type_ == kind,
        Class::Text => token.type_ matches TokenType::STRING { literal } && literal@
            == s.subrange(lexeme.start + 1, lexeme.end - 1),
        Class::Numeral => token.type_ matches TokenType::Number { literal } && decoded(
            decode,
            token.lexeme@,
            literal,
        ),
    }
}

/// `tokens` are tokens for `lexemes`, one for one.
pub open spec fn all_agree<D: Fn(&str) -> Number>(
    s: Seq<char>,
    decode: D,
    tokens: Seq<Token>,
    lexemes: Seq<Lexeme>,
) -> bool {
    &&& tokens.len() == lexemes.len()
    &&& forall|i: int| 0 <= i < tokens.len() ==> agrees(s, decode, #[trigger] tokens[i], lexemes[i])
}

/// No step yields the end of the input as a lexeme.
pub proof fn lemma_step_is_no_end(s: Seq<char>, pos: int)
    requires
        0 <= pos < s.len(),
    ensures
        lex_at(s, pos).class != Some(Class::Plain(TokenType::Eof)),
{
}

/// A string literal that the text ends in is one failure, reported on the
/// line where the literal starts, and no token: after it comes the end of
/// the input and nothing else.
pub proof fn lemma_unterminated_string(s: Seq<char>, pos: int)
    requires
        0 <= pos < s.len(),
        s[pos] == '"',
        quote_at(s, pos + 1) == s.len(),
    ensures
        lex_at(s, pos) == failure(s, ScanErrorKind::UnterminatedString, pos, s.len() as int),
        lexemes_from(s, pos) == seq![
            Lexeme {
                class: Class::Plain(TokenType::Eof),
                start: s.len() as int,
                end: s.len() as int,
            },
        ],
        errors_from(s, pos) == seq![
            ScanError { kind: ScanErrorKind::UnterminatedString, line: line_at(s, pos) as usize },
        ],
{
    let end: int = s.len() as int;
    assert(lexemes_from(s, end) =~= seq![
        Lexeme { class: Class::Plain(TokenType::Eof), start: end, end },
    ]);
    assert(errors_from(s, end) =~= Seq::<ScanError>::empty());
    assert(lexemes_from(s, pos) =~= Seq::<Lexeme>::empty() + lexemes_from(s, end));
    assert(errors_from(s, pos) =~= seq![
        ScanError { kind: ScanErrorKind::UnterminatedString, line: line_at(s, pos) as usize },
    ] + errors_from(s, end));
}

/// The lexemes of a text end in the end of the input, and it is the only
/// one among them.
pub proof fn lemma_one_end_of_input(s: Seq<char>, pos: int)
    requires
        0 <= pos <= s.len(),
    ensures
        lexemes_from(s, pos).len() > 0,
        lexemes_from(s, pos).last() == (Lexeme {
            class: Class::Plain(TokenType::Eof),
            start: s.len() as int,
            end: s.len() as int,
        }),
        forall|i: int|
            0 <= i < lexemes_from(s, pos).len() - 1 ==> (#[trigger] lexemes_from(s, pos)[i]).class
                != Class::Plain(TokenType::Eof),
    decreases s.len() - pos,
{
    if pos < s.len() {
        let step = lex_at(s, pos);
        lemma_step_advances(s, pos);
        lemma_step_is_no_end(s, pos);
        lemma_one_end_of_input(s, step.end);
    }
}

/// The lexemes of a text stand in it in order, none overlapping the next,
/// and each but the end of the input spans one character at least.
pub proof fn lemma_lexemes_in_order(s: Seq<char>, pos: int)
    requires
        0 <= pos <= s.len(),
    ensures
        forall|i: int|
            0 <= i < lexemes_from(s, pos).len() ==> pos <= (#[trigger] lexemes_from(
                s,
                pos,
            )[i]).start <= lexemes_from(s, pos)[i].end <= s.len(),
        forall|i: int|
            0 <= i < lexemes_from(s, pos).len() - 1 ==> (#[trigger] lexemes_from(s, pos)[i]).start
                < lexemes_from(s, pos)[i].end <= lexemes_from(s, pos)[i + 1].start,
    decreases s.len() - pos,
{
    if pos < s.len() {
        let step = lex_at(s, pos);
        lemma_step_advances(s, pos);
        lemma_lexemes_in_order(s, step.end);
        lemma_one_end_of_input(s, step.end);
    }
}

/// Tokens for the lexemes of a text end in the end of the input.
pub proof fn lemma_tokens_terminated<D: Fn(&str) -> Number>(
    s: Seq<char>,
    decode: D,
    tokens: Seq<Token>,
)
    requires
        all_agree(s, decode, tokens, lexemes_from(s, 0)),
    ensures
        tokens.len() > 0,
        tokens.last().type_ is Eof,
        forall|i: int| 0 <= i < tokens.len() - 1 ==> !((#[trigger] tokens[i]).type_ is Eof),
{
    lemma_one_end_of_input(s, 0);
    let lexemes = lexemes_from(s, 0);
    assert forall|i: int| 0 <= i < tokens.len() - 1 implies !((#[trigger] tokens[i]).type_
        is Eof) by {
        assert(agrees(s, decode, tokens[i], lexemes[i]));
        assert(lexemes[i].class != Class::Plain(TokenType::Eof));
    }
    assert(agrees(s, decode, tokens[tokens.len() - 1], lexemes[tokens.len() - 1]));
}

/// Whether the characters spell the word.
fn spells(chars: &Vec<char>, word: &str) -> (r: bool)
    ensures
        r == (chars@ == word@),
{
    let w = chars_of(word);
    if w.len() != chars.len() {
        return false;
    }
    let mut i: usize = 0;
    while i < w.len()
        invariant
            0 <= i <= w@.len(),
            w@.len() == chars@.len(),
            w@ == word@,
            forall|k: int| 0 <= k < i ==> chars@[k] == w@[k],
        decreases w@.len() - i,
    {
        if chars[i] != w[i] {
            return false;
        }
        i += 1;
    }
    proof {
        assert(chars@ =~= w@);
    }
    true
}

/// The keyword that the text spells, if it spells one.
pub fn keyword_get(text: &str) -> (r: Option<TokenType>)
    ensures
        r == keyword(text@),
{
    let chars = chars_of(text);
    if spells(&chars, "and") {
        Some(TokenType::And)
    } else if spells(&chars, "class") {
        Some(TokenType::Class)
    } else if spells(&chars, "else") {
        Some(TokenType::Else)
    } else if spells(&chars, "false") {
        Some(TokenType::False)
    } else if spells(&chars, "for") {
        Some(TokenType::For)
    } else if spells(&chars, "fun") {
        Some(TokenType::Fun)
    } else if spells(&chars, "if") {
        Some(TokenType::If)
    } else if spells(&chars, "nil") {
        Some(TokenType::Nil)
    } else if spells(&chars, "or") {
        Some(TokenType::Or)
    } else if spells(&chars, "print") {
        Some(TokenType::Print)
    } else if spells(&chars, "return") {
        Some(TokenType::Return)
    } else if spells(&chars, "super") {
        Some(TokenType::Super)
    } else if spells(&chars, "this") {
        Some(TokenType::This)
    } else if spells(&chars, "true") {
        Some(TokenType::True)
    } else if spells(&chars, "var") {
        Some(TokenType::Var)
    } else if spells(&chars, "while") {
        Some(TokenType::While)
    } else {
        None
    }
}

/// A scanner over one text.
pub struct Scanner {
    source: String,
    chars: Vec<char>,
    tokens: Vec<Token>,
    errors: Vec<ScanError>,
    start: usize,
    current: usize,
    line: usize,
}

impl Scanner {
    /// The text that is scanned.
    pub closed spec fn text(self) -> Seq<char> {
        self.source@
    }

    /// The failures of the last scan, in the order in which they arose.
    pub closed spec fn failures(self) -> Seq<ScanError> {
        self.errors@
    }

    /// The scanner holds the characters of its text, and its two cursors
    /// stand within it.
    pub closed spec fn wf(self) -> bool {
        &&& self.chars@ == self.source@
        &&& self.chars@.len() < usize::MAX
        &&& self.start <= self.current <= self.chars@.len()
    }

    /// Nothing but the cursor `current` and the line differs from `before`.
    spec fn moved_from(self, before: Scanner) -> bool {
        &&& self.wf()
        &&& self.source == before.source
        &&& self.chars == before.chars
        &&& self.tokens == before.tokens
        &&& self.errors == before.errors
        &&& self.start == before.start
    }

    /// The scanner has taken the step at `before.start`, and the line it
    /// counts is that of its cursor.
    spec fn stepped<D: Fn(&str) -> Number>(self, before: Scanner, decode: D) -> bool {
        let s = before.source@;
        let step = lex_at(s, before.start as int);
        &&& self.wf()
        &&& self.source == before.source
        &&& self.chars == before.chars
        &&& self.current == step.end
        &&& self.line == line_at(s, step.end)
        &&& match step.class {
            Some(class) => self.tokens@.len() == before.tokens@.len() + 1
                && self.tokens@.drop_last() == before.tokens@ && agrees(
                s,
                decode,
                self.tokens@.last(),
                Lexeme { class, start: before.start as int, end: step.end },
            ),
            None => self.tokens@ == before.tokens@,
        }
        &&& self.errors@ == before.errors@ + (match step.error {
            Some(error) => seq![error],
            None => Seq::<ScanError>::empty(),
        })
    }

    /// A scanner over `source`.
    pub fn new(source: String) -> (r: Scanner)
        requires
            source@.len() < usize::MAX,
        ensures
            r.wf(),
            r.text() == source@,
            r.failures() == Seq::<ScanError>::empty(),
    {
        let chars = chars_of(source.as_str());
        Scanner {
            source,
            chars,
            tokens: Vec::new(),
            errors: Vec::new(),
            start: 0,
            current: 0,
            line: 1,
        }
    }

    /// The failures of the last scan.
    pub fn errors(&self) -> (r: &Vec<ScanError>)
        ensures
            r@ == self.failures(),
    {
        &self.errors
    }

    /// Hands out the failures of the last scan and forgets them.
    pub fn take_errors(&mut self) -> (r: Vec<ScanError>)
        requires
            old(self).wf(),
        ensures
            final(self).wf(),
            final(self).text() == old(self).text(),
            r@ == old(self).failures(),
            final(self).failures() == Seq::<ScanError>::empty(),
    {
        let mut taken: Vec<ScanError> = Vec::new();
        core::mem::swap(&mut self.errors, &mut taken);
        taken
    }

    /// Scans the text from its beginning. The tokens are those of the
    /// lexemes of the text, in order; the last of them is the end of the
    /// input, and no other is. The failures of the scan are kept, see
    /// `errors`.
    pub fn scan_tokens<D: Fn(&str) -> Number>(&mut self, decode: &D) -> (r: Vec<Token>)
        requires
            old(self).wf(),
            forall|text: &str| #[trigger] decode.requires((text,)),
        ensures
            final(self).wf(),
            final(self).text() == old(self).text(),
            all_agree(old(self).text(), *decode, r@, lexemes_from(old(self).text(), 0)),
            final(self).failures() == errors_from(old(self).text(), 0),
            r@.len() > 0,
            r@.last().type_ is Eof,
            forall|i: int| 0 <= i < r@.len() - 1 ==> !((#[trigger] r@[i]).type_ is Eof),
    {
        self.tokens = Vec::new();
        self.errors = Vec::new();
        self.start = 0;
        self.current = 0;
        self.line = 1;
        let ghost s = self.source@;
        let ghost done: Seq<Lexeme> = Seq::empty();
        proof {
            assert(done + lexemes_from(s, 0) =~= lexemes_from(s, 0));
            assert(self.errors@ + errors_from(s, 0) =~= errors_from(s, 0));
        }
        while !self.is_at_end()
            invariant
                self.wf(),
                self.source == old(self).source,
                s == self.source@,
                self.line == line_at(s, self.current as int),
                all_agree(s, *decode, self.tokens@, done),
                done + lexemes_from(s, self.current as int) == lexemes_from(s, 0),
                self.errors@ + errors_from(s, self.current as int) == errors_from(s, 0),
                forall|text: &str| #[trigger] decode.requires((text,)),
            decreases self.chars@.len() - self.current,
        {
            self.start = self.current;
            let ghost before = *self;
            proof {
                lemma_step_advances(s, self.current as int);
            }
            self.scan_token(decode);
            proof {
                let step = lex_at(s, before.start as int);
                let found = match step.class {
                    Some(class) => seq![
                        Lexeme { class, start: before.start as int, end: step.end },
                    ],
                    None => Seq::<Lexeme>::empty(),
                };
                let failed = match step.error {
                    Some(error) => seq![error],
                    None => Seq::<ScanError>::empty(),
                };
                assert(lexemes_from(s, before.start as int) == found + lexemes_from(s, step.end));
                assert(errors_from(s, before.start as int) == failed + errors_from(s, step.end));
                assert((done + found) + lexemes_from(s, step.end) =~= done + (found + lexemes_from(
                    s,
                    step.end,
                )));
                assert((before.errors@ + failed) + errors_from(s, step.end) =~= before.errors@ + (
                failed + errors_from(s, step.end)));
                if step.class is Some {
                    assert(self.tokens@ =~= before.tokens@.push(self.tokens@.last()));
                }
                done = done + found;
            }
        }
        let lexeme: String = "".to_owned();
        proof {
            reveal_strlit("");
            assert(lexeme@ =~= s.subrange(s.len() as int, s.len() as int));
            done = done.push(
                Lexeme {
                    class: Class::Plain(TokenType::Eof),
                    start: s.len() as int,
                    end: s.len() as int,
                },
            );
        }
        self.tokens.push(Token { type_: TokenType::Eof, lexeme, line: self.line });
        let mut out: Vec<Token> = Vec::new();
        core::mem::swap(&mut self.tokens, &mut out);
        proof {
            lemma_tokens_terminated(s, *decode, out@);
        }
        out
    }

    fn is_at_end(&self) -> (r: bool)
        requires
            self.wf(),
        ensures
            r == (self.current >= self.chars@.len()),
    {
        self.current >= self.chars.len()
    }

    fn scan_token<D: Fn(&str) -> Number>(&mut self, decode: &D)
        requires
            old(self).wf(),
            old(self).start == old(self).current,
            old(self).current < old(self).chars@.len(),
            old(self).line == line_at(old(self).source@, old(self).current as int),
            forall|text: &str| #[trigger] decode.requires((text,)),
        ensures
            final(self).stepped(*old(self), *decode),
    {
        let ghost s = self.source@;
        let ghost pos = self.current as int;
        proof {
            lemma_newlines_bound(s, pos);
            lemma_newlines_bound(s, pos + 1);
            lemma_runs(s, pos + 1);
        }
        let c: char = self.advance();
        match c {
            '(' => self.add_token(TokenType::LeftParen),
            ')' => self.add_token(TokenType::RightParen),
            '{' => self.add_token(TokenType::LeftBrace),
            '}' => self.add_token(TokenType::RightBrace),
            ',' => self.add_token(TokenType::Comma),
            '.' => self.add_token(TokenType::Dot),
            '-' => self.add_token(TokenType::Minus),
            '+' => self.add_token(TokenType::Plus),
            ';' => self.add_token(TokenType::Semicolon),
            '*' => self.add_token(TokenType::Star),
            '!' => if self.match_('=') {
                self.add_token(TokenType::BangEqual)
            } else {
                self.add_token(TokenType::Bang)
            },
            '=' => if self.match_('=') {
                self.add_token(TokenType::EqualEqual)
            } else {
                self.add_token(TokenType::Equal)
            },
            '<' => if self.match_('=') {
                self.add_token(TokenType::LessEqual)
            } else {
                self.add_token(TokenType::Less)
            },
            '>' => if self.match_('=') {
                self.add_token(TokenType::GreaterEqual)
            } else {
                self.add_token(TokenType::Greater)
            },
            '/' => {
                if self.match_('/') {
                    while self.peek() != '\n' && !self.is_at_end()
                        invariant
                            self.moved_from(*old(self)),
                            s == self.source@,
                            pos + 2 <= self.current <= s.len(),
                            line_end(s, pos + 2) == line_end(s, self.current as int),
                            self.line == line_at(s, self.current as int),
                        decreases s.len() - self.current,
                    {
                        self.advance();
                    }
                } else {
                    self.add_token(TokenType::Slash)
                }
            },
            ' ' | '\r' | '\t' => {},
            '\n' => {
                self.line += 1;
            },
            '"' => self.string(),
            _ => {
                if Scanner::is_digit(c) {
                    self.number(decode)
                } else if Scanner::is_alpha(c) {
                    self.identifier()
                } else {
                    self.errors.push(
                        ScanError { kind: ScanErrorKind::UnexpectedCharacter, line: self.line },
                    );
                }
            },
        }
        proof {
            assert(self.errors@ =~= old(self).errors@ + (match lex_at(s, pos).error {
                Some(error) => seq![error],
                None => Seq::<ScanError>::empty(),
            }));
        }
    }

    fn cur(&self) -> (r: Option<char>)
        requires
            self.wf(),
        ensures
            r == (if self.current < self.chars@.len() {
                Some(self.chars@[self.current as int])
            } else {
                None
            }),
    {
        if self.current < self.chars.len() {
            Some(self.chars[self.current])
        } else {
            None
        }
    }

    fn peek(&self) -> (r: char)
        requires
            self.wf(),
        ensures
            r == (if self.current < self.chars@.len() {
                self.chars@[self.current as int]
            } else {
                '\0'
            }),
    {
        match self.cur() {
            Some(c) => c,
            None => '\0',
        }
    }

    fn peek_next(&self) -> (r: Option<char>)
        requires
            self.wf(),
        ensures
            r == (if self.current + 1 < self.chars@.len() {
                Some(self.chars@[self.current + 1])
            } else {
                None
            }),
    {
        if self.current + 1 < self.chars.len() {
            Some(self.chars[self.current + 1])
        } else {
            None
        }
    }

    fn match_(&mut self, expected: char) -> (r: bool)
        requires
            old(self).wf(),
        ensures
            final(self).moved_from(*old(self)),
            final(self).line == old(self).line,
            r == (old(self).current < old(self).chars@.len()
                && old(self).chars@[old(self).current as int] == expected),
            final(self).current == (if r {
                old(self).current + 1
            } else {
                old(self).current as int
            }),
    {
        if self.is_at_end() {
            return false;
        }
        if self.chars[self.current] != expected {
            return false;
        }
        self.current += 1;
        true
    }

    fn advance(&mut self) -> (r: char)
        requires
            old(self).wf(),
            old(self).current < old(self).chars@.len(),
        ensures
            final(self).moved_from(*old(self)),
            final(self).line == old(self).line,
            final(self).current == old(self).current + 1,
            r == old(self).chars@[old(self).current as int],
    {
        self.current += 1;
        self.chars[self.current - 1]
    }

    fn current_substring(&self) -> (r: String)
        requires
            self.wf(),
        ensures
            r@ == self.source@.subrange(self.start as int, self.current as int),
    {
        self.source.as_str().substring_char(self.start, self.current).to_owned()
    }

    fn add_token(&mut self, type_: TokenType)
        requires
            old(self).wf(),
        ensures
            final(self).wf(),
            final(self).source == old(self).source,
            final(self).chars == old(self).chars,
            final(self).errors == old(self).errors,
            final(self).start == old(self).start,
            final(self).current == old(self).current,
            final(self).line == old(self).line,
            final(self).tokens@.len() == old(self).tokens@.len() + 1,
            final(self).tokens@.drop_last() == old(self).tokens@,
            final(self).tokens@.last().type_ == type_,
            final(self).tokens@.last().lexeme@ == old(self).source@.subrange(
                old(self).start as int,
                old(self).current as int,
            ),
            final(self).tokens@.last().line == old(self).line,
    {
        let lexeme = self.current_substring();
        self.tokens.push(Token { type_, lexeme, line: self.line });
        proof {
            assert(self.tokens@.drop_last() =~= old(self).tokens@);
        }
    }

    fn is_digit(c: char) -> (r: bool)
        ensures
            r == digit(c),
    {
        c >= '0' && c <= '9'
    }

    fn is_alpha(c: char) -> (r: bool)
        ensures
            r == letter(c),
    {
        (c >= 'a' && c <= 'z') || (c >= 'A' && c <= 'Z') || c == '_'
    }

    fn is_alphanumeric(c: char) -> (r: bool)
        ensures
            r == word_char(c),
    {
        Scanner::is_digit(c) || Scanner::is_alpha(c)
    }

    fn identifier(&mut self)
        requires
            old(self).wf(),
            old(self).current == old(self).start + 1,
            letter(old(self).source@[old(self).start as int]),
            old(self).line == line_at(old(self).source@, old(self).current as int),
        ensures
            final(self).wf(),
            final(self).source == old(self).source,
            final(self).chars == old(self).chars,
            final(self).errors == old(self).errors,
            final(self).current == word_end(old(self).source@, old(self).start as int),
            final(self).line == line_at(old(self).source@, final(self).current as int),
            final(self).tokens@.len() == old(self).tokens@.len() + 1,
            final(self).tokens@.drop_last() == old(self).tokens@,
            final(self).tokens@.last().type_ == (match keyword(
                old(self).source@.subrange(old(self).start as int, final(self).current as int),
            ) {
                Some(kind) => kind,
                None => TokenType::Identifier,
            }),
            final(self).tokens@.last().lexeme@ == old(self).source@.subrange(
                old(self).start as int,
                final(self).current as int,
            ),
            final(self).tokens@.last().line == final(self).line,
    {
        let ghost s = self.source@;
        while Scanner::is_alphanumeric(self.peek())
            invariant
                self.moved_from(*old(self)),
                s == self.source@,
                self.start < self.current <= s.len(),
                word_end(s, self.start as int) == word_end(s, self.current as int),
                self.line == line_at(s, self.current as int),
            decreases s.len() - self.current,
        {
            self.advance();
        }
        let text = self.current_substring();
        let type_ = match keyword_get(text.as_str()) {
            Some(kind) => kind,
            None => TokenType::Identifier,
        };
        self.add_token(type_);
    }

    fn string(&mut self)
        requires
            old(self).wf(),
            old(self).current == old(self).start + 1,
            old(self).line == line_at(old(self).source@, old(self).current as int),
        ensures
            final(self).wf(),
            final(self).source == old(self).source,
            final(self).chars == old(self).chars,
            final(self).line == line_at(old(self).source@, final(self).current as int),
            ({
                let s = old(self).source@;
                let close: int = quote_at(s, old(self).current as int);
                if close < s.len() {
                    &&& final(self).current == close + 1
                    &&& final(self).errors == old(self).errors
                    &&& final(self).tokens@.len() == old(self).tokens@.len() + 1
                    &&& final(self).tokens@.drop_last() == old(self).tokens@
                    &&& final(self).tokens@.last().type_ matches TokenType::STRING { literal }
                        && literal@ == s.subrange(old(self).start + 1, close)
                    &&& final(self).tokens@.last().lexeme@ == s.subrange(
                        old(self).start as int,
                        close + 1,
                    )
                    &&& final(self).tokens@.last().line == final(self).line
                } else {
                    &&& final(self).current == s.len()
                    &&& final(self).tokens == old(self).tokens
                    &&& final(self).errors@ == old(self).errors@.push(
                        ScanError { kind: ScanErrorKind::UnterminatedString, line: old(self).line },
                    )
                }
            }),
    {
        let ghost s = self.source@;
        let started: usize = self.line;
        while self.peek() != '"' && !self.is_at_end()
            invariant
                self.wf(),
                self.source == old(self).source,
                self.chars == old(self).chars,
                self.tokens == old(self).tokens,
                self.errors == old(self).errors,
                self.start == old(self).start,
                s == self.source@,
                self.start < self.current <= s.len(),
                quote_at(s, old(self).current as int) == quote_at(s, self.current as int),
                self.line == line_at(s, self.current as int),
            decreases s.len() - self.current,
        {
            proof {
                lemma_newlines_bound(s, self.current + 1);
            }
            if self.peek() == '\n' {
                self.line += 1;
            }
            self.advance();
        }
        if self.is_at_end() {
            self.errors.push(ScanError { kind: ScanErrorKind::UnterminatedString, line: started });
            return ;
        }
        self.advance();
        let literal: String = self.source.as_str().substring_char(
            self.start + 1,
            self.current - 1,
        ).to_owned();
        self.add_token(TokenType::STRING { literal })
    }

    fn number<D: Fn(&str) -> Number>(&mut self, decode: &D)
        requires
            old(self).wf(),
            old(self).current == old(self).start + 1,
            digit(old(self).source@[old(self).start as int]),
            old(self).line == line_at(old(self).source@, old(self).current as int),
            forall|text: &str| #[trigger] decode.requires((text,)),
        ensures
            final(self).wf(),
            final(self).source == old(self).source,
            final(self).chars == old(self).chars,
            final(self).errors == old(self).errors,
            final(self).current == number_end(old(self).source@, old(self).start as int),
            final(self).line == line_at(old(self).source@, final(self).current as int),
            final(self).tokens@.len() == old(self).tokens@.len() + 1,
            final(self).tokens@.drop_last() == old(self).tokens@,
            agrees(
                old(self).source@,
                *decode,
                final(self).tokens@.last(),
                Lexeme {
                    class: Class::Numeral,
                    start: old(self).start as int,
                    end: final(self).current as int,
                },
            ),
    {
        let ghost s = self.source@;
        while Scanner::is_digit(self.peek())
            invariant
                self.moved_from(*old(self)),
                s == self.source@,
                self.start < self.current <= s.len(),
                digits_end(s, self.start as int) == digits_end(s, self.current as int),
                self.line == line_at(s, self.current as int),
            decreases s.len() - self.current,
        {
            self.advance();
        }
        let fraction = self.peek() == '.' && match self.peek_next() {
            Some(d) => Scanner::is_digit(d),
            None => false,
        };
        if fraction {
            self.advance();
            while Scanner::is_digit(self.peek())
                invariant
                    self.moved_from(*old(self)),
                    s == self.source@,
                    self.start < self.current <= s.len(),
                    number_end(s, self.start as int) == digits_end(s, self.current as int),
                    self.line == line_at(s, self.current as int),
                decreases s.len() - self.current,
            {
                self.advance();
            }
        }
        let text = self.current_substring();
        let digits: &str = text.as_str();
        let literal: Number = decode(digits);
        self.add_token(TokenType::Number { literal });
        proof {
            assert(digits@ == text@ && (*decode).ensures((digits,), literal));
            assert(decoded(*decode, self.tokens@.last().lexeme@, literal));
        }
    }
}

} // verus!
