//! Tokens of the Tenuto language and the scanner that produces them.

use vstd::prelude::*;
use crate::text::{decimal_upto, from_chars, is_digit, char_is_digit, parse_decimal, to_chars};

verus! {

/// A half-open range `[start, end)` of character positions in the source.
#[derive(Debug, Clone, Copy, PartialEq, Eq, Hash, Structural)]
pub struct Span {
    pub start: usize,
    pub end: usize,
}

impl DeepView for Span {
    type V = Span;

    open spec fn deep_view(&self) -> Span {
        *self
    }
}

/// One lexical unit of the language.
#[derive(Debug, PartialEq, Eq, Clone, Hash)]
pub enum Token {
    KwTenuto,
    KwMeta,
    KwDef,
    KwMeasure,
    KwGroup,
    KwImport,
    KwMacro,
    KwVar,
    KwIf,
    KwElse,
    LBrace,
    RBrace,
    LBracket,
    RBracket,
    LParen,
    RParen,
    Colon,
    Pipe,
    Tilde,
    Equals,
    Comma,
    Dot,
    Dollar,
    Star,
    Plus,
    Minus,
    /// `/`, which separates the two numbers of a tuplet ratio.
    Slash,
    /// `|:`
    RepeatStart,
    /// `:|`
    RepeatEnd,
    /// `:|:`
    RepeatDouble,
    /// `||`
    DoubleBar,
    /// `|]`
    FinalBar,
    Integer(i64),
    /// A number with a fractional part, kept as written.
    Float(String),
    /// A string literal without its quotes.
    StringLit(String),
    /// `:N` followed by any number of dots.
    DurationLit(String),
    /// `N-N`, a fret and a string.
    TabLit(String),
    /// A step letter with an optional accidental and an optional octave digit.
    PitchLit(String),
    Identifier(String),
    /// Stands for text that is no token, such as a `//` comment.
    InvalidComment,
}

/// The mathematical value of a [`Token`].
pub enum TokenView {
    KwTenuto,
    KwMeta,
    KwDef,
    KwMeasure,
    KwGroup,
    KwImport,
    KwMacro,
    KwVar,
    KwIf,
    KwElse,
    LBrace,
    RBrace,
    LBracket,
    RBracket,
    LParen,
    RParen,
    Colon,
    Pipe,
    Tilde,
    Equals,
    Comma,
    Dot,
    Dollar,
    Star,
    Plus,
    Minus,
    Slash,
    RepeatStart,
    RepeatEnd,
    RepeatDouble,
    DoubleBar,
    FinalBar,
    Integer(i64),
    Float(Seq<char>),
    StringLit(Seq<char>),
    DurationLit(Seq<char>),
    TabLit(Seq<char>),
    PitchLit(Seq<char>),
    Identifier(Seq<char>),
    InvalidComment,
}

impl DeepView for Token {
    type V = TokenView;

    open spec fn deep_view(&self) -> TokenView {
        match self {
            Token::KwTenuto => TokenView::KwTenuto,
            Token::KwMeta => TokenView::KwMeta,
            Token::KwDef => TokenView::KwDef,
            Token::KwMeasure => TokenView::KwMeasure,
            Token::KwGroup => TokenView::KwGroup,
            Token::KwImport => TokenView::KwImport,
            Token::KwMacro => TokenView::KwMacro,
            Token::KwVar => TokenView::KwVar,
            Token::KwIf => TokenView::KwIf,
            Token::KwElse => TokenView::KwElse,
            Token::LBrace => TokenView::LBrace,
            Token::RBrace => TokenView::RBrace,
            Token::LBracket => TokenView::LBracket,
            Token::RBracket => TokenView::RBracket,
            Token::LParen => TokenView::LParen,
            Token::RParen => TokenView::RParen,
            Token::Colon => TokenView::Colon,
            Token::Pipe => TokenView::Pipe,
            Token::Tilde => TokenView::Tilde,
            Token::Equals => TokenView::Equals,
            Token::Comma => TokenView::Comma,
            Token::Dot => TokenView::Dot,
            Token::Dollar => TokenView::Dollar,
            Token::Star => TokenView::Star,
            Token::Plus => TokenView::Plus,
            Token::Minus => TokenView::Minus,
            Token::Slash => TokenView::Slash,
            Token::RepeatStart => TokenView::RepeatStart,
            Token::RepeatEnd => TokenView::RepeatEnd,
            Token::RepeatDouble => TokenView::RepeatDouble,
            Token::DoubleBar => TokenView::DoubleBar,
            Token::FinalBar => TokenView::FinalBar,
            Token::Integer(n) => TokenView::Integer(*n),
            Token::Float(s) => TokenView::Float(s@),
            Token::StringLit(s) => TokenView::StringLit(s@),
            Token::DurationLit(s) => TokenView::DurationLit(s@),
            Token::TabLit(s) => TokenView::TabLit(s@),
            Token::PitchLit(s) => TokenView::PitchLit(s@),
            Token::Identifier(s) => TokenView::Identifier(s@),
            Token::InvalidComment => TokenView::InvalidComment,
        }
    }
}

/// A set of characters that a run can be made of.
#[derive(Debug, Clone, Copy, PartialEq, Eq, Structural)]
pub enum CharClass {
    /// `[0-9]`
    Digit,
    /// `[a-zA-Z0-9_]`
    Word,
    /// `.`
    Dot,
    /// Anything but a line feed.
    Line,
}

/// `[a-zA-Z]`
pub open spec fn is_letter(c: char) -> bool {
    ('a' <= c <= 'z') || ('A' <= c <= 'Z')
}

/// Space, tab, carriage return, line feed or form feed.
pub open spec fn is_blank(c: char) -> bool {
    c == ' ' || c == '\t' || c == '\r' || c == '\n' || c == '\x0c'
}

/// Whether `c` belongs to the class.
pub open spec fn in_class(k: CharClass, c: char) -> bool {
    match k {
        CharClass::Digit => is_digit(c),
        CharClass::Word => is_letter(c) || is_digit(c) || c == '_',
        CharClass::Dot => c == '.',
        CharClass::Line => c != '\n',
    }
}

/// The end of the longest run of characters of class `k` that starts at `i`.
pub open spec fn run_end(s: Seq<char>, i: int, k: CharClass) -> int
    decreases s.len() - i,
{
    if 0 <= i < s.len() && in_class(k, s[i]) {
        run_end(s, i + 1, k)
    } else {
        i
    }
}

/// The code point of `c`, that of the lower-case letter for an ASCII
/// capital.
pub open spec fn fold_code(c: char) -> u32 {
    if 'A' <= c <= 'Z' {
        (c as u32 + 32) as u32
    } else {
        c as u32
    }
}

/// Whether `s` holds at `i`, in either case, the letters of the lower-case
/// word `w`.
pub open spec fn holds_word(s: Seq<char>, i: int, w: Seq<char>) -> bool {
    0 <= i && i + w.len() <= s.len() && forall|j: int|
        i <= j < i + w.len() ==> fold_code(#[trigger] s[j]) == w[j - i] as u32
}

/// The keyword that `word` spells, in either case.
pub open spec fn keyword_of(word: Seq<char>) -> Option<TokenView> {
    if word.len() == "tenuto"@.len() && holds_word(word, 0, "tenuto"@) {
        Some(TokenView::KwTenuto)
    } else if word.len() == "meta"@.len() && holds_word(word, 0, "meta"@) {
        Some(TokenView::KwMeta)
    } else if word.len() == "def"@.len() && holds_word(word, 0, "def"@) {
        Some(TokenView::KwDef)
    } else if word.len() == "measure"@.len() && holds_word(word, 0, "measure"@) {
        Some(TokenView::KwMeasure)
    } else if word.len() == "group"@.len() && holds_word(word, 0, "group"@) {
        Some(TokenView::KwGroup)
    } else if word.len() == "import"@.len() && holds_word(word, 0, "import"@) {
        Some(TokenView::KwImport)
    } else if word.len() == "macro"@.len() && holds_word(word, 0, "macro"@) {
        Some(TokenView::KwMacro)
    } else if word.len() == "var"@.len() && holds_word(word, 0, "var"@) {
        Some(TokenView::KwVar)
    } else if word.len() == "if"@.len() && holds_word(word, 0, "if"@) {
        Some(TokenView::KwIf)
    } else if word.len() == "else"@.len() && holds_word(word, 0, "else"@) {
        Some(TokenView::KwElse)
    } else {
        None
    }
}

/// The length of the longest accidental that stands at `i`, in either case:
/// one of `tqs`, `tqf`, `qs`, `qf`, `bb`, `x`, `#`, `b`, `n`, or nothing.
pub open spec fn accidental_len(s: Seq<char>, i: int) -> int {
    if holds_word(s, i, "tqs"@) || holds_word(s, i, "tqf"@) {
        3
    } else if holds_word(s, i, "qs"@) || holds_word(s, i, "qf"@) || holds_word(s, i, "bb"@) {
        2
    } else if holds_word(s, i, "x"@) || holds_word(s, i, "#"@) || holds_word(s, i, "b"@)
        || holds_word(s, i, "n"@) {
        1
    } else {
        0
    }
}

/// Whether `c` is a step letter, `[a-gA-G]`.
pub open spec fn is_step(c: char) -> bool {
    ('a' <= c <= 'g') || ('A' <= c <= 'G')
}

/// The end of the longest pitch literal `[a-g](accidental)?[0-9]?` that
/// starts at `p`, or `p` where none does.
pub open spec fn pitch_end(s: Seq<char>, p: int) -> int {
    if 0 <= p < s.len() && is_step(s[p]) {
        let d = p + 1 + accidental_len(s, p + 1);
        if d < s.len() && is_digit(s[d]) {
            d + 1
        } else {
            d
        }
    } else {
        p
    }
}

/// The token that starts with the letter or underscore at `p`: the longest
/// of keyword, pitch literal and identifier, and among those of one length
/// the first of them.
pub open spec fn word_lexeme(s: Seq<char>, p: int) -> (Result<TokenView, ()>, int) {
    let e = run_end(s, p + 1, CharClass::Word);
    let pe = pitch_end(s, p);
    if pe > e {
        (Ok(TokenView::PitchLit(s.subrange(p, pe))), pe)
    } else {
        match keyword_of(s.subrange(p, e)) {
            Some(k) => (Ok(k), e),
            None => if pe == e {
                (Ok(TokenView::PitchLit(s.subrange(p, e))), e)
            } else {
                (Ok(TokenView::Identifier(s.subrange(p, e))), e)
            },
        }
    }
}

/// The token that starts with the digit at `p`: a float `[0-9]+\.[0-9]+`, a
/// tab coordinate `[0-9]+-[0-9]+`, or else an integer `[0-9]+`, which is an
/// error where it does not fit `i64`.
pub open spec fn number_lexeme(s: Seq<char>, p: int) -> (Result<TokenView, ()>, int) {
    let d = run_end(s, p, CharClass::Digit);
    if d + 1 < s.len() && s[d] == '.' && is_digit(s[d + 1]) {
        let e = run_end(s, d + 1, CharClass::Digit);
        (Ok(TokenView::Float(s.subrange(p, e))), e)
    } else if d + 1 < s.len() && s[d] == '-' && is_digit(s[d + 1]) {
        let e = run_end(s, d + 1, CharClass::Digit);
        (Ok(TokenView::TabLit(s.subrange(p, e))), e)
    } else {
        match decimal_upto(s.subrange(p, d), i64::MAX as nat) {
            Some(n) => (Ok(TokenView::Integer(n as i64)), d),
            None => (Err(()), d),
        }
    }
}

/// Whether a backslash may stand before `c` in a string literal.
pub open spec fn is_escape(c: char) -> bool {
    c == '"' || c == '\\' || c == 'b' || c == 'n' || c == 'f' || c == 'r' || c == 't'
}

/// The position behind the quote that closes the string literal whose body
/// goes on at `i`, if it is closed: the body holds any character but quote
/// and backslash, and backslashes followed by one of `" \ b n f r t`.
pub open spec fn string_end(s: Seq<char>, i: int) -> Option<int>
    decreases s.len() - i,
{
    if i < 0 || i >= s.len() {
        None
    } else if s[i] == '"' {
        Some(i + 1)
    } else if s[i] == '\\' {
        if i + 1 < s.len() && is_escape(s[i + 1]) {
            string_end(s, i + 2)
        } else {
            None
        }
    } else {
        string_end(s, i + 1)
    }
}

/// The token that starts with the quote at `p`: a string literal without its
/// quotes, or an error of one character where the literal is not closed.
pub open spec fn string_lexeme(s: Seq<char>, p: int) -> (Result<TokenView, ()>, int) {
    match string_end(s, p + 1) {
        Some(e) => (Ok(TokenView::StringLit(s.subrange(p + 1, e - 1))), e),
        None => (Err(()), p + 1),
    }
}

/// The token that starts with the colon at `p`: a duration `:[0-9]+\.*`, the
/// repeat signs `:|:` and `:|`, or the colon alone.
pub open spec fn colon_lexeme(s: Seq<char>, p: int) -> (Result<TokenView, ()>, int) {
    if p + 1 < s.len() && is_digit(s[p + 1]) {
        let e = run_end(s, run_end(s, p + 1, CharClass::Digit), CharClass::Dot);
        (Ok(TokenView::DurationLit(s.subrange(p, e))), e)
    } else if p + 1 < s.len() && s[p + 1] == '|' {
        if p + 2 < s.len() && s[p + 2] == ':' {
            (Ok(TokenView::RepeatDouble), p + 3)
        } else {
            (Ok(TokenView::RepeatEnd), p + 2)
        }
    } else {
        (Ok(TokenView::Colon), p + 1)
    }
}

/// The token that starts with the bar at `p`: `|:`, `||`, `|]`, or the bar
/// alone.
pub open spec fn bar_lexeme(s: Seq<char>, p: int) -> (Result<TokenView, ()>, int) {
    if p + 1 < s.len() && s[p + 1] == ':' {
        (Ok(TokenView::RepeatStart), p + 2)
    } else if p + 1 < s.len() && s[p + 1] == '|' {
        (Ok(TokenView::DoubleBar), p + 2)
    } else if p + 1 < s.len() && s[p + 1] == ']' {
        (Ok(TokenView::FinalBar), p + 2)
    } else {
        (Ok(TokenView::Pipe), p + 1)
    }
}

/// The token that starts with the slash at `p`: a `//` comment up to the end
/// of the line, which is not accepted and comes out as `InvalidComment`, or
/// the slash alone.
pub open spec fn slash_lexeme(s: Seq<char>, p: int) -> (Result<TokenView, ()>, int) {
    if p + 1 < s.len() && s[p + 1] == '/' {
        (Ok(TokenView::InvalidComment), run_end(s, p + 2, CharClass::Line))
    } else {
        (Ok(TokenView::Slash), p + 1)
    }
}

/// Wherever two slashes stand, the token there is `InvalidComment`: such a
/// comment is handed out, never skipped.
pub proof fn lemma_line_comment_is_reported(s: Seq<char>, p: int)
    requires
        0 <= p,
        p + 1 < s.len(),
        s[p] == '/',
        s[p + 1] == '/',
    ensures
        lexeme_at(s, p).0 == Ok::<TokenView, ()>(TokenView::InvalidComment),
        blank_end(s, p) == p,
{
}

/// A run ends between its start and the end of the text.
pub proof fn lemma_run_end_bounds(s: Seq<char>, i: int, k: CharClass)
    requires
        0 <= i <= s.len(),
    ensures
        i <= run_end(s, i, k) <= s.len(),
    decreases s.len() - i,
{
    if i < s.len() && in_class(k, s[i]) {
        lemma_run_end_bounds(s, i + 1, k);
    }
}

/// A closed string literal ends behind its start and within the text.
pub proof fn lemma_string_end_bounds(s: Seq<char>, i: int)
    requires
        0 <= i,
        string_end(s, i) is Some,
    ensures
        i < string_end(s, i)->0 <= s.len(),
    decreases s.len() - i,
{
    if s[i] == '"' {
    } else if s[i] == '\\' {
        lemma_string_end_bounds(s, i + 2);
    } else {
        lemma_string_end_bounds(s, i + 1);
    }
}

/// Every token takes at least one character and ends within the text.
pub proof fn lemma_lexeme_progress(s: Seq<char>, p: int)
    requires
        0 <= p < s.len(),
    ensures
        p < lexeme_at(s, p).1 <= s.len(),
{
    let c = s[p];
    lemma_run_end_bounds(s, p + 1, CharClass::Word);
    lemma_run_end_bounds(s, p + 1, CharClass::Digit);
    if is_letter(c) || c == '_' {
        reveal_strlit("tqs");
        reveal_strlit("tqf");
        reveal_strlit("qs");
        reveal_strlit("qf");
        reveal_strlit("bb");
        reveal_strlit("x");
        reveal_strlit("#");
        reveal_strlit("b");
        reveal_strlit("n");
        assert(p <= pitch_end(s, p) <= s.len());
    } else if is_digit(c) {
        let d = run_end(s, p, CharClass::Digit);
        assert(d == run_end(s, p + 1, CharClass::Digit));
        if d + 1 < s.len() {
            lemma_run_end_bounds(s, d + 1, CharClass::Digit);
        }
    } else if c == '"' {
        if string_end(s, p + 1) is Some {
            lemma_string_end_bounds(s, p + 1);
        }
    } else if c == ':' {
        let d = run_end(s, p + 1, CharClass::Digit);
        lemma_run_end_bounds(s, d, CharClass::Dot);
        if p + 1 < s.len() && is_digit(s[p + 1]) {
            assert(d == run_end(s, p + 2, CharClass::Digit));
            lemma_run_end_bounds(s, p + 2, CharClass::Digit);
        }
    } else if c == '/' {
        if p + 1 < s.len() {
            lemma_run_end_bounds(s, p + 2, CharClass::Line);
        }
    }
}

/// The punctuation token of a single character.
pub open spec fn punctuation(c: char) -> Option<TokenView> {
    if c == '{' {
        Some(TokenView::LBrace)
    } else if c == '}' {
        Some(TokenView::RBrace)
    } else if c == '[' {
        Some(TokenView::LBracket)
    } else if c == ']' {
        Some(TokenView::RBracket)
    } else if c == '(' {
        Some(TokenView::LParen)
    } else if c == ')' {
        Some(TokenView::RParen)
    } else if c == '~' {
        Some(TokenView::Tilde)
    } else if c == '=' {
        Some(TokenView::Equals)
    } else if c == ',' {
        Some(TokenView::Comma)
    } else if c == '.' {
        Some(TokenView::Dot)
    } else if c == '$' {
        Some(TokenView::Dollar)
    } else if c == '*' {
        Some(TokenView::Star)
    } else if c == '+' {
        Some(TokenView::Plus)
    } else if c == '-' {
        Some(TokenView::Minus)
    } else {
        None
    }
}

/// The token that starts at `p`, where a character that is no blank stands,
/// and the position behind it. A character that starts no token is an error
/// of one character.
pub open spec fn lexeme_at(s: Seq<char>, p: int) -> (Result<TokenView, ()>, int) {
    let c = s[p];
    if is_letter(c) || c == '_' {
        word_lexeme(s, p)
    } else if is_digit(c) {
        number_lexeme(s, p)
    } else if c == '"' {
        string_lexeme(s, p)
    } else if c == ':' {
        colon_lexeme(s, p)
    } else if c == '|' {
        bar_lexeme(s, p)
    } else if c == '/' {
        slash_lexeme(s, p)
    } else {
        match punctuation(c) {
            Some(t) => (Ok(t), p + 1),
            None => (Err(()), p + 1),
        }
    }
}

/// The first position at or behind `i` where neither a blank nor a `%%`
/// comment stands; a comment runs to the end of its line.
pub open spec fn blank_end(s: Seq<char>, i: int) -> int
    decreases s.len() - i,
{
    if i < 0 || i >= s.len() {
        i
    } else if is_blank(s[i]) {
        blank_end(s, i + 1)
    } else if s[i] == '%' && i + 1 < s.len() && s[i + 1] == '%' {
        let e = run_end(s, i + 2, CharClass::Line);
        if i < e <= s.len() {
            blank_end(s, e)
        } else {
            i
        }
    } else {
        i
    }
}

/// A token or an error, with its span.
pub struct Lexeme {
    pub token: Result<TokenView, ()>,
    pub start: int,
    pub end: int,
}

/// The next token at or behind `p`, if the source holds one.
pub open spec fn next_lexeme(s: Seq<char>, p: int) -> Option<Lexeme> {
    let q = blank_end(s, p);
    if 0 <= q < s.len() {
        Some(Lexeme { token: lexeme_at(s, q).0, start: q, end: lexeme_at(s, q).1 })
    } else {
        None
    }
}

/// `acc` followed by the tokens of the source from `p` on.
pub open spec fn lexemes_from(s: Seq<char>, p: int, acc: Seq<Lexeme>) -> Seq<Lexeme>
    decreases s.len() - p,
{
    match next_lexeme(s, p) {
        Some(l) => if p < l.end <= s.len() {
            lexemes_from(s, l.end, acc.push(l))
        } else {
            acc
        },
        None => acc,
    }
}

/// The tokens of a source text.
pub open spec fn lexemes(s: Seq<char>) -> Seq<Lexeme> {
    lexemes_from(s, 0, Seq::empty())
}

/// The view of a token or an error.
pub open spec fn item_view(item: Result<Token, ()>) -> Result<TokenView, ()> {
    match item {
        Ok(t) => Ok(t.deep_view()),
        Err(_) => Err(()),
    }
}

fn class_has(k: CharClass, c: char) -> (r: bool)
    ensures
        r == in_class(k, c),
{
    match k {
        CharClass::Digit => char_is_digit(c),
        CharClass::Word => ('a' <= c && c <= 'z') || ('A' <= c && c <= 'Z') || char_is_digit(c)
            || c == '_',
        CharClass::Dot => c == '.',
        CharClass::Line => c != '\n',
    }
}

fn scan_run(chars: &Vec<char>, from: usize, k: CharClass) -> (r: usize)
    requires
        from <= chars.len(),
    ensures
        r == run_end(chars@, from as int, k),
        from <= r <= chars.len(),
{
    let mut i: usize = from;
    while i < chars.len() && class_has(k, chars[i])
        invariant
            from <= i <= chars.len(),
            run_end(chars@, from as int, k) == run_end(chars@, i as int, k),
        decreases chars.len() - i,
    {
        i += 1;
    }
    i
}

fn fold(c: char) -> (r: u32)
    ensures
        r == fold_code(c),
{
    if 'A' <= c && c <= 'Z' {
        c as u32 + 32
    } else {
        c as u32
    }
}

fn holds(chars: &Vec<char>, at: usize, word: &str) -> (r: bool)
    requires
        at <= chars.len(),
    ensures
        r == holds_word(chars@, at as int, word@),
{
    let w = to_chars(word);
    if w.len() > chars.len() - at {
        return false;
    }
    let mut j: usize = 0;
    while j < w.len()
        invariant
            j <= w.len(),
            at + w.len() <= chars.len(),
            w@ == word@,
            forall|k: int| at <= k < at + j ==> fold_code(#[trigger] chars@[k]) == w@[k - at] as u32,
        decreases w.len() - j,
    {
        if fold(chars[at + j]) != w[j] as u32 {
            return false;
        }
        j += 1;
    }
    true
}

fn spells(chars: &Vec<char>, from: usize, to: usize, word: &str) -> (r: bool)
    requires
        from <= to <= chars.len(),
    ensures
        r == (chars@.subrange(from as int, to as int).len() == word@.len() && holds_word(
            chars@.subrange(from as int, to as int),
            0,
            word@,
        )),
{
    let n = word.unicode_len();
    if to - from != n {
        return false;
    }
    let r = holds(chars, from, word);
    proof {
        let sub = chars@.subrange(from as int, to as int);
        if r {
            assert forall|j: int| 0 <= j < word@.len() implies fold_code(#[trigger] sub[j])
                == word@[j - 0] as u32 by {
                assert(sub[j] == chars@[from + j]);
            }
        } else if holds_word(sub, 0, word@) {
            assert forall|j: int| from <= j < from + word@.len() implies fold_code(
                #[trigger] chars@[j],
            ) == word@[j - from] as u32 by {
                assert(sub[j - from] == chars@[j]);
            }
        }
    }
    r
}

fn keyword(chars: &Vec<char>, from: usize, to: usize) -> (r: Option<Token>)
    requires
        from <= to <= chars.len(),
    ensures
        r.deep_view() == keyword_of(chars@.subrange(from as int, to as int)),
{
    if spells(chars, from, to, "tenuto") {
        Some(Token::KwTenuto)
    } else if spells(chars, from, to, "meta") {
        Some(Token::KwMeta)
    } else if spells(chars, from, to, "def") {
        Some(Token::KwDef)
    } else if spells(chars, from, to, "measure") {
        Some(Token::KwMeasure)
    } else if spells(chars, from, to, "group") {
        Some(Token::KwGroup)
    } else if spells(chars, from, to, "import") {
        Some(Token::KwImport)
    } else if spells(chars, from, to, "macro") {
        Some(Token::KwMacro)
    } else if spells(chars, from, to, "var") {
        Some(Token::KwVar)
    } else if spells(chars, from, to, "if") {
        Some(Token::KwIf)
    } else if spells(chars, from, to, "else") {
        Some(Token::KwElse)
    } else {
        None
    }
}

fn accidental(chars: &Vec<char>, at: usize) -> (r: usize)
    requires
        at <= chars.len(),
    ensures
        r == accidental_len(chars@, at as int),
        at + r <= chars.len(),
{
    proof {
        reveal_strlit("tqs");
        reveal_strlit("tqf");
        reveal_strlit("qs");
        reveal_strlit("qf");
        reveal_strlit("bb");
        reveal_strlit("x");
        reveal_strlit("#");
        reveal_strlit("b");
        reveal_strlit("n");
    }
    if holds(chars, at, "tqs") || holds(chars, at, "tqf") {
        3
    } else if holds(chars, at, "qs") || holds(chars, at, "qf") || holds(chars, at, "bb") {
        2
    } else if holds(chars, at, "x") || holds(chars, at, "#") || holds(chars, at, "b") || holds(
        chars,
        at,
        "n",
    ) {
        1
    } else {
        0
    }
}

fn pitch_stop(chars: &Vec<char>, p: usize) -> (r: usize)
    requires
        p < chars.len(),
    ensures
        r == pitch_end(chars@, p as int),
        p <= r <= chars.len(),
{
    let c = chars[p];
    if ('a' <= c && c <= 'g') || ('A' <= c && c <= 'G') {
        let d = p + 1 + accidental(chars, p + 1);
        if d < chars.len() && char_is_digit(chars[d]) {
            d + 1
        } else {
            d
        }
    } else {
        p
    }
}

fn read_word(chars: &Vec<char>, p: usize) -> (r: (Result<Token, ()>, usize))
    requires
        p < chars.len(),
    ensures
        (item_view(r.0), r.1 as int) == word_lexeme(chars@, p as int),
        p < r.1 <= chars.len(),
{
    let e = scan_run(chars, p + 1, CharClass::Word);
    let pe = pitch_stop(chars, p);
    if pe > e {
        (Ok(Token::PitchLit(from_chars(chars, p, pe))), pe)
    } else {
        match keyword(chars, p, e) {
            Some(k) => (Ok(k), e),
            None => if pe == e {
                (Ok(Token::PitchLit(from_chars(chars, p, e))), e)
            } else {
                (Ok(Token::Identifier(from_chars(chars, p, e))), e)
            },
        }
    }
}

fn read_number(chars: &Vec<char>, p: usize) -> (r: (Result<Token, ()>, usize))
    requires
        p < chars.len(),
        is_digit(chars@[p as int]),
    ensures
        (item_view(r.0), r.1 as int) == number_lexeme(chars@, p as int),
        p < r.1 <= chars.len(),
{
    let d = scan_run(chars, p + 1, CharClass::Digit);
    assert(run_end(chars@, p as int, CharClass::Digit) == d);
    if d < chars.len() - 1 && chars[d] == '.' && char_is_digit(chars[d + 1]) {
        let e = scan_run(chars, d + 1, CharClass::Digit);
        (Ok(Token::Float(from_chars(chars, p, e))), e)
    } else if d < chars.len() - 1 && chars[d] == '-' && char_is_digit(chars[d + 1]) {
        let e = scan_run(chars, d + 1, CharClass::Digit);
        (Ok(Token::TabLit(from_chars(chars, p, e))), e)
    } else {
        match parse_decimal(chars, p, d, 0x7fff_ffff_ffff_ffff) {
            Some(n) => (Ok(Token::Integer(n as i64)), d),
            None => (Err(()), d),
        }
    }
}

fn string_stop(chars: &Vec<char>, from: usize) -> (r: Option<usize>)
    requires
        from <= chars.len(),
    ensures
        match r {
            Some(e) => string_end(chars@, from as int) == Some(e as int) && from < e
                <= chars.len(),
            None => string_end(chars@, from as int) is None,
        },
{
    let mut i: usize = from;
    while i < chars.len()
        invariant
            from <= i <= chars.len(),
            string_end(chars@, from as int) == string_end(chars@, i as int),
        decreases chars.len() - i,
    {
        let c = chars[i];
        if c == '"' {
            return Some(i + 1);
        } else if c == '\\' {
            if i + 1 < chars.len() {
                let n = chars[i + 1];
                if n == '"' || n == '\\' || n == 'b' || n == 'n' || n == 'f' || n == 'r' || n
                    == 't' {
                    i += 2;
                } else {
                    return None;
                }
            } else {
                return None;
            }
        } else {
            i += 1;
        }
    }
    None
}

fn read_string(chars: &Vec<char>, p: usize) -> (r: (Result<Token, ()>, usize))
    requires
        p < chars.len(),
    ensures
        (item_view(r.0), r.1 as int) == string_lexeme(chars@, p as int),
        p < r.1 <= chars.len(),
{
    match string_stop(chars, p + 1) {
        Some(e) => (Ok(Token::StringLit(from_chars(chars, p + 1, e - 1))), e),
        None => (Err(()), p + 1),
    }
}

fn read_colon(chars: &Vec<char>, p: usize) -> (r: (Result<Token, ()>, usize))
    requires
        p < chars.len(),
    ensures
        (item_view(r.0), r.1 as int) == colon_lexeme(chars@, p as int),
        p < r.1 <= chars.len(),
{
    if p + 1 < chars.len() && char_is_digit(chars[p + 1]) {
        let d = scan_run(chars, p + 1, CharClass::Digit);
        let e = scan_run(chars, d, CharClass::Dot);
        (Ok(Token::DurationLit(from_chars(chars, p, e))), e)
    } else if p + 1 < chars.len() && chars[p + 1] == '|' {
        if p + 2 < chars.len() && chars[p + 2] == ':' {
            (Ok(Token::RepeatDouble), p + 3)
        } else {
            (Ok(Token::RepeatEnd), p + 2)
        }
    } else {
        (Ok(Token::Colon), p + 1)
    }
}

fn read_bar(chars: &Vec<char>, p: usize) -> (r: (Result<Token, ()>, usize))
    requires
        p < chars.len(),
    ensures
        (item_view(r.0), r.1 as int) == bar_lexeme(chars@, p as int),
        p < r.1 <= chars.len(),
{
    if p + 1 < chars.len() && chars[p + 1] == ':' {
        (Ok(Token::RepeatStart), p + 2)
    } else if p + 1 < chars.len() && chars[p + 1] == '|' {
        (Ok(Token::DoubleBar), p + 2)
    } else if p + 1 < chars.len() && chars[p + 1] == ']' {
        (Ok(Token::FinalBar), p + 2)
    } else {
        (Ok(Token::Pipe), p + 1)
    }
}

fn read_slash(chars: &Vec<char>, p: usize) -> (r: (Result<Token, ()>, usize))
    requires
        p < chars.len(),
    ensures
        (item_view(r.0), r.1 as int) == slash_lexeme(chars@, p as int),
        p < r.1 <= chars.len(),
{
    if p + 1 < chars.len() && chars[p + 1] == '/' {
        (Ok(Token::InvalidComment), scan_run(chars, p + 2, CharClass::Line))
    } else {
        (Ok(Token::Slash), p + 1)
    }
}

fn read_punctuation(c: char) -> (r: Option<Token>)
    ensures
        r.deep_view() == punctuation(c),
{
    if c == '{' {
        Some(Token::LBrace)
    } else if c == '}' {
        Some(Token::RBrace)
    } else if c == '[' {
        Some(Token::LBracket)
    } else if c == ']' {
        Some(Token::RBracket)
    } else if c == '(' {
        Some(Token::LParen)
    } else if c == ')' {
        Some(Token::RParen)
    } else if c == '~' {
        Some(Token::Tilde)
    } else if c == '=' {
        Some(Token::Equals)
    } else if c == ',' {
        Some(Token::Comma)
    } else if c == '.' {
        Some(Token::Dot)
    } else if c == '$' {
        Some(Token::Dollar)
    } else if c == '*' {
        Some(Token::Star)
    } else if c == '+' {
        Some(Token::Plus)
    } else if c == '-' {
        Some(Token::Minus)
    } else {
        None
    }
}

fn read_lexeme(chars: &Vec<char>, p: usize) -> (r: (Result<Token, ()>, usize))
    requires
        p < chars.len(),
    ensures
        (item_view(r.0), r.1 as int) == lexeme_at(chars@, p as int),
        p < r.1 <= chars.len(),
{
    let c = chars[p];
    if ('a' <= c && c <= 'z') || ('A' <= c && c <= 'Z') || c == '_' {
        read_word(chars, p)
    } else if char_is_digit(c) {
        read_number(chars, p)
    } else if c == '"' {
        read_string(chars, p)
    } else if c == ':' {
        read_colon(chars, p)
    } else if c == '|' {
        read_bar(chars, p)
    } else if c == '/' {
        read_slash(chars, p)
    } else {
        match read_punctuation(c) {
            Some(t) => (Ok(t), p + 1),
            None => (Err(()), p + 1),
        }
    }
}

fn skip_blanks(chars: &Vec<char>, from: usize) -> (r: usize)
    requires
        from <= chars.len(),
    ensures
        r == blank_end(chars@, from as int),
        from <= r <= chars.len(),
{
    let mut i: usize = from;
    while i < chars.len()
        invariant
            from <= i <= chars.len(),
            blank_end(chars@, from as int) == blank_end(chars@, i as int),
        decreases chars.len() - i,
    {
        let c = chars[i];
        if c == ' ' || c == '\t' || c == '\r' || c == '\n' || c == '\x0c' {
            i += 1;
        } else if c == '%' && i + 1 < chars.len() && chars[i + 1] == '%' {
            i = scan_run(chars, i + 2, CharClass::Line);
        } else {
            return i;
        }
    }
    i
}

/// Blanks and comments end between their start and the end of the text.
pub proof fn lemma_blank_end_bounds(s: Seq<char>, i: int)
    requires
        0 <= i <= s.len(),
    ensures
        i <= blank_end(s, i) <= s.len(),
    decreases s.len() - i,
{
    if i < s.len() {
        if is_blank(s[i]) {
            lemma_blank_end_bounds(s, i + 1);
        } else if s[i] == '%' && i + 1 < s.len() && s[i + 1] == '%' {
            let e = run_end(s, i + 2, CharClass::Line);
            lemma_run_end_bounds(s, i + 2, CharClass::Line);
            lemma_blank_end_bounds(s, e);
        }
    }
}

/// Whether the spans are not empty, lie before `end` and follow one another
/// without overlap.
pub open spec fn spans_in_order(ls: Seq<Lexeme>, end: int) -> bool {
    &&& forall|i: int| 0 <= i < ls.len() ==> 0 <= (#[trigger] ls[i]).start < ls[i].end <= end
    &&& forall|i: int, j: int| 0 <= i < j < ls.len() ==> (#[trigger] ls[i]).end <= (#[trigger] ls[j]).start
}

/// Tokens that are in order up to `p` stay in order when the tokens from `p`
/// on join them.
pub proof fn lemma_lexemes_from_in_order(s: Seq<char>, p: int, acc: Seq<Lexeme>)
    requires
        0 <= p <= s.len(),
        spans_in_order(acc, p),
    ensures
        spans_in_order(lexemes_from(s, p, acc), s.len() as int),
    decreases s.len() - p,
{
    lemma_blank_end_bounds(s, p);
    match next_lexeme(s, p) {
        Some(l) => {
            lemma_lexeme_progress(s, l.start);
            let next = acc.push(l);
            assert forall|i: int, j: int| 0 <= i < j < next.len() implies (#[trigger] next[i]).end
                <= (#[trigger] next[j]).start by {
                if j == acc.len() {
                    assert(acc[i].end <= p);
                }
            }
            lemma_lexemes_from_in_order(s, l.end, next);
        },
        None => {},
    }
}

/// The tokens of a text have spans that are not empty, lie within the text
/// and follow one another without overlap.
pub proof fn lemma_lexemes_in_order(s: Seq<char>)
    ensures
        spans_in_order(lexemes(s), s.len() as int),
{
    lemma_lexemes_from_in_order(s, 0, Seq::empty());
}

/// What a list of tokens and errors with their spans stands for.
pub open spec fn lexed_view(items: Seq<(Result<Token, ()>, Span)>) -> Seq<Lexeme> {
    Seq::new(
        items.len(),
        |i: int|
            Lexeme {
                token: item_view(items[i].0),
                start: items[i].1.start as int,
                end: items[i].1.end as int,
            },
    )
}

/// The tokens of a source text with their spans, an `Err` for each character
/// that starts no token.
pub fn tokenize(source: &str) -> (r: Vec<(Result<Token, ()>, Span)>)
    ensures
        lexed_view(r@) == lexemes(source@),
{
    let chars = to_chars(source);
    let mut out: Vec<(Result<Token, ()>, Span)> = Vec::new();
    let mut p: usize = 0;
    assert(lexed_view(out@) =~= Seq::<Lexeme>::empty());
    loop
        invariant
            p <= chars.len(),
            chars@ == source@,
            lexemes(source@) == lexemes_from(chars@, p as int, lexed_view(out@)),
        decreases chars.len() - p,
    {
        let q = skip_blanks(&chars, p);
        if q >= chars.len() {
            return out;
        }
        let (item, e) = read_lexeme(&chars, q);
        let ghost before = out@;
        out.push((item, Span { start: q, end: e }));
        assert(lexed_view(out@) =~= lexed_view(before).push(
            Lexeme { token: item_view(item), start: q as int, end: e as int },
        ));
        p = e;
    }
}

/// A scanner over a source text that hands out one token at a time.
pub struct Lexer {
    chars: Vec<char>,
    pos: usize,
    last: Span,
}

impl Token {
    /// A scanner at the start of `source`.
    pub fn lexer(source: &str) -> (lex: Lexer)
        ensures
            lex.source() == source@,
            lex.position() == 0,
    {
        Lexer { chars: to_chars(source), pos: 0, last: Span { start: 0, end: 0 } }
    }
}

impl Lexer {
    #[verifier::type_invariant]
    spec fn within(&self) -> bool {
        self.pos <= self.chars.len()
    }

    /// The source text.
    pub closed spec fn source(&self) -> Seq<char> {
        self.chars@
    }

    /// The position behind the last token that was handed out.
    pub closed spec fn position(&self) -> int {
        self.pos as int
    }

    /// The span of the last token that was handed out.
    pub closed spec fn last_span(&self) -> Span {
        self.last
    }

    /// The next token, or an `Err` for a character that starts none; `None`
    /// at the end of the source.
    pub fn next(&mut self) -> (r: Option<Result<Token, ()>>)
        ensures
            final(self).source() == old(self).source(),
            match next_lexeme(old(self).source(), old(self).position()) {
                Some(l) => {
                    &&& r matches Some(item) && item_view(item) == l.token
                    &&& final(self).position() == l.end
                    &&& final(self).last_span().start == l.start
                    &&& final(self).last_span().end == l.end
                },
                None => r is None && final(self).position() == old(self).source().len()
                    && final(self).last_span() == old(self).last_span(),
            },
    {
        proof {
            use_type_invariant(&*self);
        }
        let q = skip_blanks(&self.chars, self.pos);
        if q >= self.chars.len() {
            self.pos = self.chars.len();
            return None;
        }
        let (item, e) = read_lexeme(&self.chars, q);
        self.pos = e;
        self.last = Span { start: q, end: e };
        Some(item)
    }

    /// The span of the last token that was handed out.
    pub fn span(&self) -> (s: Span)
        ensures
            s == self.last_span(),
    {
        self.last
    }
}

/// Whether the lexeme is an error or the sentinel for text that is no
/// token.
pub open spec fn is_anomaly(l: Lexeme) -> bool {
    l.token is Err || l.token == Ok::<TokenView, ()>(TokenView::InvalidComment)
}

/// The tokens among the lexemes, with their spans: errors and the sentinel
/// are left out.
pub open spec fn significant(ls: Seq<Lexeme>) -> Seq<(TokenView, Span)>
    decreases ls.len(),
{
    if ls.len() == 0 {
        Seq::empty()
    } else if is_anomaly(ls.last()) {
        significant(ls.drop_last())
    } else {
        significant(ls.drop_last()).push(
            (
                ls.last().token->Ok_0,
                Span { start: ls.last().start as usize, end: ls.last().end as usize },
            ),
        )
    }
}

/// The spans of the errors and sentinels among the lexemes.
pub open spec fn anomalies(ls: Seq<Lexeme>) -> Seq<Span>
    decreases ls.len(),
{
    if ls.len() == 0 {
        Seq::empty()
    } else if is_anomaly(ls.last()) {
        anomalies(ls.drop_last()).push(
            Span { start: ls.last().start as usize, end: ls.last().end as usize },
        )
    } else {
        anomalies(ls.drop_last())
    }
}

/// The tokens of a source text that the parser is to see, and the spans of
/// the text in between that is no token.
pub fn scan(source: &str) -> (r: (Vec<(Token, Span)>, Vec<Span>))
    ensures
        r.0.deep_view() == significant(lexemes(source@)),
        r.1@ == anomalies(lexemes(source@)),
{
    let chars = to_chars(source);
    let mut out: Vec<(Token, Span)> = Vec::new();
    let mut odd: Vec<Span> = Vec::new();
    let ghost mut seen: Seq<Lexeme> = Seq::empty();
    let mut p: usize = 0;
    assert(out.deep_view() =~= Seq::<(TokenView, Span)>::empty());
    loop
        invariant
            p <= chars.len(),
            chars@ == source@,
            lexemes(source@) == lexemes_from(chars@, p as int, seen),
            out.deep_view() == significant(seen),
            odd@ == anomalies(seen),
        decreases chars.len() - p,
    {
        let q = skip_blanks(&chars, p);
        if q >= chars.len() {
            return (out, odd);
        }
        let (item, e) = read_lexeme(&chars, q);
        let ghost l = Lexeme { token: item_view(item), start: q as int, end: e as int };
        let span = Span { start: q, end: e };
        proof {
            assert(seen.push(l).drop_last() =~= seen);
            assert(seen.push(l).last() == l);
        }
        match item {
            Ok(Token::InvalidComment) => {
                odd.push(span);
            },
            Ok(token) => {
                let ghost before = out;
                out.push((token, span));
                assert(out.deep_view() =~= before.deep_view().push((token.deep_view(), span)));
            },
            Err(_) => {
                odd.push(span);
            },
        }
        proof {
            seen = seen.push(l);
        }
        p = e;
    }
}

} // verus!
