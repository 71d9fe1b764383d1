use tenutoc::lexer::{scan, tokenize, Span, Token};

fn kinds(src: &str) -> Vec<Result<Token, ()>> {
    tokenize(src).into_iter().map(|(t, _)| t).collect()
}

fn pitch(s: &str) -> Result<Token, ()> {
    Ok(Token::PitchLit(s.to_string()))
}

fn ident(s: &str) -> Result<Token, ()> {
    Ok(Token::Identifier(s.to_string()))
}

#[test]
fn c_style_comment_is_reported() {
    assert_eq!(
        kinds("c4 // not a comment here\n d4"),
        vec![pitch("c4"), Ok(Token::InvalidComment), pitch("d4")]
    );
    let mut lex = Token::lexer("// only");
    assert_eq!(lex.next(), Some(Ok(Token::InvalidComment)));
    assert_eq!(lex.span(), Span { start: 0, end: 7 });
    assert_eq!(lex.next(), None);
}

#[test]
fn unknown_character_is_an_error_of_one_character() {
    let items = tokenize("c4 @ d4");
    assert_eq!(items.len(), 3);
    assert_eq!(items[1], (Err(()), Span { start: 3, end: 4 }));
    assert_eq!(items[2], (pitch("d4"), Span { start: 5, end: 7 }));
}

#[test]
fn single_percent_is_an_error() {
    assert_eq!(kinds("% x"), vec![Err(()), ident("x")]);
}

#[test]
fn compound_bars_win_over_their_parts() {
    assert_eq!(
        kinds("|: :| :|: || |]"),
        vec![
            Ok(Token::RepeatStart),
            Ok(Token::RepeatEnd),
            Ok(Token::RepeatDouble),
            Ok(Token::DoubleBar),
            Ok(Token::FinalBar)
        ]
    );
}

#[test]
fn remaining_punctuation() {
    assert_eq!(
        kinds("( ) ~ $ * + - /"),
        vec![
            Ok(Token::LParen),
            Ok(Token::RParen),
            Ok(Token::Tilde),
            Ok(Token::Dollar),
            Ok(Token::Star),
            Ok(Token::Plus),
            Ok(Token::Minus),
            Ok(Token::Slash)
        ]
    );
}

#[test]
fn keywords_in_any_case() {
    assert_eq!(
        kinds("TENUTO Meta dEf MEASURE group import macro var if else"),
        vec![
            Ok(Token::KwTenuto),
            Ok(Token::KwMeta),
            Ok(Token::KwDef),
            Ok(Token::KwMeasure),
            Ok(Token::KwGroup),
            Ok(Token::KwImport),
            Ok(Token::KwMacro),
            Ok(Token::KwVar),
            Ok(Token::KwIf),
            Ok(Token::KwElse)
        ]
    );
}

#[test]
fn longer_word_is_an_identifier() {
    assert_eq!(kinds("tenutos define iff"), vec![ident("tenutos"), ident("define"), ident("iff")]);
}

#[test]
fn pitch_wins_a_tie_with_identifier() {
    assert_eq!(kinds("c4"), vec![pitch("c4")]);
    assert_eq!(kinds("bb2"), vec![pitch("bb2")]);
    assert_eq!(kinds("ctqs4"), vec![pitch("ctqs4")]);
    assert_eq!(kinds("G"), vec![pitch("G")]);
    assert_eq!(kinds("Eb"), vec![pitch("Eb")]);
    assert_eq!(kinds("c#4"), vec![pitch("c#4")]);
    assert_eq!(kinds("fx"), vec![pitch("fx")]);
}

#[test]
fn identifier_wins_when_it_is_longer() {
    assert_eq!(kinds("bass"), vec![ident("bass")]);
    assert_eq!(kinds("c4d"), vec![ident("c4d")]);
    assert_eq!(kinds("r"), vec![ident("r")]);
    assert_eq!(kinds("vln"), vec![ident("vln")]);
    assert_eq!(kinds("_x1"), vec![ident("_x1")]);
    assert_eq!(kinds("c45"), vec![ident("c45")]);
}

#[test]
fn numbers() {
    assert_eq!(kinds("120"), vec![Ok(Token::Integer(120))]);
    assert_eq!(kinds("1.5"), vec![Ok(Token::Float("1.5".into()))]);
    assert_eq!(kinds("12-2"), vec![Ok(Token::TabLit("12-2".into()))]);
    assert_eq!(kinds("3."), vec![Ok(Token::Integer(3)), Ok(Token::Dot)]);
    assert_eq!(kinds("3-"), vec![Ok(Token::Integer(3)), Ok(Token::Minus)]);
    assert_eq!(kinds("9223372036854775807"), vec![Ok(Token::Integer(i64::MAX))]);
}

#[test]
fn integer_that_does_not_fit_is_an_error() {
    let items = tokenize("9223372036854775808 1");
    assert_eq!(items[0], (Err(()), Span { start: 0, end: 19 }));
    assert_eq!(items[1].0, Ok(Token::Integer(1)));
}

#[test]
fn durations() {
    assert_eq!(kinds(":4"), vec![Ok(Token::DurationLit(":4".into()))]);
    assert_eq!(kinds(":16.."), vec![Ok(Token::DurationLit(":16..".into()))]);
    assert_eq!(kinds(": 4"), vec![Ok(Token::Colon), Ok(Token::Integer(4))]);
}

#[test]
fn strings_keep_their_escapes() {
    assert_eq!(kinds(r#""Violin I""#), vec![Ok(Token::StringLit("Violin I".into()))]);
    assert_eq!(kinds(r#""a\"b""#), vec![Ok(Token::StringLit(r#"a\"b"#.into()))]);
    assert_eq!(kinds("\"\""), vec![Ok(Token::StringLit(String::new()))]);
    assert_eq!(kinds("\"Café\" c"), vec![Ok(Token::StringLit("Café".into())), pitch("c")]);
}

#[test]
fn unterminated_string_is_an_error_at_the_quote() {
    let items = tokenize("\"abc");
    assert_eq!(items[0], (Err(()), Span { start: 0, end: 1 }));
    assert_eq!(items[1].0, Ok(Token::Identifier("abc".into())));
}

#[test]
fn bad_escape_is_an_error_at_the_quote() {
    let items = tokenize(r#""a\q""#);
    assert_eq!(items[0], (Err(()), Span { start: 0, end: 1 }));
}

#[test]
fn tuplet_ratio_tokens() {
    assert_eq!(
        kinds("(c4 d e):3/2"),
        vec![
            Ok(Token::LParen),
            pitch("c4"),
            pitch("d"),
            pitch("e"),
            Ok(Token::RParen),
            Ok(Token::DurationLit(":3".into())),
            Ok(Token::Slash),
            Ok(Token::Integer(2))
        ]
    );
}

#[test]
fn spans_are_half_open_character_ranges() {
    let items = tokenize("ab  cd %% x\n:4.");
    assert_eq!(items[0], (pitch("ab"), Span { start: 0, end: 2 }));
    assert_eq!(items[1], (ident("cd"), Span { start: 4, end: 6 }));
    assert_eq!(items[2], (Ok(Token::DurationLit(":4.".into())), Span { start: 12, end: 15 }));
}

#[test]
fn whitespace_of_every_kind_is_skipped() {
    assert_eq!(kinds(" \t\r\n\x0c c4 \n"), vec![pitch("c4")]);
    assert_eq!(kinds(""), vec![]);
    assert_eq!(kinds("%% only a comment"), vec![]);
}

#[test]
fn lexer_ends_with_none() {
    let mut lex = Token::lexer("c4  ");
    assert_eq!(lex.next(), Some(pitch("c4")));
    assert_eq!(lex.span(), Span { start: 0, end: 2 });
    assert_eq!(lex.next(), None);
    assert_eq!(lex.next(), None);
    assert_eq!(lex.span(), Span { start: 0, end: 2 });
}

#[test]
fn scan_leaves_anomalies_out_and_reports_them() {
    let (tokens, odd) = scan("c4 @ // x\n d4 #");
    assert_eq!(
        tokens,
        vec![
            (Token::PitchLit("c4".into()), Span { start: 0, end: 2 }),
            (Token::PitchLit("d4".into()), Span { start: 11, end: 13 })
        ]
    );
    assert_eq!(
        odd,
        vec![
            Span { start: 3, end: 4 },
            Span { start: 5, end: 9 },
            Span { start: 14, end: 15 }
        ]
    );
    let (tokens, odd) = scan("c4 d4");
    assert_eq!(tokens.len(), 2);
    assert!(odd.is_empty());
}
