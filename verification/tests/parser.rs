use tenutoc::lexer::{scan, Span, Token};
use tenutoc::parser::{parser, Event, ParseError, Score, Statement, TopLevel, Value};

fn parse(src: &str) -> (Option<Score>, Vec<ParseError>) {
    let (tokens, _) = scan(src);
    parser().parse_recovery(&tokens)
}

fn events_of(src: &str) -> Vec<Event> {
    let (ast, errors) = parse(&format!("tenuto {{ measure {{ vln: {} }} }}", src));
    assert!(errors.is_empty());
    let mut items = ast.unwrap().items;
    assert_eq!(items.len(), 1);
    match items.remove(0) {
        TopLevel::Measure { id, mut content } => {
            assert_eq!(id, None);
            assert_eq!(content.len(), 1);
            match content.remove(0) {
                Statement::Assignment { staff_id, mut voices } => {
                    assert_eq!(staff_id, "vln");
                    assert_eq!(voices.len(), 1);
                    voices.remove(0).events
                }
                Statement::LocalMeta(_) => panic!("expected an assignment"),
            }
        }
        _ => panic!("expected a measure"),
    }
}

#[test]
fn top_level_items_come_in_order() {
    let (ast, errors) =
        parse(r#"tenuto { meta{title:"T"} def vln "Violin" measure 1 { vln: c4 | } }"#);
    assert!(errors.is_empty());
    let items = ast.unwrap().items;
    assert_eq!(items.len(), 3);
    match &items[0] {
        TopLevel::Meta(entries) => {
            assert_eq!(entries.len(), 1);
            assert_eq!(entries[0].0, "title");
            assert!(matches!(&entries[0].1, Value::Str(s) if s == "T"));
        }
        _ => panic!("expected meta first"),
    }
    match &items[1] {
        TopLevel::Def { id, label, attributes } => {
            assert_eq!(id, "vln");
            assert_eq!(label, "Violin");
            assert!(attributes.is_empty());
        }
        _ => panic!("expected def second"),
    }
    match &items[2] {
        TopLevel::Measure { id, content } => {
            assert_eq!(*id, Some(1));
            assert_eq!(content.len(), 1);
        }
        _ => panic!("expected measure third"),
    }
}

#[test]
fn attributes_with_and_without_arguments() {
    let events = events_of("c4.stacc.vol(80)");
    assert_eq!(events.len(), 1);
    match &events[0] {
        Event::Note { pitch, duration, attributes } => {
            assert_eq!(pitch, "c4");
            assert_eq!(*duration, None);
            assert_eq!(attributes.len(), 2);
            assert_eq!(attributes[0].name, "stacc");
            assert!(attributes[0].args.is_empty());
            assert_eq!(attributes[1].name, "vol");
            assert_eq!(attributes[1].args.len(), 1);
            assert!(matches!(attributes[1].args[0], Value::Num(80)));
        }
        _ => panic!("expected a note"),
    }
}

#[test]
fn attribute_arguments_of_every_kind() {
    let events = events_of(r#"c4.mix("a", 1.5, 2, legato)"#);
    match &events[0] {
        Event::Note { attributes, .. } => {
            let args = &attributes[0].args;
            assert_eq!(args.len(), 4);
            assert!(matches!(&args[0], Value::Str(s) if s == "a"));
            assert!(matches!(&args[1], Value::Float(s) if s == "1.5"));
            assert!(matches!(&args[2], Value::Num(2)));
            assert!(matches!(&args[3], Value::Id(s) if s == "legato"));
        }
        _ => panic!("expected a note"),
    }
}

#[test]
fn every_kind_of_event() {
    let events = events_of("c4:4 r:8 [c4 e g]:2 3-5:4 kick:16 (d e):3/2");
    assert_eq!(events.len(), 6);
    assert!(matches!(&events[0], Event::Note { pitch, duration: Some(d), .. }
        if pitch == "c4" && d == ":4"));
    assert!(matches!(&events[1], Event::Rest { duration: Some(d) } if d == ":8"));
    match &events[2] {
        Event::Chord { notes, duration, attributes } => {
            assert_eq!(notes, &vec!["c4".to_string(), "e".to_string(), "g".to_string()]);
            assert_eq!(duration.as_deref(), Some(":2"));
            assert!(attributes.is_empty());
        }
        _ => panic!("expected a chord"),
    }
    assert!(matches!(&events[3], Event::Tab { fret: 3, string: 5, duration: Some(d), .. }
        if d == ":4"));
    assert!(matches!(&events[4], Event::Percussion { key, duration: Some(d), .. }
        if key == "kick" && d == ":16"));
    match &events[5] {
        Event::Tuplet { content, p, q } => {
            assert_eq!((*p, *q), (3, 2));
            assert_eq!(content.events.len(), 2);
        }
        _ => panic!("expected a tuplet"),
    }
}

#[test]
fn tuplet_ratio_with_spaces() {
    let events = events_of("(c4 d e) : 5 / 4");
    assert!(matches!(&events[0], Event::Tuplet { p: 5, q: 4, .. }));
}

#[test]
fn tuplets_nest() {
    let events = events_of("((c4 d e):3/2 f):2/1");
    match &events[0] {
        Event::Tuplet { content, p: 2, q: 1 } => {
            assert_eq!(content.events.len(), 2);
            assert!(matches!(&content.events[0], Event::Tuplet { p: 3, q: 2, .. }));
            assert!(matches!(&content.events[1], Event::Note { .. }));
        }
        _ => panic!("expected a tuplet"),
    }
}

#[test]
fn tab_coordinates_fall_back_when_too_large() {
    let events = events_of("300-7 2-999");
    assert!(matches!(&events[0], Event::Tab { fret: 0, string: 7, .. }));
    assert!(matches!(&events[1], Event::Tab { fret: 2, string: 1, .. }));
}

#[test]
fn each_bar_line_opens_a_voice() {
    let (ast, errors) = parse("tenuto { measure 2 { vln: c4 d | e | } }");
    assert!(errors.is_empty());
    match &ast.unwrap().items[0] {
        TopLevel::Measure { content, .. } => match &content[0] {
            Statement::Assignment { voices, .. } => {
                assert_eq!(voices.len(), 3);
                assert_eq!(voices[0].events.len(), 2);
                assert_eq!(voices[1].events.len(), 1);
                assert_eq!(voices[2].events.len(), 0);
            }
            _ => panic!("expected an assignment"),
        },
        _ => panic!("expected a measure"),
    }
}

#[test]
fn local_meta_and_def_attributes() {
    let (ast, errors) = parse(
        r#"tenuto { def gtr patch="Guitar" style=standard measure { meta { key: 3, mode: "x" } } }"#,
    );
    assert!(errors.is_empty());
    let items = ast.unwrap().items;
    match &items[0] {
        TopLevel::Def { id, label, attributes } => {
            assert_eq!(id, "gtr");
            assert_eq!(label, "");
            assert_eq!(attributes.len(), 2);
            assert_eq!(attributes[0].0, "patch");
            assert!(matches!(&attributes[1].1, Value::Id(s) if s == "standard"));
        }
        _ => panic!("expected a def"),
    }
    match &items[1] {
        TopLevel::Measure { content, .. } => match &content[0] {
            Statement::LocalMeta(entries) => {
                assert_eq!(entries.len(), 2);
                assert!(matches!(&entries[0].1, Value::Num(3)));
            }
            _ => panic!("expected local meta"),
        },
        _ => panic!("expected a measure"),
    }
}

#[test]
fn missing_wrapper_yields_no_score() {
    let (ast, errors) = parse("measure 1 { vln: c4 }");
    assert!(ast.is_none());
    assert_eq!(errors, vec![ParseError { position: 0, span: Span { start: 0, end: 7 } }]);

    let (ast, errors) = parse("tenuto measure");
    assert!(ast.is_none());
    assert_eq!(errors, vec![ParseError { position: 1, span: Span { start: 7, end: 14 } }]);

    let (ast, errors) = parser().parse_recovery(&Vec::new());
    assert!(ast.is_none());
    assert_eq!(errors, vec![ParseError { position: 0, span: Span { start: 0, end: 0 } }]);
}

#[test]
fn error_inside_keeps_the_items_before_it() {
    let (ast, errors) = parse(r#"tenuto { def vln "V" 42 def vla }"#);
    let items = ast.unwrap().items;
    assert_eq!(items.len(), 1);
    assert_eq!(errors, vec![ParseError { position: 5, span: Span { start: 21, end: 23 } }]);
}

#[test]
fn missing_closing_brace_is_reported_at_the_end() {
    let (ast, errors) = parse(r#"tenuto { def vln "V""#);
    assert_eq!(ast.unwrap().items.len(), 1);
    assert_eq!(errors, vec![ParseError { position: 5, span: Span { start: 20, end: 20 } }]);
}

#[test]
fn empty_meta_block_is_refused() {
    let (ast, errors) = parse("tenuto { meta { } }");
    assert_eq!(ast.unwrap().items.len(), 0);
    assert_eq!(errors.len(), 1);
    assert_eq!(errors[0].position, 2);
}

#[test]
fn tokens_behind_the_score_are_not_read() {
    let (ast, errors) = parse("tenuto { } c4 c4");
    assert!(errors.is_empty());
    assert_eq!(ast.unwrap().items.len(), 0);
}

#[test]
fn negative_tuplet_ratio_is_refused() {
    let tokens = vec![
        (Token::KwTenuto, Span { start: 0, end: 0 }),
        (Token::LBrace, Span { start: 0, end: 0 }),
        (Token::KwMeasure, Span { start: 0, end: 0 }),
        (Token::LBrace, Span { start: 0, end: 0 }),
        (Token::Identifier("vln".into()), Span { start: 0, end: 0 }),
        (Token::Colon, Span { start: 0, end: 0 }),
        (Token::LParen, Span { start: 0, end: 0 }),
        (Token::RParen, Span { start: 0, end: 0 }),
        (Token::Colon, Span { start: 0, end: 0 }),
        (Token::Integer(-3), Span { start: 0, end: 0 }),
        (Token::Slash, Span { start: 0, end: 0 }),
        (Token::Integer(2), Span { start: 0, end: 0 }),
        (Token::RBrace, Span { start: 0, end: 0 }),
        (Token::RBrace, Span { start: 0, end: 0 }),
    ];
    let (ast, errors) = parser().parse_recovery(&tokens);
    assert_eq!(ast.unwrap().items.len(), 0);
    assert_eq!(errors.len(), 1);
    assert_eq!(errors[0].position, 2);
}
