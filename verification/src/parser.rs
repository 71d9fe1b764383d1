//! The abstract syntax tree of a score and the parser that builds it from
//! tokens.

use vstd::prelude::*;
use crate::lexer::{Span, Token, TokenView};
use crate::text::{decimal_upto, find_char, index_of, parse_decimal, same_text, to_chars};

verus! {

/// A literal in a metadata entry, a staff attribute or an attribute argument.
#[derive(Debug)]
pub enum Value {
    Str(String),
    Num(i64),
    /// A number with a fractional part, kept as written.
    Float(String),
    Id(String),
    Array(Vec<Value>),
}

/// `.name` or `.name(args)` attached to an event.
#[derive(Debug)]
pub struct Attribute {
    pub name: String,
    pub args: Vec<Value>,
}

/// One musical event of a voice.
#[derive(Debug)]
pub enum Event {
    Note { pitch: String, duration: Option<String>, attributes: Vec<Attribute> },
    Chord { notes: Vec<String>, duration: Option<String>, attributes: Vec<Attribute> },
    Rest { duration: Option<String> },
    Tab { fret: u8, string: u8, duration: Option<String>, attributes: Vec<Attribute> },
    Percussion { key: String, duration: Option<String>, attributes: Vec<Attribute> },
    /// `p` events played in the time of `q`.
    Tuplet { content: Voice, p: u64, q: u64 },
}

/// The events of one melodic line.
#[derive(Debug)]
pub struct Voice {
    pub events: Vec<Event>,
}

/// One statement of a measure.
#[derive(Debug)]
pub enum Statement {
    Assignment { staff_id: String, voices: Vec<Voice> },
    LocalMeta(Vec<(String, Value)>),
}

/// One item of a score.
#[derive(Debug)]
pub enum TopLevel {
    Meta(Vec<(String, Value)>),
    Def { id: String, label: String, attributes: Vec<(String, Value)> },
    Measure { id: Option<i64>, content: Vec<Statement> },
    Import(String),
}

/// A parsed score.
#[derive(Debug)]
pub struct Score {
    pub items: Vec<TopLevel>,
}

/// The mathematical value of a [`Value`].
pub enum ValueView {
    Str(Seq<char>),
    Num(i64),
    Float(Seq<char>),
    Id(Seq<char>),
    Array(Seq<ValueView>),
}

/// The mathematical value of an [`Attribute`].
pub struct AttributeView {
    pub name: Seq<char>,
    pub args: Seq<ValueView>,
}

/// The mathematical value of an [`Event`].
pub enum EventView {
    Note { pitch: Seq<char>, duration: Option<Seq<char>>, attributes: Seq<AttributeView> },
    Chord { notes: Seq<Seq<char>>, duration: Option<Seq<char>>, attributes: Seq<AttributeView> },
    Rest { duration: Option<Seq<char>> },
    Tab { fret: u8, string: u8, duration: Option<Seq<char>>, attributes: Seq<AttributeView> },
    Percussion { key: Seq<char>, duration: Option<Seq<char>>, attributes: Seq<AttributeView> },
    Tuplet { content: VoiceView, p: u64, q: u64 },
}

/// The mathematical value of a [`Voice`].
pub struct VoiceView {
    pub events: Seq<EventView>,
}

/// The mathematical value of a [`Statement`].
pub enum StatementView {
    Assignment { staff_id: Seq<char>, voices: Seq<VoiceView> },
    LocalMeta(Seq<(Seq<char>, ValueView)>),
}

/// The mathematical value of a [`TopLevel`].
pub enum TopLevelView {
    Meta(Seq<(Seq<char>, ValueView)>),
    Def { id: Seq<char>, label: Seq<char>, attributes: Seq<(Seq<char>, ValueView)> },
    Measure { id: Option<i64>, content: Seq<StatementView> },
    Import(Seq<char>),
}

/// The mathematical value of a [`Score`].
pub struct ScoreView {
    pub items: Seq<TopLevelView>,
}

/// The mathematical value of `v`.
pub open spec fn value_view(v: Value) -> ValueView
    decreases v,
{
    match v {
        Value::Str(s) => ValueView::Str(s@),
        Value::Num(n) => ValueView::Num(n),
        Value::Float(s) => ValueView::Float(s@),
        Value::Id(s) => ValueView::Id(s@),
        Value::Array(a) => ValueView::Array(
            Seq::new(
                a@.len(),
                |i: int|
                    if 0 <= i < a@.len() {
                        value_view(a@[i])
                    } else {
                        ValueView::Num(0)
                    },
            ),
        ),
    }
}

impl DeepView for Value {
    type V = ValueView;

    open spec fn deep_view(&self) -> ValueView {
        value_view(*self)
    }
}

impl DeepView for Attribute {
    type V = AttributeView;

    open spec fn deep_view(&self) -> AttributeView {
        AttributeView { name: self.name@, args: self.args.deep_view() }
    }
}

/// The mathematical value of `e`.
pub open spec fn event_view(e: Event) -> EventView
    decreases e,
{
    match e {
        Event::Note { pitch, duration, attributes } => EventView::Note {
            pitch: pitch@,
            duration: duration.deep_view(),
            attributes: attributes.deep_view(),
        },
        Event::Chord { notes, duration, attributes } => EventView::Chord {
            notes: notes.deep_view(),
            duration: duration.deep_view(),
            attributes: attributes.deep_view(),
        },
        Event::Rest { duration } => EventView::Rest { duration: duration.deep_view() },
        Event::Tab { fret, string, duration, attributes } => EventView::Tab {
            fret,
            string,
            duration: duration.deep_view(),
            attributes: attributes.deep_view(),
        },
        Event::Percussion { key, duration, attributes } => EventView::Percussion {
            key: key@,
            duration: duration.deep_view(),
            attributes: attributes.deep_view(),
        },
        Event::Tuplet { content, p, q } => EventView::Tuplet {
            content: VoiceView {
                events: Seq::new(
                    content.events@.len(),
                    |i: int|
                        if 0 <= i < content.events@.len() {
                            event_view(content.events@[i])
                        } else {
                            EventView::Rest { duration: None }
                        },
                ),
            },
            p,
            q,
        },
    }
}

impl DeepView for Event {
    type V = EventView;

    open spec fn deep_view(&self) -> EventView {
        event_view(*self)
    }
}

impl DeepView for Voice {
    type V = VoiceView;

    open spec fn deep_view(&self) -> VoiceView {
        VoiceView { events: self.events.deep_view() }
    }
}

impl DeepView for Statement {
    type V = StatementView;

    open spec fn deep_view(&self) -> StatementView {
        match self {
            Statement::Assignment { staff_id, voices } => StatementView::Assignment {
                staff_id: staff_id@,
                voices: voices.deep_view(),
            },
            Statement::LocalMeta(entries) => StatementView::LocalMeta(entries.deep_view()),
        }
    }
}

impl DeepView for TopLevel {
    type V = TopLevelView;

    open spec fn deep_view(&self) -> TopLevelView {
        match self {
            TopLevel::Meta(entries) => TopLevelView::Meta(entries.deep_view()),
            TopLevel::Def { id, label, attributes } => TopLevelView::Def {
                id: id@,
                label: label@,
                attributes: attributes.deep_view(),
            },
            TopLevel::Measure { id, content } => TopLevelView::Measure {
                id: *id,
                content: content.deep_view(),
            },
            TopLevel::Import(path) => TopLevelView::Import(path@),
        }
    }
}

impl DeepView for Score {
    type V = ScoreView;

    open spec fn deep_view(&self) -> ScoreView {
        ScoreView { items: self.items.deep_view() }
    }
}

/// The view of a tuplet is the view of its voice.
pub proof fn lemma_tuplet_view(content: Voice, p: u64, q: u64)
    ensures
        (Event::Tuplet { content, p, q }).deep_view() == (EventView::Tuplet {
            content: content.deep_view(),
            p,
            q,
        }),
{
    let e = Event::Tuplet { content, p, q };
    assert(event_view(e)->Tuplet_content.events =~= content.events.deep_view());
}

/// The view of an array value is the sequence of its elements' views.
pub proof fn lemma_array_view(a: Vec<Value>)
    ensures
        Value::Array(a).deep_view() == ValueView::Array(a.deep_view()),
{
    assert(value_view(Value::Array(a))->Array_0 =~= a.deep_view());
}

/// The token at position `p`, if there is one.
pub open spec fn token_at(toks: Seq<(TokenView, Span)>, p: int) -> Option<TokenView> {
    if 0 <= p < toks.len() {
        Some(toks[p].0)
    } else {
        None
    }
}

/// The fret of a tab coordinate `N-N`: the number before the first dash, or
/// `0` where that is no number up to 255.
pub open spec fn tab_fret(t: Seq<char>) -> u8 {
    match decimal_upto(t.subrange(0, find_char(t, '-', 0)), 255) {
        Some(n) => n as u8,
        None => 0,
    }
}

/// The string of a tab coordinate `N-N`: the number between the first dash
/// and the next, or `1` where that is no number up to 255.
pub open spec fn tab_string(t: Seq<char>) -> u8 {
    let d = find_char(t, '-', 0);
    if d >= t.len() {
        1
    } else {
        match decimal_upto(t.subrange(d + 1, find_char(t, '-', d + 1)), 255) {
            Some(n) => n as u8,
            None => 1,
        }
    }
}

/// `value := string | float | integer | id`
pub open spec fn value_at(toks: Seq<(TokenView, Span)>, p: int) -> Option<(ValueView, int)> {
    match token_at(toks, p) {
        Some(TokenView::StringLit(s)) => Some((ValueView::Str(s), p + 1)),
        Some(TokenView::Float(s)) => Some((ValueView::Float(s), p + 1)),
        Some(TokenView::Integer(n)) => Some((ValueView::Num(n), p + 1)),
        Some(TokenView::Identifier(s)) => Some((ValueView::Id(s), p + 1)),
        _ => None,
    }
}

/// `( ',' value )*`, appended to `acc`.
pub open spec fn values_after(toks: Seq<(TokenView, Span)>, p: int, acc: Seq<ValueView>) -> (
    Seq<ValueView>,
    int,
)
    decreases toks.len() - p,
{
    if token_at(toks, p) == Some(TokenView::Comma) {
        match value_at(toks, p + 1) {
            Some((v, q)) => values_after(toks, q, acc.push(v)),
            None => (acc, p),
        }
    } else {
        (acc, p)
    }
}

/// `'(' value ( ',' value )* ')'`
pub open spec fn args_at(toks: Seq<(TokenView, Span)>, p: int) -> Option<(Seq<ValueView>, int)> {
    if token_at(toks, p) == Some(TokenView::LParen) {
        match value_at(toks, p + 1) {
            Some((v, q)) => {
                let (vs, r) = values_after(toks, q, seq![v]);
                if token_at(toks, r) == Some(TokenView::RParen) {
                    Some((vs, r + 1))
                } else {
                    None
                }
            },
            None => None,
        }
    } else {
        None
    }
}

/// `attribute := '.' id ( '(' value ( ',' value )* ')' )?`
pub open spec fn attribute_at(toks: Seq<(TokenView, Span)>, p: int) -> Option<(AttributeView, int)> {
    if token_at(toks, p) == Some(TokenView::Dot) {
        match token_at(toks, p + 1) {
            Some(TokenView::Identifier(name)) => match args_at(toks, p + 2) {
                Some((args, q)) => Some((AttributeView { name: name, args }, q)),
                None => Some((AttributeView { name: name, args: seq![] }, p + 2)),
            },
            _ => None,
        }
    } else {
        None
    }
}

/// `attribute*`, appended to `acc`.
pub open spec fn attributes_at(toks: Seq<(TokenView, Span)>, p: int, acc: Seq<AttributeView>) -> (
    Seq<AttributeView>,
    int,
)
    decreases toks.len() - p,
{
    match attribute_at(toks, p) {
        Some((a, q)) => if p < q <= toks.len() {
            attributes_at(toks, q, acc.push(a))
        } else {
            (acc, p)
        },
        None => (acc, p),
    }
}

/// `duration?`
pub open spec fn duration_at(toks: Seq<(TokenView, Span)>, p: int) -> (Option<Seq<char>>, int) {
    match token_at(toks, p) {
        Some(TokenView::DurationLit(d)) => (Some(d), p + 1),
        _ => (None, p),
    }
}

/// `pitch*`, appended to `acc`.
pub open spec fn pitches_at(toks: Seq<(TokenView, Span)>, p: int, acc: Seq<Seq<char>>) -> (
    Seq<Seq<char>>,
    int,
)
    decreases toks.len() - p,
{
    match token_at(toks, p) {
        Some(TokenView::PitchLit(s)) => pitches_at(toks, p + 1, acc.push(s)),
        _ => (acc, p),
    }
}

/// The number after the colon of a duration literal without dots.
pub open spec fn ratio_numerator(d: Seq<char>) -> Option<u64> {
    if d.len() > 0 && d[0] == ':' {
        match decimal_upto(d.skip(1), u64::MAX as nat) {
            Some(n) => Some(n as u64),
            None => None,
        }
    } else {
        None
    }
}

/// The ratio of a tuplet, `':' integer '/' integer`. The colon and the first
/// number arrive either as one duration literal or as two tokens.
pub open spec fn ratio_at(toks: Seq<(TokenView, Span)>, p: int) -> Option<((u64, u64), int)> {
    match token_at(toks, p) {
        Some(TokenView::DurationLit(d)) => match (
            ratio_numerator(d),
            token_at(toks, p + 1),
            token_at(toks, p + 2),
        ) {
            (Some(n), Some(TokenView::Slash), Some(TokenView::Integer(m))) => if m >= 0 {
                Some(((n, m as u64), p + 3))
            } else {
                None
            },
            _ => None,
        },
        Some(TokenView::Colon) => match (
            token_at(toks, p + 1),
            token_at(toks, p + 2),
            token_at(toks, p + 3),
        ) {
            (Some(TokenView::Integer(n)), Some(TokenView::Slash), Some(TokenView::Integer(m))) => if n >= 0
                && m >= 0 {
                Some(((n as u64, m as u64), p + 4))
            } else {
                None
            },
            _ => None,
        },
        _ => None,
    }
}

/// `event := tuplet | rest | chord | note | tab | percussion`
///
/// ```text
/// tuplet     := '(' event* ')' ':' integer '/' integer
/// rest       := 'r' duration?
/// chord      := '[' pitch+ ']' duration? attribute*
/// note       := pitch duration? attribute*
/// tab        := tab_lit duration? attribute*
/// percussion := id duration? attribute*      (id other than "r")
/// ```
pub open spec fn event_at(toks: Seq<(TokenView, Span)>, p: int) -> Option<(EventView, int)>
    decreases toks.len() - p, 0nat,
{
    match token_at(toks, p) {
        Some(TokenView::LParen) => {
            let (events, q) = events_at(toks, p + 1, seq![]);
            if token_at(toks, q) == Some(TokenView::RParen) {
                match ratio_at(toks, q + 1) {
                    Some(((n, m), r)) => Some(
                        (EventView::Tuplet { content: VoiceView { events }, p: n, q: m }, r),
                    ),
                    None => None,
                }
            } else {
                None
            }
        },
        Some(TokenView::Identifier(s)) => {
            let (duration, q) = duration_at(toks, p + 1);
            if s == "r"@ {
                Some((EventView::Rest { duration }, q))
            } else {
                let (attributes, r) = attributes_at(toks, q, seq![]);
                Some((EventView::Percussion { key: s, duration, attributes }, r))
            }
        },
        Some(TokenView::LBracket) => {
            let (notes, q) = pitches_at(toks, p + 1, seq![]);
            if notes.len() > 0 && token_at(toks, q) == Some(TokenView::RBracket) {
                let (duration, r) = duration_at(toks, q + 1);
                let (attributes, t) = attributes_at(toks, r, seq![]);
                Some((EventView::Chord { notes, duration, attributes }, t))
            } else {
                None
            }
        },
        Some(TokenView::PitchLit(s)) => {
            let (duration, q) = duration_at(toks, p + 1);
            let (attributes, r) = attributes_at(toks, q, seq![]);
            Some((EventView::Note { pitch: s, duration, attributes }, r))
        },
        Some(TokenView::TabLit(s)) => {
            let (duration, q) = duration_at(toks, p + 1);
            let (attributes, r) = attributes_at(toks, q, seq![]);
            Some(
                (
                    EventView::Tab {
                        fret: tab_fret(s),
                        string: tab_string(s),
                        duration,
                        attributes,
                    },
                    r,
                ),
            )
        },
        _ => None,
    }
}

/// `event*`, appended to `acc`.
pub open spec fn events_at(toks: Seq<(TokenView, Span)>, p: int, acc: Seq<EventView>) -> (
    Seq<EventView>,
    int,
)
    decreases toks.len() - p, 1nat,
{
    if 0 <= p < toks.len() {
        match event_at(toks, p) {
            Some((e, q)) => if p < q <= toks.len() {
                events_at(toks, q, acc.push(e))
            } else {
                (acc, p)
            },
            None => (acc, p),
        }
    } else {
        (acc, p)
    }
}

/// `( '|' voice )*`, appended to `acc`, with `voice := event*`.
pub open spec fn voices_after(toks: Seq<(TokenView, Span)>, p: int, acc: Seq<VoiceView>) -> (
    Seq<VoiceView>,
    int,
)
    decreases toks.len() - p,
{
    if token_at(toks, p) == Some(TokenView::Pipe) {
        let (events, q) = events_at(toks, p + 1, seq![]);
        if p < q <= toks.len() {
            voices_after(toks, q, acc.push(VoiceView { events }))
        } else {
            (acc, p)
        }
    } else {
        (acc, p)
    }
}

/// `assignment := id ':' voice ( '|' voice )* '|'?`
///
/// Every bar line is taken by the repetition, so that a trailing one opens a
/// last, empty voice.
pub open spec fn assignment_at(toks: Seq<(TokenView, Span)>, p: int) -> Option<(StatementView, int)> {
    match (token_at(toks, p), token_at(toks, p + 1)) {
        (Some(TokenView::Identifier(id)), Some(TokenView::Colon)) => {
            let (events, q) = events_at(toks, p + 2, seq![]);
            let (voices, r) = voices_after(toks, q, seq![VoiceView { events }]);
            Some((StatementView::Assignment { staff_id: id, voices }, r))
        },
        _ => None,
    }
}

/// `key_value := id ':' value`
pub open spec fn entry_at(toks: Seq<(TokenView, Span)>, p: int) -> Option<
    ((Seq<char>, ValueView), int),
> {
    match (token_at(toks, p), token_at(toks, p + 1), value_at(toks, p + 2)) {
        (Some(TokenView::Identifier(k)), Some(TokenView::Colon), Some((v, q))) => Some(((k, v), q)),
        _ => None,
    }
}

/// `( ',' key_value )*`, appended to `acc`.
pub open spec fn entries_after(
    toks: Seq<(TokenView, Span)>,
    p: int,
    acc: Seq<(Seq<char>, ValueView)>,
) -> (Seq<(Seq<char>, ValueView)>, int)
    decreases toks.len() - p,
{
    if token_at(toks, p) == Some(TokenView::Comma) {
        match entry_at(toks, p + 1) {
            Some((e, q)) => entries_after(toks, q, acc.push(e)),
            None => (acc, p),
        }
    } else {
        (acc, p)
    }
}

/// `meta_block := 'meta' '{' key_value ( ',' key_value )* '}'`
pub open spec fn meta_at(toks: Seq<(TokenView, Span)>, p: int) -> Option<
    (Seq<(Seq<char>, ValueView)>, int),
> {
    if token_at(toks, p) == Some(TokenView::KwMeta) && token_at(toks, p + 1) == Some(TokenView::LBrace) {
        match entry_at(toks, p + 2) {
            Some((e, q)) => {
                let (entries, r) = entries_after(toks, q, seq![e]);
                if token_at(toks, r) == Some(TokenView::RBrace) {
                    Some((entries, r + 1))
                } else {
                    None
                }
            },
            None => None,
        }
    } else {
        None
    }
}

/// `statement := assignment | meta_block`
pub open spec fn statement_at(toks: Seq<(TokenView, Span)>, p: int) -> Option<(StatementView, int)> {
    match assignment_at(toks, p) {
        Some(r) => Some(r),
        None => match meta_at(toks, p) {
            Some((entries, q)) => Some((StatementView::LocalMeta(entries), q)),
            None => None,
        },
    }
}

/// `statement*`, appended to `acc`.
pub open spec fn statements_at(toks: Seq<(TokenView, Span)>, p: int, acc: Seq<StatementView>) -> (
    Seq<StatementView>,
    int,
)
    decreases toks.len() - p,
{
    match statement_at(toks, p) {
        Some((s, q)) => if p < q <= toks.len() {
            statements_at(toks, q, acc.push(s))
        } else {
            (acc, p)
        },
        None => (acc, p),
    }
}

/// `def_attr := id '=' value`
pub open spec fn def_attr_at(toks: Seq<(TokenView, Span)>, p: int) -> Option<
    ((Seq<char>, ValueView), int),
> {
    match (token_at(toks, p), token_at(toks, p + 1), value_at(toks, p + 2)) {
        (Some(TokenView::Identifier(k)), Some(TokenView::Equals), Some((v, q))) => Some(((k, v), q)),
        _ => None,
    }
}

/// `def_attr*`, appended to `acc`.
pub open spec fn def_attrs_at(
    toks: Seq<(TokenView, Span)>,
    p: int,
    acc: Seq<(Seq<char>, ValueView)>,
) -> (Seq<(Seq<char>, ValueView)>, int)
    decreases toks.len() - p,
{
    match def_attr_at(toks, p) {
        Some((a, q)) => if p < q <= toks.len() {
            def_attrs_at(toks, q, acc.push(a))
        } else {
            (acc, p)
        },
        None => (acc, p),
    }
}

/// `def_block := 'def' id string? def_attr*`
pub open spec fn def_at(toks: Seq<(TokenView, Span)>, p: int) -> Option<(TopLevelView, int)> {
    match (token_at(toks, p), token_at(toks, p + 1)) {
        (Some(TokenView::KwDef), Some(TokenView::Identifier(id))) => {
            let (label, q) = match token_at(toks, p + 2) {
                Some(TokenView::StringLit(l)) => (l, p + 3),
                _ => (Seq::<char>::empty(), p + 2),
            };
            let (attributes, r) = def_attrs_at(toks, q, seq![]);
            Some((TopLevelView::Def { id: id, label, attributes }, r))
        },
        _ => None,
    }
}

/// `measure := 'measure' integer? '{' statement* '}'`
pub open spec fn measure_at(toks: Seq<(TokenView, Span)>, p: int) -> Option<(TopLevelView, int)> {
    if token_at(toks, p) == Some(TokenView::KwMeasure) {
        let (id, q) = match token_at(toks, p + 1) {
            Some(TokenView::Integer(n)) => (Some(n), p + 2),
            _ => (None, p + 1),
        };
        if token_at(toks, q) == Some(TokenView::LBrace) {
            let (content, r) = statements_at(toks, q + 1, seq![]);
            if token_at(toks, r) == Some(TokenView::RBrace) {
                Some((TopLevelView::Measure { id, content }, r + 1))
            } else {
                None
            }
        } else {
            None
        }
    } else {
        None
    }
}

/// `top_level := meta_block | def_block | measure_block`
pub open spec fn item_at(toks: Seq<(TokenView, Span)>, p: int) -> Option<(TopLevelView, int)> {
    match meta_at(toks, p) {
        Some((entries, q)) => Some((TopLevelView::Meta(entries), q)),
        None => match def_at(toks, p) {
            Some(r) => Some(r),
            None => measure_at(toks, p),
        },
    }
}

/// `top_level*`, appended to `acc`.
pub open spec fn items_at(toks: Seq<(TokenView, Span)>, p: int, acc: Seq<TopLevelView>) -> (
    Seq<TopLevelView>,
    int,
)
    decreases toks.len() - p,
{
    match item_at(toks, p) {
        Some((t, q)) => if p < q <= toks.len() {
            items_at(toks, q, acc.push(t))
        } else {
            (acc, p)
        },
        None => (acc, p),
    }
}

/// The outcome of parsing `score := 'tenuto' '{' top_level* '}'`: the score,
/// unless the opening of the wrapper is missing, and the position of the
/// token that the grammar does not admit, if there is one. After the opening
/// the score holds the items up to that token.
pub open spec fn parse_outcome(toks: Seq<(TokenView, Span)>) -> (Option<ScoreView>, Option<int>) {
    if token_at(toks, 0) != Some(TokenView::KwTenuto) {
        (None, Some(0))
    } else if token_at(toks, 1) != Some(TokenView::LBrace) {
        (None, Some(1))
    } else {
        let (items, p) = items_at(toks, 2, seq![]);
        if token_at(toks, p) == Some(TokenView::RBrace) {
            (Some(ScoreView { items }), None)
        } else {
            (Some(ScoreView { items }), Some(p))
        }
    }
}

/// Pushing onto a vector pushes the element's view onto the vector's view.
proof fn lemma_pushed<T: DeepView>(before: Vec<T>, after: Vec<T>, x: T)
    requires
        after@ == before@.push(x),
    ensures
        after.deep_view() == before.deep_view().push(x.deep_view()),
{
    assert(after.deep_view() =~= before.deep_view().push(x.deep_view()));
}

/// An empty vector has an empty view.
proof fn lemma_empty<T: DeepView>(v: Vec<T>)
    requires
        v@.len() == 0,
    ensures
        v.deep_view() == Seq::<T::V>::empty(),
{
    assert(v.deep_view() =~= Seq::<T::V>::empty());
}

/// A vector of one element has the view of that element.
proof fn lemma_single<T: DeepView>(v: Vec<T>, x: T)
    requires
        v@ == seq![x],
    ensures
        v.deep_view() == seq![x.deep_view()],
{
    assert(v.deep_view() =~= seq![x.deep_view()]);
}

fn peek(toks: &Vec<(Token, Span)>, p: usize) -> (r: Option<&Token>)
    ensures
        match r {
            Some(t) => token_at(toks.deep_view(), p as int) == Some(t.deep_view()) && p < toks.len(),
            None => token_at(toks.deep_view(), p as int) is None && p >= toks.len(),
        },
{
    if p < toks.len() {
        Some(&toks[p].0)
    } else {
        None
    }
}

fn peek_ahead(toks: &Vec<(Token, Span)>, p: usize, k: usize) -> (r: Option<&Token>)
    requires
        p <= toks.len(),
    ensures
        match r {
            Some(t) => token_at(toks.deep_view(), p + k) == Some(t.deep_view()) && p + k < toks.len(),
            None => token_at(toks.deep_view(), p + k) is None && p + k >= toks.len(),
        },
{
    if k < toks.len() - p {
        Some(&toks[p + k].0)
    } else {
        None
    }
}

fn parse_value(toks: &Vec<(Token, Span)>, p: usize) -> (r: Option<(Value, usize)>)
    ensures
        match r {
            Some((v, q)) => value_at(toks.deep_view(), p as int) == Some((v.deep_view(), q as int)) && p < q
                <= toks.len(),
            None => value_at(toks.deep_view(), p as int) is None,
        },
{
    match peek(toks, p) {
        Some(Token::StringLit(s)) => Some((Value::Str(s.clone()), p + 1)),
        Some(Token::Float(s)) => Some((Value::Float(s.clone()), p + 1)),
        Some(Token::Integer(n)) => Some((Value::Num(*n), p + 1)),
        Some(Token::Identifier(s)) => Some((Value::Id(s.clone()), p + 1)),
        _ => None,
    }
}

fn parse_values_after(toks: &Vec<(Token, Span)>, start: usize, first: Vec<Value>) -> (r: (
    Vec<Value>,
    usize,
))
    requires
        start <= toks.len(),
    ensures
        (r.0.deep_view(), r.1 as int) == values_after(toks.deep_view(), start as int, first.deep_view()),
        start <= r.1 <= toks.len(),
{
    let mut acc = first;
    let mut p = start;
    loop
        invariant
            start <= p <= toks.len(),
            values_after(toks.deep_view(), p as int, acc.deep_view()) == values_after(
                toks.deep_view(),
                start as int,
                first.deep_view(),
            ),
        decreases toks.len() - p,
    {
        match peek(toks, p) {
            Some(Token::Comma) => match parse_value(toks, p + 1) {
                Some((v, q)) => {
                    let ghost before = acc;
                    acc.push(v);
                    proof {
                        lemma_pushed(before, acc, v);
                    }
                    p = q;
                },
                None => {
                    return (acc, p);
                },
            },
            _ => {
                return (acc, p);
            },
        }
    }
}

fn parse_args(toks: &Vec<(Token, Span)>, p: usize) -> (r: Option<(Vec<Value>, usize)>)
    ensures
        match r {
            Some((v, q)) => args_at(toks.deep_view(), p as int) == Some((v.deep_view(), q as int)) && p < q
                <= toks.len(),
            None => args_at(toks.deep_view(), p as int) is None,
        },
{
    match peek(toks, p) {
        Some(Token::LParen) => match parse_value(toks, p + 1) {
            Some((v, q)) => {
                let mut first: Vec<Value> = Vec::new();
                first.push(v);
                proof {
                    lemma_single(first, v);
                }
                let (vs, r) = parse_values_after(toks, q, first);
                match peek(toks, r) {
                    Some(Token::RParen) => Some((vs, r + 1)),
                    _ => None,
                }
            },
            None => None,
        },
        _ => None,
    }
}

fn parse_attribute(toks: &Vec<(Token, Span)>, p: usize) -> (r: Option<(Attribute, usize)>)
    ensures
        match r {
            Some((a, q)) => attribute_at(toks.deep_view(), p as int) == Some((a.deep_view(), q as int)) && p
                < q <= toks.len(),
            None => attribute_at(toks.deep_view(), p as int) is None,
        },
{
    match peek(toks, p) {
        Some(Token::Dot) => match peek(toks, p + 1) {
            Some(Token::Identifier(name)) => match parse_args(toks, p + 2) {
                Some((args, q)) => Some((Attribute { name: name.clone(), args }, q)),
                None => {
                    let args: Vec<Value> = Vec::new();
                    proof {
                        lemma_empty(args);
                    }
                    Some((Attribute { name: name.clone(), args }, p + 2))
                },
            },
            _ => None,
        },
        _ => None,
    }
}

fn parse_attributes(toks: &Vec<(Token, Span)>, start: usize) -> (r: (Vec<Attribute>, usize))
    requires
        start <= toks.len(),
    ensures
        (r.0.deep_view(), r.1 as int) == attributes_at(toks.deep_view(), start as int, seq![]),
        start <= r.1 <= toks.len(),
{
    let mut acc: Vec<Attribute> = Vec::new();
    let mut p = start;
    proof {
        lemma_empty(acc);
    }
    loop
        invariant
            start <= p <= toks.len(),
            attributes_at(toks.deep_view(), p as int, acc.deep_view()) == attributes_at(
                toks.deep_view(),
                start as int,
                seq![],
            ),
        decreases toks.len() - p,
    {
        match parse_attribute(toks, p) {
            Some((a, q)) => {
                let ghost before = acc;
                acc.push(a);
                proof {
                    lemma_pushed(before, acc, a);
                }
                p = q;
            },
            None => {
                return (acc, p);
            },
        }
    }
}

fn parse_duration(toks: &Vec<(Token, Span)>, p: usize) -> (r: (Option<String>, usize))
    requires
        p <= toks.len(),
    ensures
        (r.0.deep_view(), r.1 as int) == duration_at(toks.deep_view(), p as int),
        p <= r.1 <= toks.len(),
{
    match peek(toks, p) {
        Some(Token::DurationLit(d)) => (Some(d.clone()), p + 1),
        _ => (None, p),
    }
}

fn parse_pitches(toks: &Vec<(Token, Span)>, start: usize) -> (r: (Vec<String>, usize))
    requires
        start <= toks.len(),
    ensures
        (r.0.deep_view(), r.1 as int) == pitches_at(toks.deep_view(), start as int, seq![]),
        start <= r.1 <= toks.len(),
{
    let mut acc: Vec<String> = Vec::new();
    let mut p = start;
    proof {
        lemma_empty(acc);
    }
    loop
        invariant
            start <= p <= toks.len(),
            pitches_at(toks.deep_view(), p as int, acc.deep_view()) == pitches_at(
                toks.deep_view(),
                start as int,
                seq![],
            ),
        decreases toks.len() - p,
    {
        match peek(toks, p) {
            Some(Token::PitchLit(s)) => {
                let ghost before = acc;
                let x = s.clone();
                acc.push(x);
                proof {
                    lemma_pushed(before, acc, x);
                }
                p = p + 1;
            },
            _ => {
                return (acc, p);
            },
        }
    }
}

fn read_ratio_numerator(d: &String) -> (r: Option<u64>)
    ensures
        r == ratio_numerator(d@),
{
    let chars = to_chars(d.as_str());
    if chars.len() > 0 && chars[0] == ':' {
        assert(chars@.skip(1) =~= chars@.subrange(1, chars@.len() as int));
        parse_decimal(&chars, 1, chars.len(), u64::MAX)
    } else {
        None
    }
}

fn parse_ratio(toks: &Vec<(Token, Span)>, p: usize) -> (r: Option<((u64, u64), usize)>)
    ensures
        match r {
            Some((pq, q)) => ratio_at(toks.deep_view(), p as int) == Some((pq, q as int)) && p < q
                <= toks.len(),
            None => ratio_at(toks.deep_view(), p as int) is None,
        },
{
    match peek(toks, p) {
        Some(Token::DurationLit(d)) => match (
            read_ratio_numerator(d),
            peek_ahead(toks, p, 1),
            peek_ahead(toks, p, 2),
        ) {
            (Some(n), Some(Token::Slash), Some(Token::Integer(m))) => if *m >= 0 {
                Some(((n, *m as u64), p + 3))
            } else {
                None
            },
            _ => None,
        },
        Some(Token::Colon) => match (
            peek_ahead(toks, p, 1),
            peek_ahead(toks, p, 2),
            peek_ahead(toks, p, 3),
        ) {
            (Some(Token::Integer(n)), Some(Token::Slash), Some(Token::Integer(m))) => if *n >= 0
                && *m >= 0 {
                Some(((*n as u64, *m as u64), p + 4))
            } else {
                None
            },
            _ => None,
        },
        _ => None,
    }
}

fn read_tab(t: &String) -> (r: (u8, u8))
    ensures
        r.0 == tab_fret(t@),
        r.1 == tab_string(t@),
{
    let chars = to_chars(t.as_str());
    let d = index_of(&chars, '-', 0);
    let fret: u8 = match parse_decimal(&chars, 0, d, 255) {
        Some(n) => n as u8,
        None => 0,
    };
    if d >= chars.len() {
        (fret, 1)
    } else {
        let e = index_of(&chars, '-', d + 1);
        let string: u8 = match parse_decimal(&chars, d + 1, e, 255) {
            Some(n) => n as u8,
            None => 1,
        };
        (fret, string)
    }
}

fn parse_event(toks: &Vec<(Token, Span)>, p: usize) -> (r: Option<(Event, usize)>)
    ensures
        match r {
            Some((e, q)) => event_at(toks.deep_view(), p as int) == Some((e.deep_view(), q as int)) && p < q
                <= toks.len(),
            None => event_at(toks.deep_view(), p as int) is None,
        },
    decreases toks.len() - p, 0nat,
{
    match peek(toks, p) {
        Some(Token::LParen) => {
            let (events, q) = parse_events(toks, p + 1);
            match peek(toks, q) {
                Some(Token::RParen) => match parse_ratio(toks, q + 1) {
                    Some(((n, m), r)) => {
                        let content = Voice { events };
                        proof {
                            lemma_tuplet_view(content, n, m);
                        }
                        Some((Event::Tuplet { content, p: n, q: m }, r))
                    },
                    None => None,
                },
                _ => None,
            }
        },
        Some(Token::Identifier(s)) => {
            let (duration, q) = parse_duration(toks, p + 1);
            if same_text(s.as_str(), "r") {
                Some((Event::Rest { duration }, q))
            } else {
                let (attributes, r) = parse_attributes(toks, q);
                Some((Event::Percussion { key: s.clone(), duration, attributes }, r))
            }
        },
        Some(Token::LBracket) => {
            let (notes, q) = parse_pitches(toks, p + 1);
            if notes.len() == 0 {
                return None;
            }
            match peek(toks, q) {
                Some(Token::RBracket) => {
                    let (duration, r) = parse_duration(toks, q + 1);
                    let (attributes, t) = parse_attributes(toks, r);
                    Some((Event::Chord { notes, duration, attributes }, t))
                },
                _ => None,
            }
        },
        Some(Token::PitchLit(s)) => {
            let (duration, q) = parse_duration(toks, p + 1);
            let (attributes, r) = parse_attributes(toks, q);
            Some((Event::Note { pitch: s.clone(), duration, attributes }, r))
        },
        Some(Token::TabLit(s)) => {
            let (fret, string) = read_tab(s);
            let (duration, q) = parse_duration(toks, p + 1);
            let (attributes, r) = parse_attributes(toks, q);
            Some((Event::Tab { fret, string, duration, attributes }, r))
        },
        _ => None,
    }
}

fn parse_events(toks: &Vec<(Token, Span)>, start: usize) -> (r: (Vec<Event>, usize))
    requires
        start <= toks.len(),
    ensures
        (r.0.deep_view(), r.1 as int) == events_at(toks.deep_view(), start as int, seq![]),
        start <= r.1 <= toks.len(),
    decreases toks.len() - start, 1nat,
{
    let mut acc: Vec<Event> = Vec::new();
    let mut p = start;
    proof {
        lemma_empty(acc);
    }
    loop
        invariant
            start <= p <= toks.len(),
            events_at(toks.deep_view(), p as int, acc.deep_view()) == events_at(toks.deep_view(), start as int, seq![]),
        decreases toks.len() - p,
    {
        if p >= toks.len() {
            return (acc, p);
        }
        match parse_event(toks, p) {
            Some((e, q)) => {
                let ghost before = acc;
                acc.push(e);
                proof {
                    lemma_pushed(before, acc, e);
                }
                p = q;
            },
            None => {
                return (acc, p);
            },
        }
    }
}

fn parse_voices_after(toks: &Vec<(Token, Span)>, start: usize, first: Vec<Voice>) -> (r: (
    Vec<Voice>,
    usize,
))
    requires
        start <= toks.len(),
    ensures
        (r.0.deep_view(), r.1 as int) == voices_after(toks.deep_view(), start as int, first.deep_view()),
        start <= r.1 <= toks.len(),
{
    let mut acc = first;
    let mut p = start;
    loop
        invariant
            start <= p <= toks.len(),
            voices_after(toks.deep_view(), p as int, acc.deep_view()) == voices_after(
                toks.deep_view(),
                start as int,
                first.deep_view(),
            ),
        decreases toks.len() - p,
    {
        match peek(toks, p) {
            Some(Token::Pipe) => {
                let (events, q) = parse_events(toks, p + 1);
                let voice = Voice { events };
                let ghost before = acc;
                acc.push(voice);
                proof {
                    lemma_pushed(before, acc, voice);
                }
                p = q;
            },
            _ => {
                return (acc, p);
            },
        }
    }
}

fn parse_assignment(toks: &Vec<(Token, Span)>, p: usize) -> (r: Option<(Statement, usize)>)
    ensures
        match r {
            Some((s, q)) => assignment_at(toks.deep_view(), p as int) == Some((s.deep_view(), q as int)) && p
                < q <= toks.len(),
            None => assignment_at(toks.deep_view(), p as int) is None,
        },
{
    match peek(toks, p) {
        Some(Token::Identifier(id)) => match peek(toks, p + 1) {
            Some(Token::Colon) => {
                let (events, q) = parse_events(toks, p + 2);
                let voice = Voice { events };
                let mut first: Vec<Voice> = Vec::new();
                first.push(voice);
                proof {
                    lemma_single(first, voice);
                }
                let (voices, r) = parse_voices_after(toks, q, first);
                Some((Statement::Assignment { staff_id: id.clone(), voices }, r))
            },
            _ => None,
        },
        _ => None,
    }
}

fn parse_entry(toks: &Vec<(Token, Span)>, p: usize) -> (r: Option<((String, Value), usize)>)
    ensures
        match r {
            Some((e, q)) => entry_at(toks.deep_view(), p as int) == Some((e.deep_view(), q as int)) && p < q
                <= toks.len(),
            None => entry_at(toks.deep_view(), p as int) is None,
        },
{
    match peek(toks, p) {
        Some(Token::Identifier(k)) => match peek(toks, p + 1) {
            Some(Token::Colon) => match parse_value(toks, p + 2) {
                Some((v, q)) => Some(((k.clone(), v), q)),
                None => None,
            },
            _ => None,
        },
        _ => None,
    }
}

fn parse_entries_after(
    toks: &Vec<(Token, Span)>,
    start: usize,
    first: Vec<(String, Value)>,
) -> (r: (Vec<(String, Value)>, usize))
    requires
        start <= toks.len(),
    ensures
        (r.0.deep_view(), r.1 as int) == entries_after(toks.deep_view(), start as int, first.deep_view()),
        start <= r.1 <= toks.len(),
{
    let mut acc = first;
    let mut p = start;
    loop
        invariant
            start <= p <= toks.len(),
            entries_after(toks.deep_view(), p as int, acc.deep_view()) == entries_after(
                toks.deep_view(),
                start as int,
                first.deep_view(),
            ),
        decreases toks.len() - p,
    {
        match peek(toks, p) {
            Some(Token::Comma) => match parse_entry(toks, p + 1) {
                Some((e, q)) => {
                    let ghost before = acc;
                    acc.push(e);
                    proof {
                        lemma_pushed(before, acc, e);
                    }
                    p = q;
                },
                None => {
                    return (acc, p);
                },
            },
            _ => {
                return (acc, p);
            },
        }
    }
}

fn parse_meta(toks: &Vec<(Token, Span)>, p: usize) -> (r: Option<(Vec<(String, Value)>, usize)>)
    ensures
        match r {
            Some((m, q)) => meta_at(toks.deep_view(), p as int) == Some((m.deep_view(), q as int)) && p < q
                <= toks.len(),
            None => meta_at(toks.deep_view(), p as int) is None,
        },
{
    match peek(toks, p) {
        Some(Token::KwMeta) => match peek(toks, p + 1) {
            Some(Token::LBrace) => match parse_entry(toks, p + 2) {
                Some((e, q)) => {
                    let mut first: Vec<(String, Value)> = Vec::new();
                    first.push(e);
                    proof {
                        lemma_single(first, e);
                    }
                    let (entries, r) = parse_entries_after(toks, q, first);
                    match peek(toks, r) {
                        Some(Token::RBrace) => Some((entries, r + 1)),
                        _ => None,
                    }
                },
                None => None,
            },
            _ => None,
        },
        _ => None,
    }
}

fn parse_statement(toks: &Vec<(Token, Span)>, p: usize) -> (r: Option<(Statement, usize)>)
    ensures
        match r {
            Some((s, q)) => statement_at(toks.deep_view(), p as int) == Some((s.deep_view(), q as int)) && p
                < q <= toks.len(),
            None => statement_at(toks.deep_view(), p as int) is None,
        },
{
    match parse_assignment(toks, p) {
        Some(r) => Some(r),
        None => match parse_meta(toks, p) {
            Some((entries, q)) => Some((Statement::LocalMeta(entries), q)),
            None => None,
        },
    }
}

fn parse_statements(toks: &Vec<(Token, Span)>, start: usize) -> (r: (Vec<Statement>, usize))
    requires
        start <= toks.len(),
    ensures
        (r.0.deep_view(), r.1 as int) == statements_at(toks.deep_view(), start as int, seq![]),
        start <= r.1 <= toks.len(),
{
    let mut acc: Vec<Statement> = Vec::new();
    let mut p = start;
    proof {
        lemma_empty(acc);
    }
    loop
        invariant
            start <= p <= toks.len(),
            statements_at(toks.deep_view(), p as int, acc.deep_view()) == statements_at(
                toks.deep_view(),
                start as int,
                seq![],
            ),
        decreases toks.len() - p,
    {
        match parse_statement(toks, p) {
            Some((s, q)) => {
                let ghost before = acc;
                acc.push(s);
                proof {
                    lemma_pushed(before, acc, s);
                }
                p = q;
            },
            None => {
                return (acc, p);
            },
        }
    }
}

fn parse_def_attr(toks: &Vec<(Token, Span)>, p: usize) -> (r: Option<((String, Value), usize)>)
    ensures
        match r {
            Some((e, q)) => def_attr_at(toks.deep_view(), p as int) == Some((e.deep_view(), q as int)) && p
                < q <= toks.len(),
            None => def_attr_at(toks.deep_view(), p as int) is None,
        },
{
    match peek(toks, p) {
        Some(Token::Identifier(k)) => match peek(toks, p + 1) {
            Some(Token::Equals) => match parse_value(toks, p + 2) {
                Some((v, q)) => Some(((k.clone(), v), q)),
                None => None,
            },
            _ => None,
        },
        _ => None,
    }
}

fn parse_def_attrs(toks: &Vec<(Token, Span)>, start: usize) -> (r: (
    Vec<(String, Value)>,
    usize,
))
    requires
        start <= toks.len(),
    ensures
        (r.0.deep_view(), r.1 as int) == def_attrs_at(toks.deep_view(), start as int, seq![]),
        start <= r.1 <= toks.len(),
{
    let mut acc: Vec<(String, Value)> = Vec::new();
    let mut p = start;
    proof {
        lemma_empty(acc);
    }
    loop
        invariant
            start <= p <= toks.len(),
            def_attrs_at(toks.deep_view(), p as int, acc.deep_view()) == def_attrs_at(
                toks.deep_view(),
                start as int,
                seq![],
            ),
        decreases toks.len() - p,
    {
        match parse_def_attr(toks, p) {
            Some((a, q)) => {
                let ghost before = acc;
                acc.push(a);
                proof {
                    lemma_pushed(before, acc, a);
                }
                p = q;
            },
            None => {
                return (acc, p);
            },
        }
    }
}

fn parse_def(toks: &Vec<(Token, Span)>, p: usize) -> (r: Option<(TopLevel, usize)>)
    ensures
        match r {
            Some((t, q)) => def_at(toks.deep_view(), p as int) == Some((t.deep_view(), q as int)) && p < q
                <= toks.len(),
            None => def_at(toks.deep_view(), p as int) is None,
        },
{
    match peek(toks, p) {
        Some(Token::KwDef) => match peek(toks, p + 1) {
            Some(Token::Identifier(id)) => {
                let (label, q) = match peek(toks, p + 2) {
                    Some(Token::StringLit(l)) => (l.clone(), p + 3),
                    _ => (String::new(), p + 2),
                };
                let (attributes, r) = parse_def_attrs(toks, q);
                Some((TopLevel::Def { id: id.clone(), label, attributes }, r))
            },
            _ => None,
        },
        _ => None,
    }
}

fn parse_measure(toks: &Vec<(Token, Span)>, p: usize) -> (r: Option<(TopLevel, usize)>)
    ensures
        match r {
            Some((t, q)) => measure_at(toks.deep_view(), p as int) == Some((t.deep_view(), q as int)) && p
                < q <= toks.len(),
            None => measure_at(toks.deep_view(), p as int) is None,
        },
{
    match peek(toks, p) {
        Some(Token::KwMeasure) => {
            let (id, q) = match peek(toks, p + 1) {
                Some(Token::Integer(n)) => (Some(*n), p + 2),
                _ => (None, p + 1),
            };
            match peek(toks, q) {
                Some(Token::LBrace) => {
                    let (content, r) = parse_statements(toks, q + 1);
                    match peek(toks, r) {
                        Some(Token::RBrace) => Some((TopLevel::Measure { id, content }, r + 1)),
                        _ => None,
                    }
                },
                _ => None,
            }
        },
        _ => None,
    }
}

fn parse_item(toks: &Vec<(Token, Span)>, p: usize) -> (r: Option<(TopLevel, usize)>)
    ensures
        match r {
            Some((t, q)) => item_at(toks.deep_view(), p as int) == Some((t.deep_view(), q as int)) && p < q
                <= toks.len(),
            None => item_at(toks.deep_view(), p as int) is None,
        },
{
    match parse_meta(toks, p) {
        Some((entries, q)) => Some((TopLevel::Meta(entries), q)),
        None => match parse_def(toks, p) {
            Some(r) => Some(r),
            None => parse_measure(toks, p),
        },
    }
}

fn parse_items(toks: &Vec<(Token, Span)>, start: usize) -> (r: (Vec<TopLevel>, usize))
    requires
        start <= toks.len(),
    ensures
        (r.0.deep_view(), r.1 as int) == items_at(toks.deep_view(), start as int, seq![]),
        start <= r.1 <= toks.len(),
{
    let mut acc: Vec<TopLevel> = Vec::new();
    let mut p = start;
    proof {
        lemma_empty(acc);
    }
    loop
        invariant
            start <= p <= toks.len(),
            items_at(toks.deep_view(), p as int, acc.deep_view()) == items_at(toks.deep_view(), start as int, seq![]),
        decreases toks.len() - p,
    {
        match parse_item(toks, p) {
            Some((t, q)) => {
                let ghost before = acc;
                acc.push(t);
                proof {
                    lemma_pushed(before, acc, t);
                }
                p = q;
            },
            None => {
                return (acc, p);
            },
        }
    }
}

/// A token that the grammar does not admit where it stands.
#[derive(Debug, Clone, Copy, PartialEq, Eq, Structural)]
pub struct ParseError {
    /// The index of the token, or the number of tokens at the end of input.
    pub position: usize,
    /// The span of the token, or the empty span behind the last token.
    pub span: Span,
}

/// The span reported for position `p`: that of the token there, or the empty
/// span at the end of the last token where the input ends before `p`.
pub open spec fn error_span(toks: Seq<(TokenView, Span)>, p: int) -> Span {
    if 0 <= p < toks.len() {
        toks[p].1
    } else if toks.len() > 0 {
        Span { start: toks.last().1.end, end: toks.last().1.end }
    } else {
        Span { start: 0, end: 0 }
    }
}

/// The errors reported for an outcome of `parse_outcome`.
pub open spec fn errors_of(toks: Seq<(TokenView, Span)>, at: Option<int>) -> Seq<ParseError> {
    match at {
        Some(p) => seq![ParseError { position: p as usize, span: error_span(toks, p) }],
        None => seq![],
    }
}

/// The parser of a whole score.
pub struct ScoreParser {}

/// The parser of `score := 'tenuto' '{' top_level* '}'`.
pub fn parser() -> ScoreParser {
    ScoreParser {  }
}

fn error_at(toks: &Vec<(Token, Span)>, p: usize) -> (r: Vec<ParseError>)
    requires
        p <= toks.len(),
    ensures
        r@ == errors_of(toks.deep_view(), Some(p as int)),
{
    let span = if p < toks.len() {
        toks[p].1
    } else if toks.len() > 0 {
        let end = toks[toks.len() - 1].1.end;
        Span { start: end, end }
    } else {
        Span { start: 0, end: 0 }
    };
    let mut errors: Vec<ParseError> = Vec::new();
    errors.push(ParseError { position: p, span });
    assert(errors@ =~= errors_of(toks.deep_view(), Some(p as int)));
    errors
}

impl ScoreParser {
    /// Parses a token stream into a score and the errors met on the way.
    ///
    /// Without the opening `tenuto {` there is no score. After it, the score
    /// holds every item up to the closing brace, or up to the first token
    /// that starts no item, which is then reported.
    pub fn parse_recovery(&self, tokens: &Vec<(Token, Span)>) -> (r: (
        Option<Score>,
        Vec<ParseError>,
    ))
        ensures
            r.0.deep_view() == parse_outcome(tokens.deep_view()).0,
            r.1@ == errors_of(tokens.deep_view(), parse_outcome(tokens.deep_view()).1),
    {
        match peek(tokens, 0) {
            Some(Token::KwTenuto) => {},
            _ => {
                return (None, error_at(tokens, 0));
            },
        }
        match peek(tokens, 1) {
            Some(Token::LBrace) => {},
            _ => {
                return (None, error_at(tokens, 1));
            },
        }
        let (items, p) = parse_items(tokens, 2);
        let score = Score { items };
        match peek(tokens, p) {
            Some(Token::RBrace) => (Some(score), Vec::new()),
            _ => (Some(score), error_at(tokens, p)),
        }
    }
}

fn clone_values(values: &Vec<Value>) -> (r: Vec<Value>)
    ensures
        r.deep_view() == values.deep_view(),
    decreases values, 1nat,
{
    let mut out: Vec<Value> = Vec::new();
    let mut i: usize = 0;
    while i < values.len()
        invariant
            i <= values.len(),
            out.len() == i,
            forall|j: int| 0 <= j < i ==> (#[trigger] out[j]).deep_view() == values[j].deep_view(),
        decreases values.len() - i,
    {
        out.push(clone_value(&values[i]));
        i += 1;
    }
    assert(out.deep_view() =~= values.deep_view());
    out
}

fn clone_value(value: &Value) -> (r: Value)
    ensures
        r.deep_view() == value.deep_view(),
    decreases value, 0nat,
{
    match value {
        Value::Str(s) => Value::Str(s.clone()),
        Value::Num(n) => Value::Num(*n),
        Value::Float(s) => Value::Float(s.clone()),
        Value::Id(s) => Value::Id(s.clone()),
        Value::Array(a) => {
            let copy = clone_values(a);
            proof {
                lemma_array_view(*a);
                lemma_array_view(copy);
            }
            Value::Array(copy)
        },
    }
}

impl Clone for Value {
    fn clone(&self) -> (r: Self)
        ensures
            r.deep_view() == self.deep_view(),
    {
        clone_value(self)
    }
}

fn clone_attributes(v: &Vec<Attribute>) -> (r: Vec<Attribute>)
    ensures
        r.deep_view() == v.deep_view(),
{
    let mut out: Vec<Attribute> = Vec::new();
    let mut i: usize = 0;
    while i < v.len()
        invariant
            i <= v.len(),
            out.len() == i,
            forall|j: int| 0 <= j < i ==> (#[trigger] out[j]).deep_view() == v[j].deep_view(),
        decreases v.len() - i,
    {
        out.push(v[i].clone());
        i += 1;
    }
    assert(out.deep_view() =~= v.deep_view());
    out
}

fn clone_strings(v: &Vec<String>) -> (r: Vec<String>)
    ensures
        r.deep_view() == v.deep_view(),
{
    let mut out: Vec<String> = Vec::new();
    let mut i: usize = 0;
    while i < v.len()
        invariant
            i <= v.len(),
            out.len() == i,
            forall|j: int| 0 <= j < i ==> (#[trigger] out[j]).deep_view() == v[j].deep_view(),
        decreases v.len() - i,
    {
        out.push(v[i].clone());
        i += 1;
    }
    assert(out.deep_view() =~= v.deep_view());
    out
}

fn clone_entries(v: &Vec<(String, Value)>) -> (r: Vec<(String, Value)>)
    ensures
        r.deep_view() == v.deep_view(),
{
    let mut out: Vec<(String, Value)> = Vec::new();
    let mut i: usize = 0;
    while i < v.len()
        invariant
            i <= v.len(),
            out.len() == i,
            forall|j: int| 0 <= j < i ==> (#[trigger] out[j]).deep_view() == v[j].deep_view(),
        decreases v.len() - i,
    {
        out.push((v[i].0.clone(), v[i].1.clone()));
        i += 1;
    }
    assert(out.deep_view() =~= v.deep_view());
    out
}

fn clone_events(v: &Vec<Event>) -> (r: Vec<Event>)
    ensures
        r.deep_view() == v.deep_view(),
    decreases v, 1nat,
{
    let mut out: Vec<Event> = Vec::new();
    let mut i: usize = 0;
    while i < v.len()
        invariant
            i <= v.len(),
            out.len() == i,
            forall|j: int| 0 <= j < i ==> (#[trigger] out[j]).deep_view() == v[j].deep_view(),
        decreases v.len() - i,
    {
        out.push(clone_event(&v[i]));
        i += 1;
    }
    assert(out.deep_view() =~= v.deep_view());
    out
}

fn clone_voices(v: &Vec<Voice>) -> (r: Vec<Voice>)
    ensures
        r.deep_view() == v.deep_view(),
{
    let mut out: Vec<Voice> = Vec::new();
    let mut i: usize = 0;
    while i < v.len()
        invariant
            i <= v.len(),
            out.len() == i,
            forall|j: int| 0 <= j < i ==> (#[trigger] out[j]).deep_view() == v[j].deep_view(),
        decreases v.len() - i,
    {
        out.push(v[i].clone());
        i += 1;
    }
    assert(out.deep_view() =~= v.deep_view());
    out
}

fn clone_statements(v: &Vec<Statement>) -> (r: Vec<Statement>)
    ensures
        r.deep_view() == v.deep_view(),
{
    let mut out: Vec<Statement> = Vec::new();
    let mut i: usize = 0;
    while i < v.len()
        invariant
            i <= v.len(),
            out.len() == i,
            forall|j: int| 0 <= j < i ==> (#[trigger] out[j]).deep_view() == v[j].deep_view(),
        decreases v.len() - i,
    {
        out.push(v[i].clone());
        i += 1;
    }
    assert(out.deep_view() =~= v.deep_view());
    out
}

fn clone_items(v: &Vec<TopLevel>) -> (r: Vec<TopLevel>)
    ensures
        r.deep_view() == v.deep_view(),
{
    let mut out: Vec<TopLevel> = Vec::new();
    let mut i: usize = 0;
    while i < v.len()
        invariant
            i <= v.len(),
            out.len() == i,
            forall|j: int| 0 <= j < i ==> (#[trigger] out[j]).deep_view() == v[j].deep_view(),
        decreases v.len() - i,
    {
        out.push(v[i].clone());
        i += 1;
    }
    assert(out.deep_view() =~= v.deep_view());
    out
}

fn clone_text(d: &Option<String>) -> (r: Option<String>)
    ensures
        r.deep_view() == d.deep_view(),
{
    match d {
        Some(s) => Some(s.clone()),
        None => None,
    }
}

fn clone_event(event: &Event) -> (r: Event)
    ensures
        r.deep_view() == event.deep_view(),
    decreases event, 0nat,
{
    match event {
        Event::Note { pitch, duration, attributes } => Event::Note {
            pitch: pitch.clone(),
            duration: clone_text(duration),
            attributes: clone_attributes(attributes),
        },
        Event::Chord { notes, duration, attributes } => Event::Chord {
            notes: clone_strings(notes),
            duration: clone_text(duration),
            attributes: clone_attributes(attributes),
        },
        Event::Rest { duration } => Event::Rest { duration: clone_text(duration) },
        Event::Tab { fret, string, duration, attributes } => Event::Tab {
            fret: *fret,
            string: *string,
            duration: clone_text(duration),
            attributes: clone_attributes(attributes),
        },
        Event::Percussion { key, duration, attributes } => Event::Percussion {
            key: key.clone(),
            duration: clone_text(duration),
            attributes: clone_attributes(attributes),
        },
        Event::Tuplet { content, p, q } => {
            let copy = Voice { events: clone_events(&content.events) };
            proof {
                lemma_tuplet_view(*content, *p, *q);
                lemma_tuplet_view(copy, *p, *q);
            }
            Event::Tuplet { content: copy, p: *p, q: *q }
        },
    }
}

impl Clone for Attribute {
    fn clone(&self) -> (r: Self)
        ensures
            r.deep_view() == self.deep_view(),
    {
        Attribute { name: self.name.clone(), args: clone_values(&self.args) }
    }
}

impl Clone for Event {
    fn clone(&self) -> (r: Self)
        ensures
            r.deep_view() == self.deep_view(),
    {
        clone_event(self)
    }
}

impl Clone for Voice {
    fn clone(&self) -> (r: Self)
        ensures
            r.deep_view() == self.deep_view(),
    {
        Voice { events: clone_events(&self.events) }
    }
}

impl Clone for Statement {
    fn clone(&self) -> (r: Self)
        ensures
            r.deep_view() == self.deep_view(),
    {
        match self {
            Statement::Assignment { staff_id, voices } => Statement::Assignment {
                staff_id: staff_id.clone(),
                voices: clone_voices(voices),
            },
            Statement::LocalMeta(entries) => Statement::LocalMeta(clone_entries(entries)),
        }
    }
}

impl Clone for TopLevel {
    fn clone(&self) -> (r: Self)
        ensures
            r.deep_view() == self.deep_view(),
    {
        match self {
            TopLevel::Meta(entries) => TopLevel::Meta(clone_entries(entries)),
            TopLevel::Def { id, label, attributes } => TopLevel::Def {
                id: id.clone(),
                label: label.clone(),
                attributes: clone_entries(attributes),
            },
            TopLevel::Measure { id, content } => TopLevel::Measure {
                id: *id,
                content: clone_statements(content),
            },
            TopLevel::Import(path) => TopLevel::Import(path.clone()),
        }
    }
}

impl Clone for Score {
    fn clone(&self) -> (r: Self)
        ensures
            r.deep_view() == self.deep_view(),
    {
        Score { items: clone_items(&self.items) }
    }
}

} // verus!
