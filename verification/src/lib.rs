//! Compiler for the Tenuto music-notation language: source text is tokenized,
//! parsed into a score, linearized into a tick-accurate timeline and encoded
//! as a Standard MIDI File.

use vstd::prelude::*;

pub mod ir;
pub mod lexer;
pub mod midi;
pub mod parser;
pub mod rational;
pub mod sorting;
pub mod text;

pub use rational::Rational;

use ir::{linearize, timeline_wf, CompileError, Timeline, TimelineView};
use midi::{encoding_of, export_outcome, midi_model, ExportError};
use lexer::{anomalies, lexemes, significant};
use parser::{error_span, parse_outcome, ParseError};

verus! {

/// `std::io::Error`, which is carried and never looked into.
#[verifier::external_type_specification]
#[verifier::external_body]
pub struct ExIoError(std::io::Error);

/// Why a source text has no timeline.
#[derive(Debug)]
pub enum TenutoError {
    /// E1001: text that is no token starts at this position.
    LexicalError(usize),
    /// F9001: the source could not be read or the output not written.
    IoError(std::io::Error),
    /// The tokens do not follow the grammar.
    SyntaxError(ParseError),
    /// The score cannot be linearized.
    LinearizationError(CompileError),
    /// The timeline cannot be encoded.
    EncodingError(ExportError),
}

impl TenutoError {
    /// Whether the error ends the compilation whatever the mode: reading,
    /// linearization and encoding errors do, lexical and syntax errors are
    /// collected.
    pub fn is_fatal(&self) -> (fatal: bool)
        ensures
            fatal == (self is IoError || self is LinearizationError || self is EncodingError),
    {
        match self {
            TenutoError::IoError(_) => true,
            TenutoError::LinearizationError(_) => true,
            TenutoError::EncodingError(_) => true,
            _ => false,
        }
    }
}

impl From<std::io::Error> for TenutoError {
    fn from(error: std::io::Error) -> (r: Self) {
        TenutoError::IoError(error)
    }
}

impl vstd::std_specs::convert::FromSpecImpl<std::io::Error> for TenutoError {
    open spec fn obeys_from_spec() -> bool {
        true
    }

    open spec fn from_spec(error: std::io::Error) -> Self {
        TenutoError::IoError(error)
    }
}

/// The compilation request: the source text and the strict-mode flag.
pub struct Pipeline {
    pub source: String,
    pub strict_mode: bool,
}

/// What the pipeline makes of a source text: in strict mode the first piece
/// of text that is no token is an error, otherwise such text is left out;
/// the tokens must follow the grammar to the closing brace; and the score
/// must linearize.
pub open spec fn pipeline_outcome(source: Seq<char>, strict: bool) -> Result<
    TimelineView,
    TenutoError,
> {
    let lexed = lexemes(source);
    let tokens = significant(lexed);
    if strict && anomalies(lexed).len() > 0 {
        Err(TenutoError::LexicalError(anomalies(lexed)[0].start))
    } else {
        match parse_outcome(tokens) {
            (_, Some(p)) => Err(
                TenutoError::SyntaxError(
                    ParseError { position: p as usize, span: error_span(tokens, p) },
                ),
            ),
            (score, None) => match linearize(score->0) {
                Ok(timeline) => Ok(timeline),
                Err(e) => Err(TenutoError::LinearizationError(e)),
            },
        }
    }
}

/// What the pipeline makes of a source text from end to end: the bytes of
/// the MIDI file of its timeline.
pub open spec fn pipeline_bytes(source: Seq<char>, strict: bool) -> Result<Seq<u8>, TenutoError> {
    match pipeline_outcome(source, strict) {
        Err(e) => Err(e),
        Ok(timeline) => match export_outcome(
            midi_model(timeline),
            encoding_of(midi_model(timeline)),
        ) {
            Ok(bytes) => Ok(bytes),
            Err(e) => Err(TenutoError::EncodingError(e)),
        },
    }
}

impl Pipeline {
    /// A pipeline over `source`, with strict mode switched off.
    pub fn new(source: String) -> (p: Self)
        ensures
            p.source == source,
            !p.strict_mode,
    {
        Self { source, strict_mode: false }
    }

    /// Runs the stages from source text to timeline: scan, parse, linearize.
    pub fn compile(&self) -> (r: Result<Timeline, TenutoError>)
        ensures
            match r {
                Ok(timeline) => pipeline_outcome(self.source@, self.strict_mode) == Ok::<
                    _,
                    TenutoError,
                >(timeline.deep_view()),
                Err(e) => pipeline_outcome(self.source@, self.strict_mode) == Err::<
                    TimelineView,
                    _,
                >(e),
            },
            r matches Ok(timeline) ==> timeline_wf(timeline.deep_view()),
    {
        let (tokens, odd) = lexer::scan(self.source.as_str());
        if self.strict_mode && odd.len() > 0 {
            return Err(TenutoError::LexicalError(odd[0].start));
        }
        let (ast, errors) = parser::parser().parse_recovery(&tokens);
        if errors.len() > 0 {
            return Err(TenutoError::SyntaxError(errors[0]));
        }
        match ast {
            Some(score) => match ir::compile(score) {
                Ok(timeline) => Ok(timeline),
                Err(e) => Err(TenutoError::LinearizationError(e)),
            },
            None => {
                assert(false);
                vstd::pervasive::unreached()
            },
        }
    }

    /// Runs every stage from source text to the bytes of the MIDI file.
    pub fn run(&self) -> (r: Result<Vec<u8>, TenutoError>)
        ensures
            match r {
                Ok(bytes) => pipeline_bytes(self.source@, self.strict_mode) == Ok::<
                    _,
                    TenutoError,
                >(bytes@),
                Err(e) => pipeline_bytes(self.source@, self.strict_mode) == Err::<Seq<u8>, _>(e),
            },
    {
        let timeline = match self.compile() {
            Ok(timeline) => timeline,
            Err(e) => {
                return Err(e);
            },
        };
        match midi::export(&timeline) {
            Ok(bytes) => Ok(bytes),
            Err(e) => Err(TenutoError::EncodingError(e)),
        }
    }
}

} // verus!
