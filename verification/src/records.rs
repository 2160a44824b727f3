//! The data carried through the pipeline: the raw attribute set of one
//! matching element, the resolved record with its computed duration, and
//! the error taxonomy of a run.
use vstd::prelude::*;

verus! {

/// Ghost image of a raw mindful-session record: the three attribute texts
/// taken from one matching element.
pub struct SessionView {
    pub app: Seq<char>,
    pub start: Seq<char>,
    pub end: Seq<char>,
}

/// One matching element's attributes, as decoded text: the source
/// application name and the raw start/end timestamp texts.
#[derive(Debug)]
pub struct MindfulSession {
    pub app: String,
    pub start: String,
    pub end: String,
}

impl View for MindfulSession {
    type V = SessionView;

    open spec fn view(&self) -> SessionView {
        SessionView { app: self.app@, start: self.start@, end: self.end@ }
    }
}

impl DeepView for MindfulSession {
    type V = SessionView;

    open spec fn deep_view(&self) -> SessionView {
        self.view()
    }
}

/// Ghost image of a resolved record.
pub struct RecordView {
    pub app_name: Seq<char>,
    pub occurred_at: int,
    pub meditation_minutes: int,
    pub dropped_seconds: int,
}

/// A resolved record: the unit of output. `occurred_at` is the start
/// instant as a UTC epoch second count; `meditation_minutes` holds the
/// whole minutes of the elapsed duration and `dropped_seconds` the
/// sub-minute remainder (both truncate toward zero, so both are negative
/// when the end precedes the start).
#[derive(Debug)]
pub struct BloomRecord {
    pub app_name: String,
    pub occurred_at: i64,
    pub meditation_minutes: i32,
    pub dropped_seconds: i32,
}

impl View for BloomRecord {
    type V = RecordView;

    open spec fn view(&self) -> RecordView {
        RecordView {
            app_name: self.app_name@,
            occurred_at: self.occurred_at as int,
            meditation_minutes: self.meditation_minutes as int,
            dropped_seconds: self.dropped_seconds as int,
        }
    }
}

impl DeepView for BloomRecord {
    type V = RecordView;

    open spec fn deep_view(&self) -> RecordView {
        self.view()
    }
}

/// A fatal condition of one pipeline run. Every variant aborts the run.
#[derive(Debug)]
pub enum PipelineError {
    /// The source document is not well-formed XML; carries the parser's
    /// message.
    Parse(String),
    /// A timestamp text does not match the fixed
    /// `YYYY-MM-DD HH:MM:SS +HHMM` format; carries the offending text.
    Format(String),
    /// The elapsed second count of a record does not fit the output
    /// integer width.
    Range,
    /// A resolved field could not be encoded for output.
    Serialization(String),
}

} // verus!
