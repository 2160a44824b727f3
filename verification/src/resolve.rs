//! The Duration Resolver: parses a raw record's start/end timestamp texts
//! into UTC epoch second counts and splits the elapsed seconds into whole
//! minutes and a dropped sub-minute remainder.
use vstd::prelude::*;
use vstd::arithmetic::div_mod::{
    lemma_div_pos_is_pos, lemma_fundamental_div_mod, lemma_mod_bound,
};
use crate::records::{BloomRecord, MindfulSession, PipelineError};

verus! {

/// The timestamp layout the export uses: date, time of day and a signed
/// four-digit UTC offset, space-separated.
pub const TIMESTAMP_FORMAT: &'static str = "%Y-%m-%d %H:%M:%S %z";

/// The UTC epoch second count that the text `s` denotes under the layout
/// `fmt`, or None where the text does not match the layout.
pub uninterp spec fn parsed_epoch(s: Seq<char>, fmt: Seq<char>) -> Option<int>;

/// Relies on chrono's `DateTime::parse_from_str` and `timestamp`: whether
/// a text matches a layout, and the instant it denotes, are functions of
/// the two texts alone, and `timestamp` reads that instant as UTC epoch
/// seconds.
#[verifier::external_body]
fn parse_timestamp(s: &str, fmt: &str) -> (r: Option<i64>)
    ensures
        r matches Some(v) ==> parsed_epoch(s@, fmt@) == Some(v as int),
        r is None ==> parsed_epoch(s@, fmt@) is None,
{
    match chrono::DateTime::parse_from_str(s, fmt) {
        Ok(dt) => Some(dt.timestamp()),
        Err(_) => None,
    }
}

/// Division truncating toward zero, as the output integer fields use it.
pub open spec fn trunc_div(a: int, b: int) -> int
    recommends b > 0,
{
    if a >= 0 { a / b } else { -((-a) / b) }
}

/// Remainder of `trunc_div`: its sign follows the dividend.
pub open spec fn trunc_mod(a: int, b: int) -> int
    recommends b > 0,
{
    if a >= 0 { a % b } else { -((-a) % b) }
}

/// Whether both timestamp texts of a raw record match the fixed layout.
pub open spec fn timestamps_parse(raw: crate::records::SessionView) -> bool {
    &&& parsed_epoch(raw.start, TIMESTAMP_FORMAT@) is Some
    &&& parsed_epoch(raw.end, TIMESTAMP_FORMAT@) is Some
}

/// The elapsed seconds of a raw record whose timestamps parse.
pub open spec fn elapsed_seconds(raw: crate::records::SessionView) -> int
    recommends timestamps_parse(raw),
{
    parsed_epoch(raw.end, TIMESTAMP_FORMAT@)->0 - parsed_epoch(raw.start, TIMESTAMP_FORMAT@)->0
}

/// Whether a raw record resolves: both timestamps match the layout and
/// the elapsed second count fits the output integer width.
pub open spec fn resolves(raw: crate::records::SessionView) -> bool {
    &&& timestamps_parse(raw)
    &&& i32::MIN <= elapsed_seconds(raw) <= i32::MAX
}

/// The resolved image of a raw record that resolves.
pub open spec fn resolved_of(raw: crate::records::SessionView) -> crate::records::RecordView
    recommends resolves(raw),
{
    crate::records::RecordView {
        app_name: raw.app,
        occurred_at: parsed_epoch(raw.start, TIMESTAMP_FORMAT@)->0,
        meditation_minutes: trunc_div(elapsed_seconds(raw), 60),
        dropped_seconds: trunc_mod(elapsed_seconds(raw), 60),
    }
}

impl BloomRecord {
    /// Resolves one raw record: parses both timestamps, takes the elapsed
    /// whole seconds, and splits them into minutes and a remainder, both
    /// truncating toward zero. Fails with `Format` exactly where a
    /// timestamp text does not match the layout (the start text is blamed
    /// first), and with `Range` exactly where the elapsed count does not
    /// fit the output width.
    pub fn new_from_user_data(user_record: &MindfulSession) -> (r: Result<BloomRecord, PipelineError>)
        ensures
            r is Ok <==> resolves(user_record@),
            r matches Ok(rec) ==> rec@ == resolved_of(user_record@),
            r matches Err(e) ==> match e {
                PipelineError::Format(t) => !timestamps_parse(user_record@)
                    && t@ == (if parsed_epoch(user_record.start@, TIMESTAMP_FORMAT@) is None {
                        user_record.start@
                    } else {
                        user_record.end@
                    }),
                PipelineError::Range => timestamps_parse(user_record@)
                    && !(i32::MIN <= elapsed_seconds(user_record@) <= i32::MAX),
                _ => false,
            },
    {
        let start = match parse_timestamp(user_record.start.as_str(), TIMESTAMP_FORMAT) {
            Some(v) => v,
            None => {
                return Err(PipelineError::Format(user_record.start.clone()));
            },
        };
        let end = match parse_timestamp(user_record.end.as_str(), TIMESTAMP_FORMAT) {
            Some(v) => v,
            None => {
                return Err(PipelineError::Format(user_record.end.clone()));
            },
        };
        let num_seconds_wide = match end.checked_sub(start) {
            Some(d) => d,
            None => {
                return Err(PipelineError::Range);
            },
        };
        if num_seconds_wide < i32::MIN as i64 || num_seconds_wide > i32::MAX as i64 {
            return Err(PipelineError::Range);
        }
        let num_seconds: i32 = num_seconds_wide as i32;
        let (meditation_minutes, dropped_seconds) = split_duration(num_seconds);
        Ok(BloomRecord {
            app_name: user_record.app.clone(),
            occurred_at: start,
            meditation_minutes,
            dropped_seconds,
        })
    }
}

/// Splits an elapsed second count into whole minutes and the dropped
/// sub-minute remainder, both truncating toward zero.
pub fn split_duration(num_seconds: i32) -> (r: (i32, i32))
    ensures
        r.0 as int == trunc_div(num_seconds as int, 60),
        r.1 as int == trunc_mod(num_seconds as int, 60),
{
    if num_seconds >= 0 {
        let n: u32 = num_seconds as u32;
        let m: u32 = n / 60;
        let d: u32 = n % 60;
        proof {
            lemma_div_pos_is_pos(n as int, 60);
            lemma_mod_bound(n as int, 60);
            lemma_fundamental_div_mod(n as int, 60);
        }
        (m as i32, d as i32)
    } else {
        let wide: i64 = num_seconds as i64;
        let n: u32 = (-wide) as u32;
        let m: u32 = n / 60;
        let d: u32 = n % 60;
        proof {
            lemma_div_pos_is_pos(n as int, 60);
            lemma_mod_bound(n as int, 60);
            lemma_fundamental_div_mod(n as int, 60);
        }
        (-(m as i32), -(d as i32))
    }
}

/// Law of non-negative durations: where the end does not precede the
/// start, the resolved minutes are non-negative, the dropped remainder
/// lies in [0, 60), and minutes and remainder together recompose the
/// elapsed second count exactly.
pub proof fn lemma_nonnegative_duration(total_seconds: int)
    requires
        0 <= total_seconds,
    ensures
        trunc_div(total_seconds, 60) >= 0,
        0 <= trunc_mod(total_seconds, 60) < 60,
        trunc_div(total_seconds, 60) * 60 + trunc_mod(total_seconds, 60) == total_seconds,
{
    lemma_div_pos_is_pos(total_seconds, 60);
    lemma_mod_bound(total_seconds, 60);
    lemma_fundamental_div_mod(total_seconds, 60);
}

/// The law restated over a resolved record: a raw record that resolves
/// with `end >= start` yields `meditation_minutes >= 0`,
/// `0 <= dropped_seconds < 60`, and
/// `meditation_minutes * 60 + dropped_seconds == elapsed seconds`.
pub proof fn lemma_resolved_nonnegative(raw: crate::records::SessionView)
    requires
        resolves(raw),
        elapsed_seconds(raw) >= 0,
    ensures
        resolved_of(raw).meditation_minutes >= 0,
        0 <= resolved_of(raw).dropped_seconds < 60,
        resolved_of(raw).meditation_minutes * 60 + resolved_of(raw).dropped_seconds
            == elapsed_seconds(raw),
{
    lemma_nonnegative_duration(elapsed_seconds(raw));
}

} // verus!
