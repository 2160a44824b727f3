//! The whole run over one document: scan the raw records, resolve each,
//! and — where any were found — encode the table and render the summary.
use vstd::prelude::*;
use crate::aggregate::{apps_of, is_sorted_tally, is_tally, summary_of};
use crate::records::{BloomRecord, MindfulSession, PipelineError, RecordView, SessionView};
use crate::resolve::{elapsed_seconds, resolved_of, resolves, timestamps_parse};
use crate::tabular::{rows_renderable, table_bytes};
use crate::xmlscan::{records_of, scan_records, ElementView};

verus! {

/// What one run yields when no fatal condition arose.
#[derive(Debug)]
pub enum PipelineOutcome {
    /// No matching records: a recognized empty success; nothing is
    /// encoded and nothing should be written.
    Empty,
    /// The encoded table and the rendered per-source summary of a
    /// non-empty run.
    Done { table: Vec<u8>, summary: String },
}

/// The resolved image of a raw record sequence.
pub open spec fn resolved_seq(raws: Seq<SessionView>) -> Seq<RecordView> {
    Seq::new(raws.len(), |i: int| resolved_of(raws[i]))
}

/// The first position of a raw record that does not resolve (the length
/// where all do).
pub open spec fn first_bad(raws: Seq<SessionView>) -> int
    decreases raws.len(),
{
    if raws.len() == 0 {
        0
    } else if !resolves(raws[0]) {
        0
    } else {
        1 + first_bad(raws.drop_first())
    }
}

/// What a successful outcome says of the raw records it came from.
pub open spec fn outcome_ok(raws: Seq<SessionView>, o: PipelineOutcome) -> bool {
    match o {
        PipelineOutcome::Empty => raws.len() == 0,
        PipelineOutcome::Done { table, summary } => {
            &&& raws.len() > 0
            &&& forall|i: int| 0 <= i < raws.len() ==> resolves(#[trigger] raws[i])
            &&& rows_renderable(resolved_seq(raws))
            &&& table@ == table_bytes(resolved_seq(raws))
            &&& exists|tally: Seq<(Seq<char>, u64)>, ordered: Seq<(Seq<char>, u64)>|
                {
                    &&& #[trigger] is_tally(tally, apps_of(resolved_seq(raws)))
                    &&& #[trigger] is_sorted_tally(ordered, tally)
                    &&& summary@ == summary_of(ordered)
                }
        },
    }
}

/// What a fatal error other than a parse failure says of the raw records
/// it came from: the first unresolvable record decides between the
/// timestamp-format and the range failure, and an encoding failure can
/// only follow once every record resolved, and only where some kept
/// record's start instant has no text rendering.
pub open spec fn error_ok(raws: Seq<SessionView>, e: PipelineError) -> bool {
    &&& raws.len() > 0
    &&& match e {
        PipelineError::Format(t) => {
            let b = first_bad(raws);
            &&& b < raws.len()
            &&& !timestamps_parse(raws[b])
            &&& (t@ == raws[b].start || t@ == raws[b].end)
        },
        PipelineError::Range => {
            let b = first_bad(raws);
            &&& b < raws.len()
            &&& timestamps_parse(raws[b])
            &&& !(i32::MIN <= elapsed_seconds(raws[b]) <= i32::MAX)
        },
        PipelineError::Serialization(_) => first_bad(raws) == raws.len() && !rows_renderable(
            resolved_seq(raws),
        ),
        PipelineError::Parse(_) => false,
    }
}

proof fn lemma_first_bad_at(raws: Seq<SessionView>, k: int)
    requires
        0 <= k < raws.len(),
        forall|t: int| 0 <= t < k ==> resolves(#[trigger] raws[t]),
        !resolves(raws[k]),
    ensures
        first_bad(raws) == k,
    decreases k,
{
    if k == 0 {
    } else {
        let tail = raws.drop_first();
        assert(resolves(raws[0]));
        assert forall|t: int| 0 <= t < k - 1 implies resolves(#[trigger] tail[t]) by {
            assert(tail[t] == raws[t + 1]);
        }
        assert(tail[k - 1] == raws[k]);
        lemma_first_bad_at(tail, k - 1);
    }
}

proof fn lemma_first_bad_none(raws: Seq<SessionView>)
    requires
        forall|t: int| 0 <= t < raws.len() ==> resolves(#[trigger] raws[t]),
    ensures
        first_bad(raws) == raws.len(),
    decreases raws.len(),
{
    if raws.len() > 0 {
        let tail = raws.drop_first();
        assert forall|t: int| 0 <= t < tail.len() implies resolves(#[trigger] tail[t]) by {
            assert(tail[t] == raws[t + 1]);
        }
        lemma_first_bad_none(tail);
    }
}

/// Runs the resolution, aggregation and encoding steps over the scanned
/// raw records: the empty outcome for none, the table and summary for
/// some, and the first fatal condition otherwise. Success is owed
/// whenever every record resolves and every kept start instant renders.
pub fn run_on_records(user_data: &Vec<MindfulSession>) -> (r: Result<
    PipelineOutcome,
    PipelineError,
>)
    ensures
        r matches Ok(o) ==> outcome_ok(user_data.deep_view(), o),
        user_data.deep_view().len() == 0 ==> r matches Ok(PipelineOutcome::Empty),
        r matches Err(e) ==> error_ok(user_data.deep_view(), e),
        ({
            let raws = user_data.deep_view();
            (forall|i: int| 0 <= i < raws.len() ==> resolves(#[trigger] raws[i]))
                && rows_renderable(resolved_seq(raws)) ==> r is Ok
        }),
{
    let ghost raws = user_data.deep_view();
    let mut bloom_data: Vec<BloomRecord> = Vec::new();
    let mut k: usize = 0;
    while k < user_data.len()
        invariant
            k <= user_data.len(),
            raws == user_data.deep_view(),
            raws.len() == user_data@.len(),
            forall|t: int| 0 <= t < k ==> resolves(#[trigger] raws[t]),
            bloom_data.deep_view() =~= resolved_seq(raws).subrange(0, k as int),
        decreases user_data.len() - k,
    {
        let record = &user_data[k];
        assert(record@ == raws[k as int]);
        match BloomRecord::new_from_user_data(record) {
            Ok(rec) => {
                let ghost bd0 = bloom_data.deep_view();
                let ghost rv = rec@;
                bloom_data.push(rec);
                proof {
                    assert(bloom_data.deep_view() =~= bd0.push(rv));
                    assert(rv == resolved_of(raws[k as int]));
                    assert(resolved_seq(raws).subrange(0, k as int + 1) =~= resolved_seq(
                        raws,
                    ).subrange(0, k as int).push(resolved_of(raws[k as int])));
                }
            },
            Err(e) => {
                proof {
                    lemma_first_bad_at(raws, k as int);
                }
                return Err(e);
            },
        }
        k += 1;
    }
    proof {
        lemma_first_bad_none(raws);
        assert(bloom_data.deep_view() =~= resolved_seq(raws));
    }
    if bloom_data.len() == 0 {
        return Ok(PipelineOutcome::Empty);
    }
    let table = match BloomRecord::write_csv(&bloom_data) {
        Ok(b) => b,
        Err(e) => {
            return Err(e);
        },
    };
    let summary = crate::aggregate::calculate_stats(&bloom_data);
    Ok(PipelineOutcome::Done { table, summary })
}

/// Runs the whole pipeline over one document's bytes: scans, resolves,
/// and yields the outcome — or the first fatal condition, a parse error
/// included, with no partial result.
pub fn run_pipeline(input: &[u8]) -> (r: Result<PipelineOutcome, PipelineError>)
    ensures
        r matches Ok(o) ==> exists|evs: Seq<ElementView>| outcome_ok(
            #[trigger] records_of(evs),
            o,
        ),
        r matches Err(e) ==> e is Parse || exists|evs: Seq<ElementView>| error_ok(
            #[trigger] records_of(evs),
            e,
        ),
{
    let user_data = match scan_records(input) {
        Ok(v) => v,
        Err(e) => {
            return Err(e);
        },
    };
    match run_on_records(&user_data) {
        Ok(o) => Ok(o),
        Err(e) => Err(e),
    }
}

} // verus!
