//! The Tabular Writer: renders the resolved records as delimited rows — a
//! header row, then one row per record whose minute count is not zero —
//! and encodes each row through the delimited-text encoder.
use vstd::prelude::*;
use crate::numerals::{int_str, parse_int, lemma_parse_int_str};
use crate::records::{BloomRecord, PipelineError, RecordView};

verus! {

/// The bytes the delimited encoder produces for one row of fields.
pub uninterp spec fn csv_row_bytes(fields: Seq<Seq<char>>) -> Seq<u8>;

/// Relies on csv's `Writer`: `write_record` encodes one row, quoting
/// fields where the delimited form needs it, and `into_inner` hands the
/// encoded bytes back; the encoding is a function of the fields alone.
/// The call succeeds on every input: the sink is an in-memory buffer,
/// whose std `Write` never fails, and a fresh writer per row cannot see
/// the unequal-record-length error, which compares against earlier rows.
#[verifier::external_body]
fn csv_encode_row(fields: &Vec<String>) -> (r: Result<Vec<u8>, PipelineError>)
    ensures
        r is Ok,
        r matches Ok(b) ==> b@ == csv_row_bytes(fields.deep_view()),
{
    let mut w = csv::Writer::from_writer(Vec::new());
    if let Err(e) = w.write_record(fields.iter()) {
        return Err(PipelineError::Serialization(e.to_string()));
    }
    match w.into_inner() {
        Ok(b) => Ok(b),
        Err(e) => Err(PipelineError::Serialization(e.to_string())),
    }
}

/// The fixed text rendering of a UTC epoch second count, or none where
/// the count lies outside the calendar's representable range.
pub uninterp spec fn utc_text(epoch: int) -> Option<Seq<char>>;

/// Relies on chrono's `DateTime::from_timestamp` and `to_rfc3339_opts`:
/// the rendered text is a function of the epoch second count alone, and
/// counts outside the representable calendar range yield nothing.
#[verifier::external_body]
fn format_timestamp(epoch: i64) -> (r: Option<String>)
    ensures
        r matches Some(t) ==> utc_text(epoch as int) == Some(t@),
        r is None ==> utc_text(epoch as int) is None,
{
    match chrono::DateTime::from_timestamp(epoch, 0) {
        Some(dt) => Some(dt.to_rfc3339_opts(chrono::SecondsFormat::Secs, true)),
        None => None,
    }
}

/// The four column labels of the tabular output, in order.
pub open spec fn header_row() -> Seq<Seq<char>> {
    seq!["App Name"@, "Start Time"@, "Duration"@, "Dropped Seconds"@]
}

/// The field texts of one resolved record's row: the name, the rendered
/// start instant, and the two duration fields as signed decimals.
pub open spec fn row_of(rec: RecordView) -> Seq<Seq<char>>
    recommends
        utc_text(rec.occurred_at) is Some,
{
    seq![
        rec.app_name,
        utc_text(rec.occurred_at)->0,
        int_str(rec.meditation_minutes),
        int_str(rec.dropped_seconds),
    ]
}

/// The records the Tabular Writer keeps: those with a minute count other
/// than zero, in order.
pub open spec fn nonzero_records(recs: Seq<RecordView>) -> Seq<RecordView>
    decreases recs.len(),
{
    if recs.len() == 0 {
        Seq::empty()
    } else if recs.last().meditation_minutes != 0 {
        nonzero_records(recs.drop_last()).push(recs.last())
    } else {
        nonzero_records(recs.drop_last())
    }
}

/// The full row picture of the table: the header row, then the kept
/// records' rows in order.
pub open spec fn rows_of(recs: Seq<RecordView>) -> Seq<Seq<Seq<char>>> {
    seq![header_row()] + nonzero_records(recs).map_values(|r: RecordView| row_of(r))
}

/// The encoded bytes of a row sequence: each row's encoding, concatenated.
pub open spec fn bytes_of_rows(rows: Seq<Seq<Seq<char>>>) -> Seq<u8>
    decreases rows.len(),
{
    if rows.len() == 0 {
        Seq::empty()
    } else {
        bytes_of_rows(rows.drop_last()) + csv_row_bytes(rows.last())
    }
}

/// The encoded table of a record sequence.
pub open spec fn table_bytes(recs: Seq<RecordView>) -> Seq<u8> {
    bytes_of_rows(rows_of(recs))
}

/// Whether every kept record's start instant has a text rendering.
pub open spec fn rows_renderable(recs: Seq<RecordView>) -> bool {
    forall|i: int| 0 <= i < nonzero_records(recs).len()
        ==> utc_text(#[trigger] nonzero_records(recs)[i].occurred_at) is Some
}

proof fn lemma_nonzero_push(recs: Seq<RecordView>, rec: RecordView)
    ensures
        nonzero_records(recs.push(rec)) == if rec.meditation_minutes != 0 {
            nonzero_records(recs).push(rec)
        } else {
            nonzero_records(recs)
        },
{
    assert(recs.push(rec).drop_last() =~= recs);
    assert(recs.push(rec).last() == rec);
}

/// Law of the kept rows: the table has exactly one row more than the
/// records with a non-zero minute count — the header — and every record
/// with a zero minute count is absent from the kept rows, while every
/// other record keeps its place among them.
pub proof fn lemma_row_count(recs: Seq<RecordView>)
    ensures
        rows_of(recs).len() == 1 + nonzero_records(recs).len(),
        forall|i: int| 0 <= i < nonzero_records(recs).len()
            ==> (#[trigger] nonzero_records(recs)[i]).meditation_minutes != 0,
        forall|t: int| 0 <= t < recs.len() && (#[trigger] recs[t]).meditation_minutes != 0
            ==> nonzero_records(recs).contains(recs[t]),
    decreases recs.len(),
{
    if recs.len() > 0 {
        lemma_row_count(recs.drop_last());
        let pre = recs.drop_last();
        let nz = nonzero_records(recs);
        assert forall|t: int| 0 <= t < recs.len() && (#[trigger] recs[t]).meditation_minutes != 0
            implies nz.contains(recs[t]) by {
            if t < recs.len() - 1 {
                assert(pre[t] == recs[t]);
                assert(nonzero_records(pre).contains(recs[t]));
                let w = choose|w: int| 0 <= w < nonzero_records(pre).len()
                    && nonzero_records(pre)[w] == recs[t];
                if recs.last().meditation_minutes != 0 {
                    assert(nz[w] == recs[t]);
                } else {
                    assert(nz[w] == recs[t]);
                }
            } else {
                assert(nz.last() == recs[t]);
            }
        }
    }
}

/// Law of the round trip: reading a kept row's duration fields back as
/// signed decimals, and its first field as a text, recovers the record's
/// application name, minute count and second remainder exactly.
pub proof fn lemma_rows_roundtrip(recs: Seq<RecordView>)
    ensures
        forall|i: int| 0 <= i < nonzero_records(recs).len() ==> {
            let row = rows_of(recs)[i + 1];
            let rec = #[trigger] nonzero_records(recs)[i];
            &&& row[0] == rec.app_name
            &&& parse_int(row[2]) == Some(rec.meditation_minutes)
            &&& parse_int(row[3]) == Some(rec.dropped_seconds)
        },
{
    let nz = nonzero_records(recs);
    assert forall|i: int| 0 <= i < nz.len() implies {
        let row = rows_of(recs)[i + 1];
        let rec = #[trigger] nz[i];
        &&& row[0] == rec.app_name
        &&& parse_int(row[2]) == Some(rec.meditation_minutes)
        &&& parse_int(row[3]) == Some(rec.dropped_seconds)
    } by {
        let rec = nz[i];
        assert(rows_of(recs)[i + 1] == row_of(rec));
        lemma_parse_int_str(rec.meditation_minutes);
        lemma_parse_int_str(rec.dropped_seconds);
    }
}

impl BloomRecord {
    /// Encodes the records as a delimited table: the header row, then one
    /// row per record whose minute count is not zero, in order — records
    /// with a zero minute count never appear. Fails with `Serialization`
    /// exactly where some kept record's start instant has no text
    /// rendering; on every other input it succeeds.
    pub fn write_csv(bloom_data: &Vec<BloomRecord>) -> (r: Result<Vec<u8>, PipelineError>)
        ensures
            r matches Ok(b) ==> rows_renderable(bloom_data.deep_view()) && b@ == table_bytes(
                bloom_data.deep_view(),
            ),
            r matches Err(e) ==> e is Serialization,
            rows_renderable(bloom_data.deep_view()) ==> r is Ok,
    {
        let ghost recs = bloom_data.deep_view();
        let mut header: Vec<String> = Vec::new();
        header.push(String::from_str("App Name"));
        header.push(String::from_str("Start Time"));
        header.push(String::from_str("Duration"));
        header.push(String::from_str("Dropped Seconds"));
        proof {
            assert(header.deep_view() =~= header_row());
        }
        let mut out: Vec<u8> = match csv_encode_row(&header) {
            Ok(b) => b,
            Err(e) => {
                return Err(e);
            },
        };
        proof {
            let rows0 = seq![header_row()];
            assert(rows0.drop_last() =~= Seq::<Seq<Seq<char>>>::empty());
            assert(rows0.last() == header_row());
            assert(bytes_of_rows(rows0) == bytes_of_rows(Seq::<Seq<Seq<char>>>::empty())
                + csv_row_bytes(header_row()));
            assert(bytes_of_rows(Seq::<Seq<Seq<char>>>::empty()) + csv_row_bytes(header_row())
                =~= csv_row_bytes(header_row()));
            assert(out@ =~= bytes_of_rows(rows0));
            assert(recs.subrange(0, 0) =~= Seq::<RecordView>::empty());
            assert(nonzero_records(recs.subrange(0, 0)).map_values(|r: RecordView| row_of(r))
                =~= Seq::<Seq<Seq<char>>>::empty());
            assert(rows_of(recs.subrange(0, 0)) =~= rows0);
        }
        let mut k: usize = 0;
        while k < bloom_data.len()
            invariant
                k <= bloom_data.len(),
                recs == bloom_data.deep_view(),
                recs.len() == bloom_data@.len(),
                out@ == bytes_of_rows(rows_of(recs.subrange(0, k as int))),
                rows_renderable(recs.subrange(0, k as int)),
            decreases bloom_data.len() - k,
        {
            let ghost pre = recs.subrange(0, k as int);
            let ghost pre1 = recs.subrange(0, k as int + 1);
            let ghost rec_v = recs[k as int];
            proof {
                assert(pre1 =~= pre.push(rec_v));
                lemma_nonzero_push(pre, rec_v);
            }
            let record = &bloom_data[k];
            assert(record@ == rec_v);
            if record.meditation_minutes != 0 {
                let when = match format_timestamp(record.occurred_at) {
                    Some(t) => t,
                    None => {
                        proof {
                            lemma_row_count(recs);
                            assert(nonzero_records(recs).contains(rec_v));
                            let w = choose|w: int| 0 <= w < nonzero_records(recs).len()
                                && nonzero_records(recs)[w] == rec_v;
                            assert(utc_text(nonzero_records(recs)[w].occurred_at) is None);
                            assert(!rows_renderable(recs));
                        }
                        return Err(
                            PipelineError::Serialization(
                                String::from_str("start instant out of range"),
                            ),
                        );
                    },
                };
                let mut fields: Vec<String> = Vec::new();
                fields.push(record.app_name.clone());
                fields.push(when);
                fields.push(crate::numerals::format_i32(record.meditation_minutes));
                fields.push(crate::numerals::format_i32(record.dropped_seconds));
                proof {
                    assert(fields.deep_view() =~= row_of(rec_v));
                }
                let mut row = match csv_encode_row(&fields) {
                    Ok(b) => b,
                    Err(e) => {
                        return Err(e);
                    },
                };
                let ghost out0 = out@;
                out.append(&mut row);
                proof {
                    let nz0 = nonzero_records(pre).map_values(|r: RecordView| row_of(r));
                    let nz1 = nonzero_records(pre1).map_values(|r: RecordView| row_of(r));
                    assert(nz1 =~= nz0.push(row_of(rec_v)));
                    let rows0 = rows_of(pre);
                    let rows1 = rows_of(pre1);
                    assert(rows1 =~= rows0.push(row_of(rec_v)));
                    assert(rows1.drop_last() =~= rows0);
                    assert(rows1.last() == row_of(rec_v));
                    assert(out@ == bytes_of_rows(rows1));
                    assert forall|i: int| 0 <= i < nonzero_records(pre1).len() implies utc_text(
                        (#[trigger] nonzero_records(pre1)[i]).occurred_at,
                    ) is Some by {
                        if i < nonzero_records(pre).len() {
                            assert(nonzero_records(pre1)[i] == nonzero_records(pre)[i]);
                        } else {
                            assert(nonzero_records(pre1)[i] == rec_v);
                        }
                    }
                }
            } else {
                proof {
                    assert(nonzero_records(pre1) == nonzero_records(pre));
                    assert(rows_of(pre1) == rows_of(pre));
                }
            }
            k += 1;
        }
        proof {
            assert(recs.subrange(0, k as int) =~= recs);
        }
        Ok(out)
    }
}

} // verus!
