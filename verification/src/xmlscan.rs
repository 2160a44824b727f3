//! The Record Filter: scans the document's structural events once and
//! keeps, as raw records, the attribute sets of the self-closing record
//! elements whose activity type marks a mindful session.
use vstd::prelude::*;
use crate::records::{MindfulSession, PipelineError, SessionView};

verus! {

broadcast use vstd::string::group_string_axioms;

/// The element name that carries activity records.
pub const RECORD_TAG: &'static str = "Record";

/// The activity-type value that marks a mindful session.
pub const MINDFUL_TYPE: &'static str = "HKCategoryTypeIdentifierMindfulSession";

/// Ghost image of one self-closing element: its name and its decoded
/// attributes in document order.
pub struct ElementView {
    pub name: Seq<char>,
    pub attrs: Seq<(Seq<char>, Seq<char>)>,
}

/// The decoded value of the last attribute named `key`; the empty text
/// where the element carries none of that name.
pub open spec fn attr_value(attrs: Seq<(Seq<char>, Seq<char>)>, key: Seq<char>) -> Seq<char>
    decreases attrs.len(),
{
    if attrs.len() == 0 {
        Seq::empty()
    } else if attrs.last().0 == key {
        attrs.last().1
    } else {
        attr_value(attrs.drop_last(), key)
    }
}

/// The raw record one element yields: one for a record-tag element whose
/// decoded activity type equals the mindful-session sentinel, none for
/// every other element.
pub open spec fn element_record(e: ElementView) -> Option<SessionView> {
    if e.name == RECORD_TAG@ && attr_value(e.attrs, "type"@) == MINDFUL_TYPE@ {
        Some(
            SessionView {
                app: attr_value(e.attrs, "sourceName"@),
                start: attr_value(e.attrs, "startDate"@),
                end: attr_value(e.attrs, "endDate"@),
            },
        )
    } else {
        None
    }
}

/// Law of the filter: an element whose activity type is not the
/// mindful-session sentinel yields no record, whatever its other
/// attributes carry; so does an element under any other name.
pub proof fn lemma_filter_rejects(e: ElementView)
    requires
        e.name != RECORD_TAG@ || attr_value(e.attrs, "type"@) != MINDFUL_TYPE@,
    ensures
        element_record(e) is None,
{
}

/// The raw records a sequence of elements yields, in document order.
pub open spec fn records_of(evs: Seq<ElementView>) -> Seq<SessionView>
    decreases evs.len(),
{
    if evs.len() == 0 {
        Seq::empty()
    } else {
        match element_record(evs.last()) {
            Some(r) => records_of(evs.drop_last()).push(r),
            None => records_of(evs.drop_last()),
        }
    }
}

#[verifier::external_type_specification]
#[verifier::external_body]
#[verifier::reject_recursive_types(R)]
pub struct ExReader<R>(quick_xml::Reader<R>);

#[verifier::external_type_specification]
#[verifier::external_body]
pub struct ExBytesStart<'a>(quick_xml::events::BytesStart<'a>);

/// One step of the scan, with the opaque element carried through for the
/// record-tag case.
enum ScanEvent<'a> {
    /// A self-closing element.
    SelfClosing(quick_xml::events::BytesStart<'a>),
    /// The end of the document.
    Eof,
    /// Any other structural event; the scan passes over it.
    Other,
}

/// Relies on quick_xml's `Reader::from_reader`: a reader positioned at
/// the start of the byte slice.
#[verifier::external_body]
fn reader_from_bytes(input: &[u8]) -> quick_xml::Reader<&[u8]> {
    quick_xml::Reader::from_reader(input)
}

/// Relies on quick_xml's `Reader::read_event`: the next structural event
/// of the document, `Eof` at its end, and an error on malformed markup.
#[verifier::external_body]
fn next_event<'a>(reader: &mut quick_xml::Reader<&'a [u8]>) -> (r: Result<
    ScanEvent<'a>,
    PipelineError,
>)
    ensures
        r matches Err(e) ==> e is Parse,
{
    match reader.read_event() {
        Err(e) => Err(PipelineError::Parse(e.to_string())),
        Ok(quick_xml::events::Event::Empty(el)) => Ok(ScanEvent::SelfClosing(el)),
        Ok(quick_xml::events::Event::Eof) => Ok(ScanEvent::Eof),
        Ok(_) => Ok(ScanEvent::Other),
    }
}

/// Relies on quick_xml's `BytesStart::name`: the element's name, as text.
#[verifier::external_body]
fn element_name(el: &quick_xml::events::BytesStart) -> String {
    el.name().as_ref().to_owned()
}

/// Relies on quick_xml's `Attributes` iterator and
/// `Attribute::unescape_value`: each attribute of the element as a
/// decoded (name, value) pair in document order, or the first
/// attribute-syntax or escape error.
#[allow(deprecated)]
#[verifier::external_body]
fn element_attributes(el: &quick_xml::events::BytesStart) -> (r: Result<
    Vec<(String, String)>,
    PipelineError,
>)
    ensures
        r matches Err(e) ==> e is Parse,
{
    let mut out: Vec<(String, String)> = Vec::new();
    for a in el.attributes() {
        let a = match a {
            Ok(a) => a,
            Err(e) => return Err(PipelineError::Parse(e.to_string())),
        };
        let v = match a.unescape_value() {
            Ok(v) => v,
            Err(e) => return Err(PipelineError::Parse(e.to_string())),
        };
        out.push((a.key.as_ref().to_owned(), v.into_owned()));
    }
    Ok(out)
}

impl MindfulSession {
    /// Decides one element from its decoded name and attributes: yields a
    /// raw record exactly for a record-tag element whose `type` attribute
    /// equals the mindful-session sentinel; for every element of another
    /// name or activity type it yields nothing.
    pub fn new_from_element(name: &String, attrs: &Vec<(String, String)>) -> (r: Option<
        MindfulSession,
    >)
        ensures
            ({
                let e = ElementView { name: name@, attrs: attrs.deep_view() };
                match r {
                    Some(s) => element_record(e) == Some(s@),
                    None => element_record(e) is None,
                }
            }),
    {
        let ghost e = ElementView { name: name@, attrs: attrs.deep_view() };
        let tag = String::from_str(RECORD_TAG);
        if !(*name == tag) {
            return None;
        }
        let ghost dv = attrs.deep_view();
        let key_type = String::from_str("type");
        let key_source = String::from_str("sourceName");
        let key_start = String::from_str("startDate");
        let key_end = String::from_str("endDate");
        let mut activity = String::new();
        let mut app = String::new();
        let mut start = String::new();
        let mut end = String::new();
        proof {
            assert(dv.subrange(0, 0) =~= Seq::<(Seq<char>, Seq<char>)>::empty());
        }
        let mut i: usize = 0;
        while i < attrs.len()
            invariant
                i <= attrs.len(),
                dv == attrs.deep_view(),
                dv.len() == attrs@.len(),
                key_type@ == "type"@,
                key_source@ == "sourceName"@,
                key_start@ == "startDate"@,
                key_end@ == "endDate"@,
                activity@ == attr_value(dv.subrange(0, i as int), "type"@),
                app@ == attr_value(dv.subrange(0, i as int), "sourceName"@),
                start@ == attr_value(dv.subrange(0, i as int), "startDate"@),
                end@ == attr_value(dv.subrange(0, i as int), "endDate"@),
            decreases attrs.len() - i,
        {
            let pair = &attrs[i];
            assert(pair.deep_view() == dv[i as int]);
            if pair.0 == key_type {
                activity = pair.1.clone();
            } else if pair.0 == key_source {
                app = pair.1.clone();
            } else if pair.0 == key_start {
                start = pair.1.clone();
            } else if pair.0 == key_end {
                end = pair.1.clone();
            }
            proof {
                reveal_strlit("type");
                reveal_strlit("sourceName");
                reveal_strlit("startDate");
                reveal_strlit("endDate");
                // the four keys are pairwise distinct: their lengths differ but
                // for startDate and endDate, whose first characters do
                assert("type"@.len() == 4 && "sourceName"@.len() == 10 && "startDate"@.len() == 9
                    && "endDate"@.len() == 7);
                assert("startDate"@[0] == 's' && "endDate"@[0] == 'e');
                let pre = dv.subrange(0, i as int);
                let pre1 = dv.subrange(0, i as int + 1);
                assert(pre1.drop_last() =~= pre);
                assert(pre1.last() == dv[i as int]);
            }
            i += 1;
        }
        proof {
            assert(dv.subrange(0, i as int) =~= dv);
        }
        let sentinel = String::from_str(MINDFUL_TYPE);
        if !(activity == sentinel) {
            return None;
        }
        Some(MindfulSession { app, start, end })
    }
}

/// Scans the whole document once and yields the raw records of every
/// matching self-closing element, in document order; a malformed document
/// aborts the scan with the parse error and no partial result.
pub fn scan_records(input: &[u8]) -> (r: Result<Vec<MindfulSession>, PipelineError>)
    ensures
        r matches Ok(v) ==> exists|evs: Seq<ElementView>| v.deep_view() == #[trigger] records_of(
            evs,
        ),
        r matches Err(e) ==> e is Parse,
{
    let mut reader = reader_from_bytes(input);
    let mut user_data: Vec<MindfulSession> = Vec::new();
    let ghost mut evs: Seq<ElementView> = Seq::empty();
    let tag = String::from_str(RECORD_TAG);
    // every structural event before Eof consumes input, so the scan sees
    // at most one event per input byte; the explicit bound keeps the
    // loop's progress evident
    let mut fuel: usize = input.len();
    loop
        invariant
            user_data.deep_view() == records_of(evs),
            tag@ == RECORD_TAG@,
        decreases fuel,
    {
        match next_event(&mut reader) {
            Err(e) => {
                return Err(e);
            },
            Ok(ScanEvent::Eof) => {
                break;
            },
            Ok(ScanEvent::SelfClosing(el)) => {
                let name = element_name(&el);
                if name == tag {
                    let attrs = match element_attributes(&el) {
                        Ok(a) => a,
                        Err(e) => {
                            return Err(e);
                        },
                    };
                    let ghost ev = ElementView { name: name@, attrs: attrs.deep_view() };
                    let ghost evs0 = evs;
                    let ghost old_records = user_data.deep_view();
                    match MindfulSession::new_from_element(&name, &attrs) {
                        Some(s) => {
                            let ghost sv = s@;
                            user_data.push(s);
                            proof {
                                evs = evs0.push(ev);
                                lemma_records_push(evs0, ev);
                                assert(user_data.deep_view() =~= old_records.push(sv));
                            }
                        },
                        None => {
                            proof {
                                evs = evs0.push(ev);
                                lemma_records_push(evs0, ev);
                            }
                        },
                    }
                } else {
                    let ghost ev = ElementView { name: name@, attrs: Seq::empty() };
                    proof {
                        let evs0 = evs;
                        evs = evs0.push(ev);
                        lemma_records_push(evs0, ev);
                    }
                }
            },
            Ok(ScanEvent::Other) => {},
        }
        if fuel == 0 {
            return Err(PipelineError::Parse(String::from_str("document does not end")));
        }
        fuel = fuel - 1;
    }
    Ok(user_data)
}

proof fn lemma_records_push(evs: Seq<ElementView>, e: ElementView)
    ensures
        records_of(evs.push(e)) == match element_record(e) {
            Some(r) => records_of(evs).push(r),
            None => records_of(evs),
        },
{
    assert(evs.push(e).drop_last() =~= evs);
    assert(evs.push(e).last() == e);
}

} // verus!
