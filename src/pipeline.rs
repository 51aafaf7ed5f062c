//! The pipeline driver: routes `row` elements through the filter, the
//! decoder and the emitter, and keeps the `seen` and `emitted` counters.
use vstd::prelude::*;
use crate::decode::{decode, decode_spec, discriminant_spec, Attr, DecodeError, Fault, RecordView};
use crate::schema::{columns, label_of, PostType};
use crate::emit::{
    csv_line, encode_header, encode_record, header_fields, lemma_record_label, record_fields,
};

verus! {

/// One self-closed element of the input: its name and its attributes.
#[derive(Clone, Debug, PartialEq, Eq)]
pub struct Element {
    pub name: Vec<u8>,
    pub attrs: Vec<Attr>,
}

/// The driver's counters: `row` elements met, and records written.
#[derive(Clone, Copy, PartialEq, Eq, Structural, Debug)]
pub struct Tally {
    pub seen: u64,
    pub emitted: u64,
}

/// The name of the elements that carry records.
pub open spec fn row_name() -> Seq<u8> {
    seq![114u8, 111u8, 119u8]
}

pub open spec fn is_row(e: Element) -> bool {
    e.name@ == row_name()
}

/// What an element amounts to: nothing for one that is not a `row`, else
/// the decoder's outcome.
pub open spec fn outcome(e: Element) -> Result<Option<RecordView>, Fault> {
    if is_row(e) {
        decode_spec(e.attrs@)
    } else {
        Ok(None)
    }
}

/// The lines an element adds to the output, each as its fields, when
/// `emitted` records were written before it: the header goes before the
/// first record.
pub open spec fn new_lines(emitted: nat, e: Element) -> Seq<Seq<Seq<u8>>> {
    match outcome(e) {
        Ok(Some(rec)) => if emitted == 0 {
            seq![header_fields(), record_fields(rec)]
        } else {
            seq![record_fields(rec)]
        },
        _ => Seq::empty(),
    }
}

/// The bytes of a sequence of lines.
pub open spec fn lines_text(lines: Seq<Seq<Seq<u8>>>) -> Seq<u8>
    decreases lines.len(),
{
    if lines.len() == 0 {
        Seq::empty()
    } else {
        lines_text(lines.drop_last()) + csv_line(lines.last())
    }
}

/// The state of a run over a sequence of elements.
pub struct RunView {
    pub seen: nat,
    pub emitted: nat,
    /// Every line written so far, header included, each as its fields.
    pub lines: Seq<Seq<Seq<u8>>>,
    /// The fault that stopped the run, if one did.
    pub fault: Option<Fault>,
}

pub open spec fn step_spec(s: RunView, e: Element) -> RunView {
    let seen = if is_row(e) {
        s.seen + 1
    } else {
        s.seen
    };
    match outcome(e) {
        Err(f) => RunView { seen, emitted: s.emitted, lines: s.lines, fault: Some(f) },
        Ok(None) => RunView { seen, emitted: s.emitted, lines: s.lines, fault: None },
        Ok(Some(_)) => RunView {
            seen,
            emitted: s.emitted + 1,
            lines: s.lines + new_lines(s.emitted, e),
            fault: None,
        },
    }
}

/// A run over `elems` in order, which stops at the first fault.
pub open spec fn run_spec(elems: Seq<Element>) -> RunView
    decreases elems.len(),
{
    if elems.len() == 0 {
        RunView { seen: 0, emitted: 0, lines: Seq::empty(), fault: None }
    } else {
        let prev = run_spec(elems.drop_last());
        if prev.fault is Some {
            prev
        } else {
            step_spec(prev, elems.last())
        }
    }
}

fn is_row_name(name: &Vec<u8>) -> (r: bool)
    ensures
        r == (name@ == row_name()),
{
    if name.len() == 3 && name[0] == 114u8 && name[1] == 111u8 && name[2] == 119u8 {
        assert(name@ =~= row_name());
        true
    } else {
        false
    }
}

proof fn lemma_lines_text_two(a: Seq<Seq<u8>>, b: Seq<Seq<u8>>)
    ensures
        lines_text(seq![a, b]) == csv_line(a) + csv_line(b),
        lines_text(seq![b]) == csv_line(b),
{
    let empty = Seq::<Seq<Seq<u8>>>::empty();
    assert(seq![a, b].drop_last() =~= seq![a]);
    assert(seq![a].drop_last() =~= empty);
    assert(seq![b].drop_last() =~= empty);
    assert(lines_text(empty) == Seq::<u8>::empty());
    assert(lines_text(seq![a]) =~= lines_text(empty) + csv_line(a));
    assert(lines_text(seq![b]) =~= lines_text(empty) + csv_line(b));
    assert(lines_text(seq![a, b]) == lines_text(seq![a]) + csv_line(b));
}

/// Handles one element of the input and returns the bytes to append to the
/// output: the header before the first record, then the record's line.
/// Elements not named `row` change nothing; every `row` counts as seen,
/// whatever becomes of it. A record that cannot be decoded gives its error;
/// the caller stops the run there.
pub fn handle_element(tally: &mut Tally, e: &Element) -> (r: Result<Vec<u8>, DecodeError>)
    requires
        old(tally).seen < u64::MAX,
        old(tally).emitted <= old(tally).seen,
    ensures
        final(tally).seen == (if is_row(*e) {
            old(tally).seen + 1
        } else {
            old(tally).seen as int
        }),
        final(tally).emitted <= final(tally).seen,
        outcome(*e) is Ok <==> r is Ok,
        match r {
            Ok(out) => {
                &&& outcome(*e) is Ok
                &&& final(tally).emitted == (if outcome(*e) is Ok && outcome(*e)->Ok_0 is Some {
                    old(tally).emitted + 1
                } else {
                    old(tally).emitted as int
                })
                &&& out@ == lines_text(new_lines(old(tally).emitted as nat, *e))
            },
            Err(err) => {
                &&& outcome(*e) == Err::<Option<RecordView>, Fault>(err@)
                &&& final(tally).emitted == old(tally).emitted
            },
        },
{
    if !is_row_name(&e.name) {
        return Ok(Vec::new());
    }
    tally.seen = tally.seen + 1;
    match decode(&e.attrs) {
        Err(err) => Err(err),
        Ok(None) => Ok(Vec::new()),
        Ok(Some(rec)) => {
            let ghost rv = rec@;
            proof {
                lemma_lines_text_two(header_fields(), record_fields(rv));
                lemma_record_label(e.attrs@);
            }
            let mut out: Vec<u8> = if tally.emitted == 0 {
                encode_header()
            } else {
                Vec::new()
            };
            let mut line = encode_record(&rec).unwrap();
            out.append(&mut line);
            tally.emitted = tally.emitted + 1;
            Ok(out)
        },
    }
}

/// Runs the driver over a whole sequence of elements, in order, and returns
/// the counters and the output text; it stops at the first error.
pub fn convert(elems: &Vec<Element>) -> (r: (Tally, Result<Vec<u8>, DecodeError>))
    ensures
        r.0.seen == run_spec(elems@).seen,
        r.0.emitted == run_spec(elems@).emitted,
        run_spec(elems@).fault is None <==> r.1 is Ok,
        r.1 is Ok ==> r.1->Ok_0@ == lines_text(run_spec(elems@).lines),
        r.1 matches Err(e) ==> run_spec(elems@).fault == Some(e@),
{
    let mut tally = Tally { seen: 0, emitted: 0 };
    let mut out: Vec<u8> = Vec::new();
    let mut i: usize = 0;
    assert(elems@.subrange(0, 0) =~= Seq::<Element>::empty());
    assert(lines_text(Seq::<Seq<Seq<u8>>>::empty()) == Seq::<u8>::empty());
    while i < elems.len()
        invariant
            i <= elems.len(),
            run_spec(elems@.subrange(0, i as int)).fault is None,
            tally.seen == run_spec(elems@.subrange(0, i as int)).seen,
            tally.emitted == run_spec(elems@.subrange(0, i as int)).emitted,
            tally.emitted <= tally.seen,
            tally.seen <= i,
            out@ == lines_text(run_spec(elems@.subrange(0, i as int)).lines),
        decreases elems.len() - i,
    {
        let ghost prefix = elems@.subrange(0, i as int);
        let ghost next = elems@.subrange(0, i + 1);
        assert(next.drop_last() =~= prefix);
        assert(next.last() == elems@[i as int]);
        let ghost before = out@;
        match handle_element(&mut tally, &elems[i]) {
            Err(err) => {
                proof {
                    lemma_fault_stays(elems@, i + 1);
                }
                return (tally, Err(err));
            },
            Ok(more) => {
                let mut more = more;
                proof {
                    lemma_lines_text_append(
                        run_spec(prefix).lines,
                        new_lines(run_spec(prefix).emitted, elems@[i as int]),
                    );
                }
                out.append(&mut more);
            },
        }
        i = i + 1;
    }
    assert(elems@.subrange(0, i as int) =~= elems@);
    (tally, Ok(out))
}

proof fn lemma_lines_text_append(a: Seq<Seq<Seq<u8>>>, b: Seq<Seq<Seq<u8>>>)
    ensures
        lines_text(a + b) == lines_text(a) + lines_text(b),
    decreases b.len(),
{
    if b.len() == 0 {
        assert(a + b =~= a);
        assert(lines_text(a) + Seq::<u8>::empty() =~= lines_text(a));
    } else {
        lemma_lines_text_append(a, b.drop_last());
        assert((a + b).drop_last() =~= a + b.drop_last());
        assert((a + b).last() == b.last());
        assert(lines_text(a) + lines_text(b.drop_last()) + csv_line(b.last()) =~= lines_text(a) + (
        lines_text(b.drop_last()) + csv_line(b.last())));
    }
}

/// Once a run has stopped, later elements change nothing.
proof fn lemma_fault_stays(elems: Seq<Element>, k: int)
    requires
        0 <= k <= elems.len(),
        run_spec(elems.subrange(0, k)).fault is Some,
    ensures
        run_spec(elems) == run_spec(elems.subrange(0, k)),
    decreases elems.len() - k,
{
    if k < elems.len() {
        assert(elems.subrange(0, k + 1).drop_last() =~= elems.subrange(0, k));
        lemma_fault_stays(elems, k + 1);
    } else {
        assert(elems.subrange(0, k) =~= elems);
    }
}

/// The number of `row` elements in a sequence.
pub open spec fn count_rows(elems: Seq<Element>) -> nat
    decreases elems.len(),
{
    if elems.len() == 0 {
        0
    } else {
        count_rows(elems.drop_last()) + if is_row(elems.last()) {
            1nat
        } else {
            0nat
        }
    }
}

/// How many elements a run takes in: all of them, or those up to and
/// including the one whose fault stopped it.
pub open spec fn taken(elems: Seq<Element>) -> nat
    decreases elems.len(),
{
    if elems.len() == 0 {
        0
    } else if run_spec(elems.drop_last()).fault is Some {
        taken(elems.drop_last())
    } else {
        elems.len()
    }
}

/// The run has seen exactly the `row` elements among those it took in,
/// whether they were written, dropped, or stopped it; a run that finishes
/// takes in every element.
pub proof fn lemma_seen_counts_rows(elems: Seq<Element>)
    ensures
        taken(elems) <= elems.len(),
        run_spec(elems).seen == count_rows(elems.subrange(0, taken(elems) as int)),
        run_spec(elems).fault is None ==> taken(elems) == elems.len(),
    decreases elems.len(),
{
    if elems.len() > 0 {
        let prev = elems.drop_last();
        lemma_seen_counts_rows(prev);
        if run_spec(prev).fault is Some {
            assert(prev.subrange(0, taken(prev) as int) =~= elems.subrange(0, taken(elems) as int));
        } else {
            assert(prev.subrange(0, prev.len() as int) =~= prev);
            assert(elems.subrange(0, elems.len() as int) =~= elems);
        }
    } else {
        assert(elems.subrange(0, 0) =~= elems);
    }
}

/// The output holds one line per record written, plus the header before the
/// first of them; with no record written it is empty.
pub proof fn lemma_emitted_counts_lines(elems: Seq<Element>)
    ensures
        run_spec(elems).lines.len() == (if run_spec(elems).emitted == 0 {
            0
        } else {
            run_spec(elems).emitted + 1
        }),
        run_spec(elems).emitted > 0 ==> run_spec(elems).lines[0] == header_fields(),
        run_spec(elems).emitted <= run_spec(elems).seen,
    decreases elems.len(),
{
    if elems.len() > 0 {
        lemma_emitted_counts_lines(elems.drop_last());
    }
}

/// A record whose discriminant selects no accepted kind adds no line to the
/// output and is not counted as written.
pub proof fn lemma_dropped_kind_writes_nothing(s: RunView, e: Element)
    requires
        discriminant_spec(e.attrs@) == Ok::<Option<PostType>, Fault>(None),
    ensures
        new_lines(s.emitted, e) == Seq::<Seq<Seq<u8>>>::empty(),
        step_spec(s, e).lines == s.lines,
        step_spec(s, e).emitted == s.emitted,
        step_spec(s, e).fault is None,
{
}

/// Every line after the header belongs to a record of an accepted kind: its
/// `post_type` field names a question or an answer.
pub proof fn lemma_output_kinds_accepted(elems: Seq<Element>)
    ensures
        forall|j: int|
            1 <= j < run_spec(elems).lines.len() ==> {
                &&& (#[trigger] run_spec(elems).lines[j]).len() == columns().len()
                &&& run_spec(elems).lines[j][1] == label_of(PostType::Question)
                    || run_spec(elems).lines[j][1] == label_of(PostType::Answer)
            },
    decreases elems.len(),
{
    if elems.len() > 0 {
        let prev = run_spec(elems.drop_last());
        lemma_output_kinds_accepted(elems.drop_last());
        lemma_emitted_counts_lines(elems.drop_last());
        let e = elems.last();
        if prev.fault is None && outcome(e) is Ok && outcome(e)->Ok_0 is Some {
            lemma_record_label(e.attrs@);
            let lines = run_spec(elems).lines;
            assert forall|j: int| 1 <= j < lines.len() implies {
                &&& (#[trigger] lines[j]).len() == columns().len()
                &&& lines[j][1] == label_of(PostType::Question) || lines[j][1] == label_of(
                    PostType::Answer,
                )
            } by {
                if j < prev.lines.len() {
                    assert(lines[j] == prev.lines[j]);
                }
            }
        }
    }
}

} // verus!
