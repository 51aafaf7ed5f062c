//! The tabular emitter: a decoded record becomes one line of comma-separated
//! text, with the header derived from the schema's column list.
use vstd::prelude::*;
use crate::decimal::{
    decimal_of, lemma_signed_round_trip, lemma_unsigned_round_trip, render_signed, render_unsigned,
    signed_decimal_of, signed_of, unsigned_of,
};
use crate::decode::{
    decode_spec, field_spec, lemma_fields_each, lookup, opt_cell, xml_unescape, Attr, Cell, Fault,
    Record, RecordView, Value,
};
use crate::schema::{
    attr_name, column_kind, column_list, column_title, columns, lemma_rules_follow_columns,
    label_of, rules_of, title, Column, Kind, PostType,
};

verus! {

pub const COMMA: u8 = 44;

pub const QUOTE: u8 = 34;

pub const NEWLINE: u8 = 10;

pub const RETURN: u8 = 13;

/// A byte that forces a field to be quoted.
pub open spec fn is_special(b: u8) -> bool {
    b == COMMA || b == QUOTE || b == NEWLINE || b == RETURN
}

pub open spec fn needs_quotes(f: Seq<u8>) -> bool {
    exists|i: int| 0 <= i < f.len() && #[trigger] is_special(f[i])
}

/// The field with every quote doubled.
pub open spec fn doubled(f: Seq<u8>) -> Seq<u8>
    decreases f.len(),
{
    if f.len() == 0 {
        Seq::empty()
    } else if f[0] == QUOTE {
        seq![QUOTE, QUOTE] + doubled(f.drop_first())
    } else {
        seq![f[0]] + doubled(f.drop_first())
    }
}

/// A field as it stands in a line: wrapped in quotes, with internal quotes
/// doubled, where it holds a comma, a quote or a line break; else as it is.
pub open spec fn escape_field(f: Seq<u8>) -> Seq<u8> {
    if needs_quotes(f) {
        seq![QUOTE] + doubled(f) + seq![QUOTE]
    } else {
        f
    }
}

/// The escaped fields, separated by commas.
pub open spec fn joined(fields: Seq<Seq<u8>>) -> Seq<u8>
    decreases fields.len(),
{
    if fields.len() == 0 {
        Seq::empty()
    } else if fields.len() == 1 {
        escape_field(fields[0])
    } else {
        escape_field(fields[0]) + seq![COMMA] + joined(fields.drop_first())
    }
}

/// One line of output: the joined fields and a line feed.
pub open spec fn csv_line(fields: Seq<Seq<u8>>) -> Seq<u8> {
    joined(fields) + seq![NEWLINE]
}

/// The text a cell renders as: decimal digits for a number, the text itself
/// for a text, and nothing for an absent value.
pub open spec fn cell_text(c: Option<Cell>) -> Seq<u8> {
    match c {
        None => Seq::empty(),
        Some(Cell::Unsigned(n)) => decimal_of(n as nat),
        Some(Cell::Signed(n)) => signed_decimal_of(n as int),
        Some(Cell::Text(t)) => t,
    }
}

/// The fields of a record's line, in column order.
pub open spec fn record_fields(r: RecordView) -> Seq<Seq<u8>> {
    r.cells.map_values(|c| cell_text(c))
}

/// The fields of the header line.
pub open spec fn header_fields() -> Seq<Seq<u8>> {
    columns().map_values(|c| column_title(c))
}

pub open spec fn byte_views(v: Seq<Vec<u8>>) -> Seq<Seq<u8>> {
    v.map_values(|f: Vec<u8>| f@)
}

/// Relies on csv::Writer with its default settings (comma delimiter, `"`
/// quotes doubled inside a field, quoting only where a field holds a
/// delimiter, a quote or a line break, `\n` after the record), writing one
/// record of two or more fields into memory. Writing into a `Vec` never
/// fails, and a fresh writer has no earlier record whose length could differ.
#[verifier::external_body]
fn write_csv_record(fields: &Vec<Vec<u8>>) -> (r: Option<Vec<u8>>)
    requires
        fields.len() >= 2,
    ensures
        r is Some,
        r matches Some(line) ==> line@ == csv_line(byte_views(fields@)),
{
    let mut writer = csv::Writer::from_writer(Vec::new());
    writer.write_record(fields.iter()).ok()?;
    writer.into_inner().ok()
}

/// Renders one value as the text of its field; an absent value renders as
/// an empty field.
pub fn render_value(v: &Option<Value>) -> (r: Vec<u8>)
    ensures
        r@ == cell_text(opt_cell(*v)),
        v.is_none() ==> r@.len() == 0,
{
    match v {
        None => Vec::new(),
        Some(Value::Unsigned(n)) => render_unsigned(*n),
        Some(Value::Signed(n)) => render_signed(*n),
        Some(Value::Text(t)) => {
            let mut out: Vec<u8> = Vec::new();
            let mut i: usize = 0;
            while i < t.len()
                invariant
                    i <= t.len(),
                    out@ == t@.subrange(0, i as int),
                decreases t.len() - i,
            {
                out.push(t[i]);
                i = i + 1;
                assert(out@ =~= t@.subrange(0, i as int));
            }
            assert(out@ =~= t@);
            out
        },
    }
}

/// The field texts of a record, in column order.
pub fn render_record(rec: &Record) -> (r: Vec<Vec<u8>>)
    ensures
        byte_views(r@) == record_fields(rec@),
{
    let mut out: Vec<Vec<u8>> = Vec::new();
    let mut i: usize = 0;
    while i < rec.values.len()
        invariant
            i <= rec.values.len(),
            byte_views(out@) == record_fields(rec@).subrange(0, i as int),
        decreases rec.values.len() - i,
    {
        let f = render_value(&rec.values[i]);
        let ghost prev = out@;
        let ghost fv = f@;
        out.push(f);
        assert(byte_views(out@) =~= byte_views(prev).push(fv));
        assert(record_fields(rec@)[i as int] == cell_text(opt_cell(rec.values@[i as int])));
        i = i + 1;
        assert(byte_views(out@) =~= record_fields(rec@).subrange(0, i as int));
    }
    assert(record_fields(rec@).subrange(0, i as int) =~= record_fields(rec@));
    out
}

/// The header's field texts: the column titles, in order.
pub fn header_record() -> (r: Vec<Vec<u8>>)
    ensures
        byte_views(r@) == header_fields(),
        r.len() == columns().len(),
{
    let cols = column_list();
    let mut out: Vec<Vec<u8>> = Vec::new();
    let mut i: usize = 0;
    while i < cols.len()
        invariant
            i <= cols.len(),
            cols@ == columns(),
            byte_views(out@) == header_fields().subrange(0, i as int),
        decreases cols.len() - i,
    {
        let f = title(cols[i]);
        let ghost prev = out@;
        let ghost fv = f@;
        out.push(f);
        assert(byte_views(out@) =~= byte_views(prev).push(fv));
        i = i + 1;
        assert(byte_views(out@) =~= header_fields().subrange(0, i as int));
    }
    assert(header_fields().subrange(0, i as int) =~= header_fields());
    out
}

/// The header line.
pub fn encode_header() -> (r: Vec<u8>)
    ensures
        r@ == csv_line(header_fields()),
{
    let fields = header_record();
    assert(columns().len() == 12);
    write_csv_record(&fields).unwrap()
}

/// The line of a record; `None` exactly where the record has fewer than
/// two fields.
pub fn encode_record(rec: &Record) -> (r: Option<Vec<u8>>)
    ensures
        r matches Some(line) ==> line@ == csv_line(record_fields(rec@)),
        r is Some <==> rec.values.len() >= 2,
{
    let fields = render_record(rec);
    assert(byte_views(fields@).len() == fields.len());
    assert(record_fields(rec@).len() == rec.values.len());
    if fields.len() < 2 {
        return None;
    }
    write_csv_record(&fields)
}

/// A decoded record's line has one field per column, and its `post_type`
/// field names the record's kind.
pub proof fn lemma_record_label(attrs: Seq<Attr>)
    requires
        decode_spec(attrs) is Ok,
        decode_spec(attrs)->Ok_0 is Some,
    ensures
        record_fields(decode_spec(attrs)->Ok_0->Some_0).len() == columns().len(),
        record_fields(decode_spec(attrs)->Ok_0->Some_0)[1] == label_of(
            decode_spec(attrs)->Ok_0->Some_0.post_type,
        ),
{
    let rec = decode_spec(attrs)->Ok_0->Some_0;
    let t = rec.post_type;
    lemma_rules_follow_columns(t);
    lemma_fields_each(rules_of(t), t, attrs);
    assert(rules_of(t)[1].column == Column::PostType);
    assert(field_spec(rules_of(t)[1], t, attrs) == Ok::<Option<Cell>, Fault>(rec.cells[1]));
}

/// An absent value is written as an empty field.
pub proof fn lemma_absent_is_empty()
    ensures
        escape_field(cell_text(None)) == Seq::<u8>::empty(),
{
    assert(!needs_quotes(Seq::<u8>::empty()));
}

/// How many bytes an unquoted field spans: up to the first comma or line
/// feed.
pub open spec fn plain_len(s: Seq<u8>) -> nat
    decreases s.len(),
{
    if s.len() == 0 || s[0] == COMMA || s[0] == NEWLINE {
        0
    } else {
        1 + plain_len(s.drop_first())
    }
}

/// Reads the inside of a quoted field, just after its opening quote: its
/// text, with doubled quotes made single, and what follows the closing
/// quote; `None` where the quote is never closed.
pub open spec fn read_quoted(s: Seq<u8>) -> Option<(Seq<u8>, Seq<u8>)>
    decreases s.len(),
{
    if s.len() == 0 {
        None
    } else if s[0] == QUOTE {
        if s.len() >= 2 && s[1] == QUOTE {
            match read_quoted(s.subrange(2, s.len() as int)) {
                Some((text, rest)) => Some((seq![QUOTE] + text, rest)),
                None => None,
            }
        } else {
            Some((Seq::empty(), s.drop_first()))
        }
    } else {
        match read_quoted(s.drop_first()) {
            Some((text, rest)) => Some((seq![s[0]] + text, rest)),
            None => None,
        }
    }
}

/// Reads one field from the start of `s`: its text and what follows it.
pub open spec fn read_field(s: Seq<u8>) -> Option<(Seq<u8>, Seq<u8>)> {
    if s.len() > 0 && s[0] == QUOTE {
        read_quoted(s.drop_first())
    } else {
        let n = plain_len(s) as int;
        Some((s.subrange(0, n), s.subrange(n, s.len() as int)))
    }
}

/// A reader of one line of comma-separated text, terminated by a line feed:
/// the fields it holds, or `None` where it is malformed.
pub open spec fn read_line(s: Seq<u8>) -> Option<Seq<Seq<u8>>>
    decreases s.len(),
{
    match read_field(s) {
        None => None,
        Some((f, rest)) => if rest.len() == 1 && rest[0] == NEWLINE {
            Some(seq![f])
        } else if rest.len() > 0 && rest[0] == COMMA && rest.len() <= s.len() {
            match read_line(rest.drop_first()) {
                Some(fs) => Some(seq![f] + fs),
                None => None,
            }
        } else {
            None
        },
    }
}

proof fn lemma_read_plain(f: Seq<u8>, tail: Seq<u8>)
    requires
        !needs_quotes(f),
        tail.len() > 0,
        tail[0] == COMMA || tail[0] == NEWLINE,
    ensures
        plain_len(f + tail) == f.len(),
    decreases f.len(),
{
    if f.len() > 0 {
        assert(!is_special(f[0]));
        assert(!needs_quotes(f.drop_first())) by {
            if needs_quotes(f.drop_first()) {
                let i = choose|i: int|
                    0 <= i < f.drop_first().len() && #[trigger] is_special(f.drop_first()[i]);
                assert(is_special(f[i + 1]));
            }
        }
        lemma_read_plain(f.drop_first(), tail);
        assert((f + tail).drop_first() =~= f.drop_first() + tail);
    } else {
        assert(f + tail =~= tail);
    }
}

proof fn lemma_read_doubled(f: Seq<u8>, tail: Seq<u8>)
    requires
        tail.len() > 0,
        tail[0] != QUOTE,
    ensures
        read_quoted(doubled(f) + seq![QUOTE] + tail) == Some((f, tail)),
    decreases f.len(),
{
    let s = doubled(f) + seq![QUOTE] + tail;
    if f.len() == 0 {
        assert(s =~= seq![QUOTE] + tail);
        assert(s.drop_first() =~= tail);
    } else {
        lemma_read_doubled(f.drop_first(), tail);
        let inner = doubled(f.drop_first()) + seq![QUOTE] + tail;
        if f[0] == QUOTE {
            assert(s =~= seq![QUOTE, QUOTE] + inner);
            assert(s.subrange(2, s.len() as int) =~= inner);
        } else {
            assert(s =~= seq![f[0]] + inner);
            assert(s.drop_first() =~= inner);
        }
        assert(seq![f[0]] + f.drop_first() =~= f);
    }
}

/// A field that holds a comma, a quote or a line break is written quoted,
/// any other as it is; and a reader takes every written field, followed by a
/// comma or a line feed, back as the text it was written from.
pub proof fn lemma_field_round_trip(f: Seq<u8>, tail: Seq<u8>)
    requires
        tail.len() > 0,
        tail[0] == COMMA || tail[0] == NEWLINE,
    ensures
        needs_quotes(f) ==> escape_field(f)[0] == QUOTE && escape_field(f).last() == QUOTE,
        !needs_quotes(f) ==> escape_field(f) == f,
        read_field(escape_field(f) + tail) == Some((f, tail)),
{
    let s = escape_field(f) + tail;
    if needs_quotes(f) {
        lemma_read_doubled(f, tail);
        assert(s.drop_first() =~= doubled(f) + seq![QUOTE] + tail);
    } else {
        lemma_read_plain(f, tail);
        if f.len() > 0 {
            assert(!is_special(f[0]));
        }
        assert(s.subrange(0, f.len() as int) =~= f);
        assert(s.subrange(f.len() as int, s.len() as int) =~= tail);
    }
}

/// Reading a written line gives back exactly the fields it was written from.
pub proof fn lemma_line_round_trip(fields: Seq<Seq<u8>>)
    requires
        fields.len() > 0,
    ensures
        read_line(csv_line(fields)) == Some(fields),
    decreases fields.len(),
{
    let s = csv_line(fields);
    if fields.len() == 1 {
        lemma_field_round_trip(fields[0], seq![NEWLINE]);
        assert(s =~= escape_field(fields[0]) + seq![NEWLINE]);
        assert(seq![fields[0]] =~= fields);
    } else {
        let rest = fields.drop_first();
        let tail = seq![COMMA] + csv_line(rest);
        lemma_field_round_trip(fields[0], tail);
        assert(s =~= escape_field(fields[0]) + tail);
        assert(tail.drop_first() =~= csv_line(rest));
        lemma_line_round_trip(rest);
        assert(seq![fields[0]] + rest =~= fields);
    }
}

/// The value that a field's text denotes under a column's type, as a reader
/// of the output would take it.
pub open spec fn reread(k: Kind, s: Seq<u8>) -> Option<Cell> {
    match k {
        Kind::Unsigned => match unsigned_of(s) {
            Some(n) => Some(Cell::Unsigned(n)),
            None => None,
        },
        Kind::Signed => match signed_of(s) {
            Some(n) => Some(Cell::Signed(n)),
            None => None,
        },
        _ => Some(Cell::Text(s)),
    }
}

/// Every field of a decoded record, as written in its line and read back by
/// a reader of the line, denotes what
/// the input attribute denoted after unescaping: the same number, or the
/// same text; an absent optional field reads back as an empty field.
pub proof fn lemma_record_round_trip(attrs: Seq<Attr>, i: int)
    requires
        decode_spec(attrs) is Ok,
        decode_spec(attrs)->Ok_0 is Some,
        0 <= i < columns().len(),
        column_kind(columns()[i]) != Kind::Label,
    ensures
        ({
            let rec = decode_spec(attrs)->Ok_0->Some_0;
            let c = columns()[i];
            let written = read_line(csv_line(record_fields(rec)))->Some_0[i];
            match lookup(attrs, attr_name(c)) {
                None => written == Seq::<u8>::empty(),
                Some(raw) => {
                    &&& xml_unescape(raw) is Some
                    &&& reread(column_kind(c), xml_unescape(raw)->Some_0) is Some
                    &&& reread(column_kind(c), written) == reread(
                        column_kind(c),
                        xml_unescape(raw)->Some_0,
                    )
                },
            }
        }),
{
    let rec = decode_spec(attrs)->Ok_0->Some_0;
    let t = rec.post_type;
    let c = columns()[i];
    lemma_rules_follow_columns(t);
    lemma_fields_each(rules_of(t), t, attrs);
    assert(rules_of(t)[i].column == c);
    let cell = rec.cells[i];
    assert(field_spec(rules_of(t)[i], t, attrs) == Ok::<Option<Cell>, Fault>(cell));
    assert(record_fields(rec)[i] == cell_text(cell));
    lemma_line_round_trip(record_fields(rec));
    match cell {
        Some(Cell::Unsigned(n)) => lemma_unsigned_round_trip(n),
        Some(Cell::Signed(n)) => lemma_signed_round_trip(n),
        _ => {},
    }
}

} // verus!
