//! The attribute decoder: one self-closed record's attributes, read against
//! the schema table, become a typed record, a skip, or a decode error.
//!
//! An attribute is looked up by name; an absent one is distinct from one
//! that is present but empty. A present, empty text field decodes as empty
//! text, not as an absent value; an empty number is a coercion error.
//! Attributes that the record's schema does not name are never read, nor
//! unescaped.
use vstd::prelude::*;
use crate::decimal::{parse_signed, parse_unsigned, signed_of, unsigned_of};
use crate::schema::{
    accepted_kind, attr_key, attr_name, column_kind, kind_of, label, label_of, post_type_of,
    rules_of, schema, Column, FieldRule, Kind, PostType,
};

verus! {

/// One attribute of a record element, with its value still entity-escaped
/// as it stands in the input.
#[derive(Clone, Debug, PartialEq, Eq)]
pub struct Attr {
    pub name: Vec<u8>,
    pub value: Vec<u8>,
}

/// A decoded field value.
#[derive(Clone, Debug, PartialEq, Eq)]
pub enum Value {
    Unsigned(u64),
    Signed(i32),
    Text(Vec<u8>),
}

/// A field value as a mathematical object.
pub enum Cell {
    Unsigned(u64),
    Signed(i32),
    Text(Seq<u8>),
}

/// A decoded record: its kind, and one value per field of the kind's schema,
/// `None` where an optional field was absent.
#[derive(Clone, Debug, PartialEq, Eq)]
pub struct Record {
    pub post_type: PostType,
    pub values: Vec<Option<Value>>,
}

pub struct RecordView {
    pub post_type: PostType,
    pub cells: Seq<Option<Cell>>,
}

/// Why a record could not be decoded.
#[derive(Clone, Debug, PartialEq, Eq)]
pub enum DecodeError {
    /// The record carries no discriminant attribute.
    MissingDiscriminant,
    /// The discriminant's text is not an unsigned number.
    UnparseableDiscriminant(Vec<u8>),
    /// A field that the record's kind requires is absent.
    MissingRequiredField(Column),
    /// A field's text is not of the field's type.
    TypeCoercion(Column, Vec<u8>),
    /// A field's value holds a malformed entity reference.
    BadEscape(Column),
}

/// `DecodeError` as a mathematical object.
pub enum Fault {
    MissingDiscriminant,
    UnparseableDiscriminant(Seq<u8>),
    MissingRequiredField(Column),
    TypeCoercion(Column, Seq<u8>),
    BadEscape(Column),
}

impl View for Value {
    type V = Cell;

    open spec fn view(&self) -> Cell {
        match self {
            Value::Unsigned(n) => Cell::Unsigned(*n),
            Value::Signed(n) => Cell::Signed(*n),
            Value::Text(t) => Cell::Text(t@),
        }
    }
}

pub open spec fn opt_cell(v: Option<Value>) -> Option<Cell> {
    match v {
        Some(x) => Some(x@),
        None => None,
    }
}

impl View for Record {
    type V = RecordView;

    open spec fn view(&self) -> RecordView {
        RecordView { post_type: self.post_type, cells: self.values@.map_values(|v| opt_cell(v)) }
    }
}

impl View for DecodeError {
    type V = Fault;

    open spec fn view(&self) -> Fault {
        match self {
            DecodeError::MissingDiscriminant => Fault::MissingDiscriminant,
            DecodeError::UnparseableDiscriminant(t) => Fault::UnparseableDiscriminant(t@),
            DecodeError::MissingRequiredField(c) => Fault::MissingRequiredField(*c),
            DecodeError::TypeCoercion(c, t) => Fault::TypeCoercion(*c, t@),
            DecodeError::BadEscape(c) => Fault::BadEscape(*c),
        }
    }
}

pub open spec fn decoded_view(r: Result<Option<Record>, DecodeError>) -> Result<
    Option<RecordView>,
    Fault,
> {
    match r {
        Ok(Some(rec)) => Ok(Some(rec@)),
        Ok(None) => Ok(None),
        Err(e) => Err(e@),
    }
}

/// The value of the first attribute named `key`, if any.
pub open spec fn lookup(attrs: Seq<Attr>, key: Seq<u8>) -> Option<Seq<u8>>
    decreases attrs.len(),
{
    if attrs.len() == 0 {
        None
    } else if attrs[0].name@ == key {
        Some(attrs[0].value@)
    } else {
        lookup(attrs.drop_first(), key)
    }
}

/// The text that an escaped attribute value stands for, with its entity
/// references replaced; `None` where one is malformed or unknown.
pub uninterp spec fn xml_unescape(raw: Seq<u8>) -> Option<Seq<u8>>;

/// What the discriminant attribute selects: a kind, `None` for a record
/// that is dropped, or the fault that stops the record.
pub open spec fn discriminant_spec(attrs: Seq<Attr>) -> Result<Option<PostType>, Fault> {
    match lookup(attrs, attr_name(Column::PostType)) {
        None => Err(Fault::MissingDiscriminant),
        Some(raw) => match xml_unescape(raw) {
            None => Err(Fault::BadEscape(Column::PostType)),
            Some(text) => match unsigned_of(text) {
                None => Err(Fault::UnparseableDiscriminant(text)),
                Some(d) => Ok(post_type_of(d)),
            },
        },
    }
}

/// The unescaped text of a field, coerced to the field's type.
pub open spec fn coerce_spec(c: Column, t: PostType, text: Seq<u8>) -> Result<Cell, Fault> {
    match column_kind(c) {
        Kind::Unsigned => match unsigned_of(text) {
            Some(n) => Ok(Cell::Unsigned(n)),
            None => Err(Fault::TypeCoercion(c, text)),
        },
        Kind::Signed => match signed_of(text) {
            Some(n) => Ok(Cell::Signed(n)),
            None => Err(Fault::TypeCoercion(c, text)),
        },
        Kind::Text => Ok(Cell::Text(text)),
        Kind::Label => Ok(Cell::Text(label_of(t))),
    }
}

/// One field of a record of kind `t`, under the presence policy of `rule`.
pub open spec fn field_spec(rule: FieldRule, t: PostType, attrs: Seq<Attr>) -> Result<
    Option<Cell>,
    Fault,
> {
    let c = rule.column;
    if column_kind(c) == Kind::Label {
        Ok(Some(Cell::Text(label_of(t))))
    } else {
        match lookup(attrs, attr_name(c)) {
            None => if rule.required {
                Err(Fault::MissingRequiredField(c))
            } else {
                Ok(None)
            },
            Some(raw) => match xml_unescape(raw) {
                None => Err(Fault::BadEscape(c)),
                Some(text) => match coerce_spec(c, t, text) {
                    Ok(cell) => Ok(Some(cell)),
                    Err(f) => Err(f),
                },
            },
        }
    }
}

/// The fields of `rules`, in order; the first fault among them wins.
pub open spec fn fields_spec(rules: Seq<FieldRule>, t: PostType, attrs: Seq<Attr>) -> Result<
    Seq<Option<Cell>>,
    Fault,
>
    decreases rules.len(),
{
    if rules.len() == 0 {
        Ok(Seq::empty())
    } else {
        match fields_spec(rules.drop_last(), t, attrs) {
            Err(f) => Err(f),
            Ok(cells) => match field_spec(rules.last(), t, attrs) {
                Err(f) => Err(f),
                Ok(cell) => Ok(cells.push(cell)),
            },
        }
    }
}

/// The outcome of decoding one record element.
pub open spec fn decode_spec(attrs: Seq<Attr>) -> Result<Option<RecordView>, Fault> {
    match discriminant_spec(attrs) {
        Err(f) => Err(f),
        Ok(None) => Ok(None),
        Ok(Some(t)) => match fields_spec(rules_of(t), t, attrs) {
            Err(f) => Err(f),
            Ok(cells) => Ok(Some(RecordView { post_type: t, cells })),
        },
    }
}

/// Relies on quick_xml's `Attribute::unescape_value`, on an attribute that
/// holds `raw` as its value: the value read as UTF-8, with the predefined and
/// numeric entity references replaced; an error where the value is not
/// UTF-8 or holds a malformed or unknown reference. It reads the value alone.
#[verifier::external_body]
fn unescape_value(raw: &Vec<u8>) -> (r: Option<Vec<u8>>)
    ensures
        match r {
            Some(v) => xml_unescape(raw@) == Some(v@),
            None => xml_unescape(raw@).is_none(),
        },
{
    let attr = quick_xml::events::attributes::Attribute::from((&b""[..], raw.as_slice()));
    let text = attr.unescape_value().ok()?;
    Some(text.as_bytes().to_vec())
}

fn same_bytes(a: &Vec<u8>, b: &Vec<u8>) -> (r: bool)
    ensures
        r == (a@ == b@),
{
    if a.len() != b.len() {
        return false;
    }
    let mut i: usize = 0;
    while i < a.len()
        invariant
            a.len() == b.len(),
            i <= a.len(),
            forall|k: int| 0 <= k < i ==> a@[k] == b@[k],
        decreases a.len() - i,
    {
        if a[i] != b[i] {
            return false;
        }
        i = i + 1;
    }
    assert(a@ =~= b@);
    true
}

/// The position of the first attribute named `key`.
fn find_attr(attrs: &Vec<Attr>, key: &Vec<u8>) -> (r: Option<usize>)
    ensures
        match r {
            Some(i) => i < attrs.len() && lookup(attrs@, key@) == Some(attrs@[i as int].value@),
            None => lookup(attrs@, key@).is_none(),
        },
{
    let mut i: usize = 0;
    assert(attrs@.subrange(0, attrs.len() as int) =~= attrs@);
    while i < attrs.len()
        invariant
            i <= attrs.len(),
            lookup(attrs@, key@) == lookup(attrs@.subrange(i as int, attrs.len() as int), key@),
        decreases attrs.len() - i,
    {
        let ghost rest = attrs@.subrange(i as int, attrs.len() as int);
        assert(rest.drop_first() =~= attrs@.subrange(i + 1, attrs.len() as int));
        if same_bytes(&attrs[i].name, key) {
            return Some(i);
        }
        i = i + 1;
    }
    None
}

/// The raw, still escaped value of the attribute that carries column `c`,
/// as a diagnostic names a failing record by it.
pub fn raw_field(attrs: &Vec<Attr>, c: Column) -> (r: Option<Vec<u8>>)
    ensures
        match r {
            Some(v) => lookup(attrs@, attr_name(c)) == Some(v@),
            None => lookup(attrs@, attr_name(c)).is_none(),
        },
{
    let key = attr_key(c);
    match find_attr(attrs, &key) {
        None => None,
        Some(i) => {
            let src = &attrs[i].value;
            let mut out: Vec<u8> = Vec::new();
            let mut k: usize = 0;
            while k < src.len()
                invariant
                    k <= src.len(),
                    out@ == src@.subrange(0, k as int),
                decreases src.len() - k,
            {
                out.push(src[k]);
                k = k + 1;
                assert(out@ =~= src@.subrange(0, k as int));
            }
            assert(out@ =~= src@);
            Some(out)
        },
    }
}

/// Reads the discriminant and selects the record's kind.
fn read_discriminant(attrs: &Vec<Attr>) -> (r: Result<Option<PostType>, DecodeError>)
    ensures
        match r {
            Ok(t) => discriminant_spec(attrs@) == Ok::<Option<PostType>, Fault>(t),
            Err(e) => discriminant_spec(attrs@) == Err::<Option<PostType>, Fault>(e@),
        },
{
    let key = attr_key(Column::PostType);
    match find_attr(attrs, &key) {
        None => Err(DecodeError::MissingDiscriminant),
        Some(i) => match unescape_value(&attrs[i].value) {
            None => Err(DecodeError::BadEscape(Column::PostType)),
            Some(text) => match parse_unsigned(&text) {
                None => Err(DecodeError::UnparseableDiscriminant(text)),
                Some(d) => Ok(accepted_kind(d)),
            },
        },
    }
}

/// Coerces the unescaped text of column `c` of a record of kind `t` to the
/// column's type.
pub fn coerce(c: Column, t: PostType, text: Vec<u8>) -> (r: Result<Value, DecodeError>)
    ensures
        match r {
            Ok(v) => coerce_spec(c, t, text@) == Ok::<Cell, Fault>(v@),
            Err(e) => coerce_spec(c, t, text@) == Err::<Cell, Fault>(e@),
        },
{
    match kind_of(c) {
        Kind::Unsigned => match parse_unsigned(&text) {
            Some(n) => Ok(Value::Unsigned(n)),
            None => Err(DecodeError::TypeCoercion(c, text)),
        },
        Kind::Signed => match parse_signed(&text) {
            Some(n) => Ok(Value::Signed(n)),
            None => Err(DecodeError::TypeCoercion(c, text)),
        },
        Kind::Text => Ok(Value::Text(text)),
        Kind::Label => Ok(Value::Text(label(t))),
    }
}

/// Decodes one field of a record of kind `t`.
fn decode_field(rule: FieldRule, t: PostType, attrs: &Vec<Attr>) -> (r: Result<
    Option<Value>,
    DecodeError,
>)
    ensures
        match r {
            Ok(v) => field_spec(rule, t, attrs@) == Ok::<Option<Cell>, Fault>(opt_cell(v)),
            Err(e) => field_spec(rule, t, attrs@) == Err::<Option<Cell>, Fault>(e@),
        },
{
    let c = rule.column;
    if kind_of(c) == Kind::Label {
        return Ok(Some(Value::Text(label(t))));
    }
    let key = attr_key(c);
    match find_attr(attrs, &key) {
        None => if rule.required {
            Err(DecodeError::MissingRequiredField(c))
        } else {
            Ok(None)
        },
        Some(i) => match unescape_value(&attrs[i].value) {
            None => Err(DecodeError::BadEscape(c)),
            Some(text) => match coerce(c, t, text) {
                Ok(v) => Ok(Some(v)),
                Err(e) => Err(e),
            },
        },
    }
}

/// Decodes one record element from its attributes: `Ok(None)` where its
/// discriminant selects no accepted kind, the record where every field of
/// its kind's schema decodes, and otherwise the first fault, in schema order.
pub fn decode(attrs: &Vec<Attr>) -> (r: Result<Option<Record>, DecodeError>)
    ensures
        decoded_view(r) == decode_spec(attrs@),
{
    let t = match read_discriminant(attrs) {
        Err(e) => return Err(e),
        Ok(None) => return Ok(None),
        Ok(Some(t)) => t,
    };
    let rules = schema(t);
    let mut values: Vec<Option<Value>> = Vec::new();
    let mut i: usize = 0;
    assert(rules@.subrange(0, 0) =~= Seq::<FieldRule>::empty());
    assert(values@.map_values(|v| opt_cell(v)) =~= Seq::<Option<Cell>>::empty());
    while i < rules.len()
        invariant
            i <= rules.len(),
            rules@ == rules_of(t),
            discriminant_spec(attrs@) == Ok::<Option<PostType>, Fault>(Some(t)),
            fields_spec(rules@.subrange(0, i as int), t, attrs@) == Ok::<Seq<Option<Cell>>, Fault>(
                values@.map_values(|v| opt_cell(v)),
            ),
        decreases rules.len() - i,
    {
        let ghost before = values@;
        assert(rules@.subrange(0, i + 1).drop_last() =~= rules@.subrange(0, i as int));
        match decode_field(rules[i], t, attrs) {
            Err(e) => {
                assert(rules@.subrange(0, i as int + 1).last() == rules@[i as int]);
                proof { lemma_fault_persists(rules@, t, attrs@, i as int + 1); }
                return Err(e);
            },
            Ok(v) => {
                values.push(v);
                assert(values@.map_values(|v| opt_cell(v)) =~= before.map_values(
                    |v| opt_cell(v),
                ).push(opt_cell(v)));
            },
        }
        i = i + 1;
    }
    assert(rules@.subrange(0, i as int) =~= rules@);
    Ok(Some(Record { post_type: t, values }))
}

/// A fault among the first `k` fields is the fault of the whole schema.
proof fn lemma_fault_persists(rules: Seq<FieldRule>, t: PostType, attrs: Seq<Attr>, k: int)
    requires
        0 <= k <= rules.len(),
        fields_spec(rules.subrange(0, k), t, attrs) is Err,
    ensures
        fields_spec(rules, t, attrs) == fields_spec(rules.subrange(0, k), t, attrs),
    decreases rules.len() - k,
{
    if k < rules.len() {
        assert(rules.subrange(0, k + 1).drop_last() =~= rules.subrange(0, k));
        lemma_fault_persists(rules, t, attrs, k + 1);
    } else {
        assert(rules.subrange(0, k) =~= rules);
    }
}

pub(crate) proof fn lemma_fields_each(rules: Seq<FieldRule>, t: PostType, attrs: Seq<Attr>)
    requires
        fields_spec(rules, t, attrs) is Ok,
    ensures
        fields_spec(rules, t, attrs)->Ok_0.len() == rules.len(),
        forall|j: int|
            0 <= j < rules.len() ==> field_spec(#[trigger] rules[j], t, attrs) == Ok::<
                Option<Cell>,
                Fault,
            >(fields_spec(rules, t, attrs)->Ok_0[j]),
    decreases rules.len(),
{
    if rules.len() > 0 {
        let prev = rules.drop_last();
        lemma_fields_each(prev, t, attrs);
        assert forall|j: int| 0 <= j < rules.len() implies field_spec(#[trigger] rules[j], t, attrs)
            == Ok::<Option<Cell>, Fault>(fields_spec(rules, t, attrs)->Ok_0[j]) by {
            if j < rules.len() - 1 {
                assert(rules[j] == prev[j]);
            }
        }
    }
}

proof fn lemma_fields_ok(rules: Seq<FieldRule>, t: PostType, attrs: Seq<Attr>)
    requires
        forall|j: int| 0 <= j < rules.len() ==> field_spec(#[trigger] rules[j], t, attrs) is Ok,
    ensures
        fields_spec(rules, t, attrs) is Ok,
    decreases rules.len(),
{
    if rules.len() > 0 {
        let prev = rules.drop_last();
        assert forall|j: int| 0 <= j < prev.len() implies field_spec(#[trigger] prev[j], t, attrs)
            is Ok by {
            assert(prev[j] == rules[j]);
        }
        lemma_fields_ok(prev, t, attrs);
        assert(field_spec(rules[rules.len() - 1], t, attrs) is Ok);
    }
}

/// A record of an accepted kind whose every field decodes is decoded whole:
/// one cell per field of its schema, each the field's own value.
pub proof fn lemma_well_formed_record_decodes(attrs: Seq<Attr>, t: PostType)
    requires
        discriminant_spec(attrs) == Ok::<Option<PostType>, Fault>(Some(t)),
        forall|j: int|
            0 <= j < rules_of(t).len() ==> field_spec(#[trigger] rules_of(t)[j], t, attrs) is Ok,
    ensures
        decode_spec(attrs) is Ok,
        decode_spec(attrs)->Ok_0 is Some,
        decode_spec(attrs)->Ok_0->Some_0.post_type == t,
        decode_spec(attrs)->Ok_0->Some_0.cells.len() == rules_of(t).len(),
        forall|j: int|
            0 <= j < rules_of(t).len() ==> Ok::<Option<Cell>, Fault>(
                #[trigger] decode_spec(attrs)->Ok_0->Some_0.cells[j],
            ) == field_spec(rules_of(t)[j], t, attrs),
{
    lemma_fields_ok(rules_of(t), t, attrs);
    lemma_fields_each(rules_of(t), t, attrs);
}

/// An optional field that a decoded record's input lacks is the absent
/// value, not an error and not a placeholder.
pub proof fn lemma_absent_optional_is_none(attrs: Seq<Attr>, i: int)
    requires
        decode_spec(attrs) is Ok,
        decode_spec(attrs)->Ok_0 is Some,
        0 <= i < rules_of(decode_spec(attrs)->Ok_0->Some_0.post_type).len(),
        !rules_of(decode_spec(attrs)->Ok_0->Some_0.post_type)[i].required,
        lookup(
            attrs,
            attr_name(rules_of(decode_spec(attrs)->Ok_0->Some_0.post_type)[i].column),
        ) is None,
    ensures
        decode_spec(attrs)->Ok_0->Some_0.cells[i] is None,
{
    let t = decode_spec(attrs)->Ok_0->Some_0.post_type;
    lemma_fields_each(rules_of(t), t, attrs);
    assert(field_spec(rules_of(t)[i], t, attrs) is Ok);
}

/// A record of an accepted kind that lacks a required field, while every
/// field before it in schema order decodes, fails with that field missing.
pub proof fn lemma_missing_required_field(attrs: Seq<Attr>, t: PostType, i: int)
    requires
        discriminant_spec(attrs) == Ok::<Option<PostType>, Fault>(Some(t)),
        0 <= i < rules_of(t).len(),
        rules_of(t)[i].required,
        column_kind(rules_of(t)[i].column) != Kind::Label,
        lookup(attrs, attr_name(rules_of(t)[i].column)) is None,
        forall|j: int| 0 <= j < i ==> field_spec(#[trigger] rules_of(t)[j], t, attrs) is Ok,
    ensures
        decode_spec(attrs) == Err::<Option<RecordView>, Fault>(
            Fault::MissingRequiredField(rules_of(t)[i].column),
        ),
{
    let rules = rules_of(t);
    let prefix = rules.subrange(0, i);
    assert forall|j: int| 0 <= j < prefix.len() implies field_spec(#[trigger] prefix[j], t, attrs)
        is Ok by {
        assert(prefix[j] == rules[j]);
    }
    lemma_fields_ok(prefix, t, attrs);
    assert(rules.subrange(0, i + 1).drop_last() =~= prefix);
    assert(rules.subrange(0, i + 1).last() == rules[i]);
    lemma_fault_persists(rules, t, attrs, i + 1);
}

} // verus!
