use posts2csv::decimal::{parse_signed, parse_unsigned, render_signed, render_unsigned};
use posts2csv::decode::{coerce, decode, Attr, DecodeError, Value};
use posts2csv::emit::{encode_header, encode_record, render_value};
use posts2csv::pipeline::{convert, handle_element, Element, Tally};
use posts2csv::schema::{Column, PostType};

const HEADER: &str = "id,post_type,accepted_answer_id,parent_id,creation_date,score,view_count,owner_user_id,title,tags,answer_count,comment_count\n";

fn attr(name: &str, value: &str) -> Attr {
    Attr { name: name.as_bytes().to_vec(), value: value.as_bytes().to_vec() }
}

fn row(attrs: &[(&str, &str)]) -> Element {
    Element {
        name: b"row".to_vec(),
        attrs: attrs.iter().map(|(k, v)| attr(k, v)).collect(),
    }
}

fn minimal_question() -> Element {
    row(&[("Id", "1"), ("PostTypeId", "1"), ("CreationDate", "2008-07-31T21:42:52.667"), ("Score", "5")])
}

fn text(out: &[u8]) -> String {
    String::from_utf8(out.to_vec()).unwrap()
}

#[test]
fn question_without_optional_fields() {
    let (tally, out) = convert(&vec![minimal_question()]);
    assert_eq!(tally, Tally { seen: 1, emitted: 1 });
    let expected = format!("{}1,question,,,2008-07-31T21:42:52.667,5,,,,,,\n", HEADER);
    assert_eq!(text(&out.unwrap()), expected);
}

#[test]
fn dropped_kind_writes_nothing() {
    let e = row(&[("Id", "7"), ("PostTypeId", "3"), ("CreationDate", "x"), ("Score", "0")]);
    let (tally, out) = convert(&vec![e]);
    assert_eq!(tally, Tally { seen: 1, emitted: 0 });
    assert_eq!(out.unwrap(), Vec::<u8>::new());
}

#[test]
fn discriminant_zero_is_dropped() {
    let e = row(&[("Id", "7"), ("PostTypeId", "0")]);
    assert!(matches!(decode(&e.attrs), Ok(None)));
}

#[test]
fn missing_required_field_stops_the_run() {
    let e = row(&[("Id", "4"), ("PostTypeId", "1"), ("CreationDate", "d")]);
    let later = minimal_question();
    let (tally, out) = convert(&vec![e, later]);
    assert_eq!(tally.seen, 1);
    assert_eq!(tally.emitted, 0);
    assert_eq!(out, Err(DecodeError::MissingRequiredField(Column::Score)));
}

#[test]
fn entity_in_title_is_unescaped() {
    let e = row(&[("Id", "1"), ("PostTypeId", "1"), ("CreationDate", "d"), ("Score", "0"), ("Title", "A &amp; B")]);
    let rec = decode(&e.attrs).unwrap().unwrap();
    assert_eq!(rec.values[8], Some(Value::Text(b"A & B".to_vec())));
    let line = encode_record(&rec).unwrap();
    assert_eq!(text(&line), "1,question,,,d,0,,,A & B,,,\n");
}

#[test]
fn two_rows_keep_input_order() {
    let a = row(&[("Id", "10"), ("PostTypeId", "2"), ("ParentId", "9"), ("CreationDate", "d1"), ("Score", "-3")]);
    let b = row(&[("Id", "11"), ("PostTypeId", "2"), ("ParentId", "9"), ("CreationDate", "d2"), ("Score", "4")]);
    let (tally, out) = convert(&vec![a, b]);
    assert_eq!(tally, Tally { seen: 2, emitted: 2 });
    let expected = format!("{}10,answer,,9,d1,-3,,,,,,\n11,answer,,9,d2,4,,,,,,\n", HEADER);
    assert_eq!(text(&out.unwrap()), expected);
}

#[test]
fn other_elements_are_not_counted() {
    let other = Element { name: b"posts".to_vec(), attrs: vec![attr("PostTypeId", "1")] };
    let (tally, out) = convert(&vec![other, minimal_question()]);
    assert_eq!(tally, Tally { seen: 1, emitted: 1 });
    assert!(out.is_ok());
}

#[test]
fn seen_counts_dropped_rows_too() {
    let dropped = row(&[("Id", "2"), ("PostTypeId", "5")]);
    let (tally, out) = convert(&vec![dropped.clone(), minimal_question(), dropped]);
    assert_eq!(tally, Tally { seen: 3, emitted: 1 });
    let s = text(&out.unwrap());
    assert_eq!(s.lines().count(), 2);
}

#[test]
fn special_characters_are_quoted() {
    let e = row(&[
        ("Id", "1"),
        ("PostTypeId", "1"),
        ("CreationDate", "d"),
        ("Score", "0"),
        ("Title", "a, \"b\"\nc"),
        ("Tags", "&lt;rust&gt;"),
    ]);
    let rec = decode(&e.attrs).unwrap().unwrap();
    let line = encode_record(&rec).unwrap();
    assert_eq!(text(&line), "1,question,,,d,0,,,\"a, \"\"b\"\"\nc\",<rust>,,\n");
}

#[test]
fn carriage_return_is_quoted() {
    let e = row(&[("Id", "1"), ("PostTypeId", "1"), ("CreationDate", "a\rb"), ("Score", "0")]);
    let rec = decode(&e.attrs).unwrap().unwrap();
    assert_eq!(text(&encode_record(&rec).unwrap()), "1,question,,,\"a\rb\",0,,,,,,\n");
}

#[test]
fn absent_optional_renders_empty() {
    assert_eq!(render_value(&None), Vec::<u8>::new());
    assert_eq!(render_value(&Some(Value::Unsigned(0))), b"0".to_vec());
    assert_eq!(render_value(&Some(Value::Text(b"null".to_vec()))), b"null".to_vec());
}

#[test]
fn empty_text_field_is_kept_as_empty_text() {
    let e = row(&[("Id", "1"), ("PostTypeId", "1"), ("CreationDate", "d"), ("Score", "0"), ("Tags", "")]);
    let rec = decode(&e.attrs).unwrap().unwrap();
    assert_eq!(rec.values[9], Some(Value::Text(Vec::new())));
}

#[test]
fn every_optional_field_is_read() {
    let e = row(&[
        ("Id", "5"),
        ("PostTypeId", "1"),
        ("AcceptedAnswerId", "6"),
        ("ParentId", "4"),
        ("CreationDate", "d"),
        ("Score", "12"),
        ("ViewCount", "100"),
        ("Body", "<p>dropped</p>"),
        ("OwnerUserId", "8"),
        ("Title", "T"),
        ("Tags", "<a><b>"),
        ("AnswerCount", "2"),
        ("CommentCount", "3"),
    ]);
    let rec = decode(&e.attrs).unwrap().unwrap();
    assert_eq!(rec.post_type, PostType::Question);
    assert_eq!(text(&encode_record(&rec).unwrap()), "5,question,6,4,d,12,100,8,T,<a><b>,2,3\n");
}

#[test]
fn missing_discriminant() {
    let e = row(&[("Id", "1")]);
    assert_eq!(decode(&e.attrs), Err(DecodeError::MissingDiscriminant));
}

#[test]
fn unparseable_discriminant() {
    let e = row(&[("Id", "1"), ("PostTypeId", "q")]);
    assert_eq!(decode(&e.attrs), Err(DecodeError::UnparseableDiscriminant(b"q".to_vec())));
}

#[test]
fn negative_count_is_a_coercion_error() {
    let e = row(&[("Id", "1"), ("PostTypeId", "1"), ("CreationDate", "d"), ("Score", "0"), ("ViewCount", "-1")]);
    assert_eq!(decode(&e.attrs), Err(DecodeError::TypeCoercion(Column::ViewCount, b"-1".to_vec())));
}

#[test]
fn first_fault_in_schema_order_wins() {
    let e = row(&[("Id", "x"), ("PostTypeId", "1"), ("Score", "0")]);
    assert_eq!(decode(&e.attrs), Err(DecodeError::TypeCoercion(Column::Id, b"x".to_vec())));
}

#[test]
fn malformed_entity_is_an_escape_error() {
    let e = row(&[("Id", "1"), ("PostTypeId", "1"), ("CreationDate", "d"), ("Score", "0"), ("Title", "a &bogus; b")]);
    assert_eq!(decode(&e.attrs), Err(DecodeError::BadEscape(Column::Title)));
}

#[test]
fn numeric_entity_in_number() {
    let e = row(&[("Id", "&#52;2"), ("PostTypeId", "1"), ("CreationDate", "d"), ("Score", "0")]);
    let rec = decode(&e.attrs).unwrap().unwrap();
    assert_eq!(rec.values[0], Some(Value::Unsigned(42)));
}

#[test]
fn handle_element_writes_header_once() {
    let mut tally = Tally { seen: 0, emitted: 0 };
    let first = handle_element(&mut tally, &minimal_question()).unwrap();
    let second = handle_element(&mut tally, &minimal_question()).unwrap();
    assert!(text(&first).starts_with(HEADER));
    assert_eq!(text(&second), "1,question,,,2008-07-31T21:42:52.667,5,,,,,,\n");
    assert_eq!(tally, Tally { seen: 2, emitted: 2 });
}

#[test]
fn header_line() {
    assert_eq!(text(&encode_header()), HEADER);
}

#[test]
fn coerce_by_column_type() {
    assert_eq!(coerce(Column::Score, PostType::Answer, b"-7".to_vec()), Ok(Value::Signed(-7)));
    assert_eq!(coerce(Column::PostType, PostType::Answer, b"2".to_vec()), Ok(Value::Text(b"answer".to_vec())));
    assert_eq!(coerce(Column::Tags, PostType::Answer, b" x ".to_vec()), Ok(Value::Text(b" x ".to_vec())));
    assert_eq!(
        coerce(Column::Id, PostType::Answer, b" 1".to_vec()),
        Err(DecodeError::TypeCoercion(Column::Id, b" 1".to_vec()))
    );
}

#[test]
fn unsigned_parsing_is_strict() {
    assert_eq!(parse_unsigned(&b"0".to_vec()), Some(0));
    assert_eq!(parse_unsigned(&b"+15".to_vec()), Some(15));
    assert_eq!(parse_unsigned(&b"18446744073709551615".to_vec()), Some(u64::MAX));
    assert_eq!(parse_unsigned(&b"18446744073709551616".to_vec()), None);
    assert_eq!(parse_unsigned(&b"".to_vec()), None);
    assert_eq!(parse_unsigned(&b"+".to_vec()), None);
    assert_eq!(parse_unsigned(&b"-0".to_vec()), None);
    assert_eq!(parse_unsigned(&b"1 ".to_vec()), None);
    assert_eq!(parse_unsigned(&b"1,000".to_vec()), None);
}

#[test]
fn signed_parsing_is_strict() {
    assert_eq!(parse_signed(&b"-2147483648".to_vec()), Some(i32::MIN));
    assert_eq!(parse_signed(&b"2147483647".to_vec()), Some(i32::MAX));
    assert_eq!(parse_signed(&b"2147483648".to_vec()), None);
    assert_eq!(parse_signed(&b"-2147483649".to_vec()), None);
    assert_eq!(parse_signed(&b"+3".to_vec()), Some(3));
    assert_eq!(parse_signed(&b"-".to_vec()), None);
    assert_eq!(parse_signed(&b"--1".to_vec()), None);
}

#[test]
fn rendering_numbers() {
    assert_eq!(render_unsigned(0), b"0".to_vec());
    assert_eq!(render_unsigned(1234567890), b"1234567890".to_vec());
    assert_eq!(render_unsigned(u64::MAX), b"18446744073709551615".to_vec());
    assert_eq!(render_signed(i32::MIN), b"-2147483648".to_vec());
    assert_eq!(render_signed(-5), b"-5".to_vec());
    assert_eq!(render_signed(40), b"40".to_vec());
}

#[test]
fn rendered_numbers_parse_back() {
    for n in [0u64, 9, 10, 99, 1000, u64::MAX] {
        assert_eq!(parse_unsigned(&render_unsigned(n)), Some(n));
    }
    for n in [i32::MIN, -1, 0, 7, i32::MAX] {
        assert_eq!(parse_signed(&render_signed(n)), Some(n));
    }
}

#[test]
fn quoted_fields_read_back_with_a_standard_reader() {
    let title = "He said \"hi\", then\nleft";
    let e = row(&[("Id", "3"), ("PostTypeId", "1"), ("CreationDate", "d"), ("Score", "1"), ("Title", title)]);
    let (_, out) = convert(&vec![e]);
    let out = out.unwrap();
    let mut reader = csv::Reader::from_reader(out.as_slice());
    let records: Vec<csv::StringRecord> = reader.records().map(|r| r.unwrap()).collect();
    assert_eq!(records.len(), 1);
    assert_eq!(&records[0][8], title);
    assert_eq!(&records[0][0], "3");
    assert_eq!(&records[0][6], "");
}

#[test]
fn two_malformed_numbers_report_the_first() {
    let e = row(&[
        ("Id", "1"),
        ("PostTypeId", "2"),
        ("CreationDate", "d"),
        ("Score", "0"),
        ("AnswerCount", "b"),
        ("ViewCount", "a"),
    ]);
    assert_eq!(decode(&e.attrs), Err(DecodeError::TypeCoercion(Column::ViewCount, b"a".to_vec())));
}
