use matfile::parse::{
    parse_all, ArrayFlags, ArrayHeader, ArrayType, DataElement, ErrorKind, Numeric, NumericData,
    Structure,
};

fn put_u32(out: &mut Vec<u8>, v: u32) {
    out.extend_from_slice(&v.to_le_bytes());
}

fn subelement(data_type: u32, payload: &[u8]) -> Vec<u8> {
    let mut out = Vec::new();
    put_u32(&mut out, data_type);
    put_u32(&mut out, payload.len() as u32);
    out.extend_from_slice(payload);
    while out.len() % 8 != 0 {
        out.push(0);
    }
    out
}

fn int32s(values: &[i32]) -> Vec<u8> {
    let mut payload = Vec::new();
    for v in values {
        put_u32(&mut payload, *v as u32);
    }
    subelement(5, &payload)
}

fn array_header(class: u32, dims: &[i32], text: &str) -> Vec<u8> {
    let mut payload = Vec::new();
    put_u32(&mut payload, class);
    put_u32(&mut payload, 0);
    let mut out = subelement(6, &payload);
    out.extend(int32s(dims));
    out.extend(subelement(1, text.as_bytes()));
    out
}

fn double_scalar(text: &str, value: f64) -> Vec<u8> {
    let mut body = array_header(6, &[1, 1], text);
    body.extend(subelement(9, &value.to_bits().to_le_bytes()));
    subelement(14, &body)
}

fn int32_scalar(text: &str, value: i32) -> Vec<u8> {
    let mut body = array_header(12, &[1, 1], text);
    body.extend(int32s(&[value]));
    subelement(14, &body)
}

fn structure(text: &str, name_length: i32, names: &[u8], fields: &[Vec<u8>]) -> Vec<u8> {
    let mut body = array_header(2, &[1, 1], text);
    body.extend(int32s(&[name_length]));
    body.extend(subelement(1, names));
    for f in fields {
        body.extend_from_slice(f);
    }
    subelement(14, &body)
}

fn file_of(element: &[u8]) -> Vec<u8> {
    let mut out = Vec::new();
    out.extend_from_slice(b"MATLAB 5.0 MAT-file");
    while out.len() < 124 {
        out.push(b' ');
    }
    out.extend_from_slice(&[0x00, 0x01]);
    out.extend_from_slice(b"IM");
    out.extend_from_slice(element);
    out
}

fn header(name: &str) -> ArrayHeader {
    ArrayHeader {
        flags: ArrayFlags {
            complex: false,
            global: false,
            logical: false,
            class: ArrayType::Struct,
            nzmax: 0,
        },
        dimensions: vec![1, 1],
        name: name.to_string(),
    }
}

fn scalar(name: &str, value: i32) -> DataElement {
    let mut h = header(name);
    h.flags.class = ArrayType::Int32;
    DataElement::NumericMatrix(Numeric {
        header: h,
        real_part: NumericData::Int32(vec![value]),
        imag_part: None,
    })
}

fn value_of(e: &DataElement) -> i32 {
    match e {
        DataElement::NumericMatrix(n) => match &n.real_part {
            NumericData::Int32(v) => v[0],
            _ => panic!("not int32"),
        },
        _ => panic!("not numeric"),
    }
}

#[test]
fn structure_with_two_fields() {
    let data = file_of(&structure(
        "s",
        2,
        b"a\0b\0",
        &[double_scalar("", 1.0), int32_scalar("", 7)],
    ));
    let parsed = parse_all(&data).unwrap();
    assert_eq!(parsed.data_elements.len(), 1);
    let s = match &parsed.data_elements[0] {
        DataElement::StructureMatrix(s) => s,
        _ => panic!("not a structure"),
    };
    assert_eq!(s.header().name, "s");
    assert_eq!(s.len(), 2);
    assert_eq!(s.field_names.len(), s.values.len());
    assert_eq!(s.field_names(), vec!["a", "b"]);
    let pairs = s.iter();
    assert_eq!(pairs.len(), 2);
    assert_eq!(pairs[0].0, "a");
    match pairs[0].1 {
        DataElement::NumericMatrix(n) => {
            assert_eq!(n.real_part, NumericData::Double(vec![1.0f64.to_bits()]));
            assert_eq!(n.header.name, "a");
        }
        _ => panic!("not numeric"),
    }
    assert_eq!(pairs[1].0, "b");
    match pairs[1].1 {
        DataElement::NumericMatrix(n) => {
            assert_eq!(n.real_part, NumericData::Int32(vec![7]));
            assert_eq!(n.header.name, "b");
        }
        _ => panic!("not numeric"),
    }
}

#[test]
fn field_names_end_at_their_first_nul() {
    let data = file_of(&structure(
        "s",
        8,
        b"alpha\0zz\0zzzzzzz",
        &[int32_scalar("", 1), int32_scalar("", 2)],
    ));
    let parsed = parse_all(&data).unwrap();
    match &parsed.data_elements[0] {
        DataElement::StructureMatrix(s) => {
            assert_eq!(s.field_names(), vec!["alpha", ""]);
            assert_eq!(value_of(s.get("").unwrap()), 2);
        }
        _ => panic!("not a structure"),
    }
}

#[test]
fn field_with_a_name_in_the_stream_is_a_mismatch() {
    let data = file_of(&structure("s", 2, b"a\0", &[int32_scalar("x", 7)]));
    assert_eq!(parse_all(&data).unwrap_err().kind, ErrorKind::Mismatch);
}

#[test]
fn field_name_without_nul_is_bad_encoding() {
    let data = file_of(&structure("s", 2, b"ab", &[int32_scalar("", 7)]));
    assert_eq!(parse_all(&data).unwrap_err().kind, ErrorKind::BadEncoding);
    let data = file_of(&structure("s", 4, &[0xFF, 0xFE, 0, 0], &[int32_scalar("", 7)]));
    assert_eq!(parse_all(&data).unwrap_err().kind, ErrorKind::BadEncoding);
}

#[test]
fn field_name_length_must_be_a_positive_integer() {
    for bad in [0, -4] {
        let data = file_of(&structure("s", bad, b"a\0", &[int32_scalar("", 7)]));
        assert_eq!(parse_all(&data).unwrap_err().kind, ErrorKind::UnexpectedSubelement);
    }
    let mut body = array_header(2, &[1, 1], "s");
    body.extend(subelement(9, &2.0f64.to_bits().to_le_bytes()));
    body.extend(subelement(1, b"a\0"));
    body.extend(int32_scalar("", 7));
    let data = file_of(&subelement(14, &body));
    assert_eq!(parse_all(&data).unwrap_err().kind, ErrorKind::UnexpectedSubelement);
    let mut body = array_header(2, &[1, 1], "s");
    body.extend(int32s(&[2, 2]));
    body.extend(subelement(1, b"a\0"));
    body.extend(int32_scalar("", 7));
    let data = file_of(&subelement(14, &body));
    assert_eq!(parse_all(&data).unwrap_err().kind, ErrorKind::UnexpectedSubelement);
}

#[test]
fn missing_field_value_is_truncation() {
    let data = file_of(&structure("s", 2, b"a\0b\0", &[int32_scalar("", 7)]));
    assert_eq!(parse_all(&data).unwrap_err().kind, ErrorKind::UnexpectedEof);
}

#[test]
fn compressed_field_is_rejected() {
    let mut field = Vec::new();
    put_u32(&mut field, 15);
    put_u32(&mut field, 8);
    field.extend_from_slice(&[0x78, 0x9C, 0x03, 0x00, 0x00, 0x00, 0x00, 0x01]);
    let data = file_of(&structure("s", 2, b"a\0", &[field]));
    assert_eq!(parse_all(&data).unwrap_err().kind, ErrorKind::UnexpectedSubelement);
}

#[test]
fn nested_structure_keeps_field_names() {
    let inner = structure("", 2, b"x\0", &[int32_scalar("", 3)]);
    let data = file_of(&structure("outer", 6, b"inner\0", &[inner]));
    let parsed = parse_all(&data).unwrap();
    match &parsed.data_elements[0] {
        DataElement::StructureMatrix(s) => match s.get("inner").unwrap() {
            DataElement::StructureMatrix(t) => {
                assert_eq!(t.header().name, "inner");
                assert_eq!(value_of(t.get("x").unwrap()), 3);
            }
            _ => panic!("not a structure"),
        },
        _ => panic!("not a structure"),
    }
}

#[test]
fn new_structure_is_empty() {
    let s = Structure::new(header("s"));
    assert_eq!(s.len(), 0);
    assert_eq!(s.header().name, "s");
    assert!(s.field_names().is_empty());
    assert!(s.values().is_empty());
    assert!(s.iter().is_empty());
    assert!(s.get("a").is_none());
}

#[test]
fn insert_appends_and_replaces() {
    let mut s = Structure::new(header("s"));
    assert!(s.insert("a", scalar("a", 1)).is_none());
    assert!(s.insert("b", scalar("b", 2)).is_none());
    assert!(s.insert("c", scalar("c", 3)).is_none());
    assert_eq!(s.len(), 3);
    assert_eq!(s.field_names(), vec!["a", "b", "c"]);
    let old = s.insert("b", scalar("b", 20)).unwrap();
    assert_eq!(value_of(&old), 2);
    assert_eq!(s.len(), 3);
    assert_eq!(s.field_names(), vec!["a", "b", "c"]);
    let values: Vec<i32> = s.values().into_iter().map(value_of).collect();
    assert_eq!(values, vec![1, 20, 3]);
    assert_eq!(s.field_names.len(), s.values.len());
}

#[test]
fn remove_takes_the_field_out() {
    let mut s = Structure::new(header("s"));
    s.insert("a", scalar("a", 1));
    s.insert("b", scalar("b", 2));
    s.insert("c", scalar("c", 3));
    assert!(s.remove("x").is_none());
    assert_eq!(s.len(), 3);
    let gone = s.remove("a").unwrap();
    assert_eq!(value_of(&gone), 1);
    assert_eq!(s.field_names(), vec!["b", "c"]);
    let values: Vec<i32> = s.values().into_iter().map(value_of).collect();
    assert_eq!(values, vec![2, 3]);
    assert!(s.get("a").is_none());
    assert_eq!(s.field_names.len(), s.values.len());
}

#[test]
fn lookup_takes_the_first_of_equal_names() {
    let mut s = Structure::new(header("s"));
    s.field_names.push("a".to_string());
    s.values.push(scalar("a", 1));
    s.field_names.push("a".to_string());
    s.values.push(scalar("a", 2));
    assert_eq!(s.index("a"), Some(0));
    assert_eq!(value_of(s.get("a").unwrap()), 1);
    let gone = s.remove("a").unwrap();
    assert_eq!(value_of(&gone), 1);
    assert_eq!(value_of(s.get("a").unwrap()), 2);
}

#[test]
fn get_mut_changes_the_value_in_place() {
    let mut s = Structure::new(header("s"));
    s.insert("a", scalar("a", 1));
    s.insert("b", scalar("b", 2));
    assert!(s.get_mut("zz").is_none());
    *s.get_mut("b").unwrap() = scalar("b", 5);
    assert_eq!(value_of(s.get("b").unwrap()), 5);
    assert_eq!(value_of(s.get("a").unwrap()), 1);
}

#[test]
fn index_compares_whole_names() {
    let mut s = Structure::new(header("s"));
    s.insert("ab", scalar("ab", 1));
    s.insert("a", scalar("a", 2));
    s.insert("\u{e9}", scalar("e", 3));
    assert_eq!(s.index("a"), Some(1));
    assert_eq!(s.index("ab"), Some(0));
    assert_eq!(s.index("abc"), None);
    assert_eq!(s.index("\u{e9}"), Some(2));
    assert_eq!(s.index(""), None);
}

#[test]
fn clone_copies_the_tree() {
    let mut s = Structure::new(header("s"));
    s.insert("a", scalar("a", 1));
    let mut inner = Structure::new(header("t"));
    inner.insert("x", scalar("x", 9));
    s.insert("t", DataElement::StructureMatrix(inner));
    let copy = DataElement::StructureMatrix(s).clone();
    match copy {
        DataElement::StructureMatrix(c) => {
            assert_eq!(c.field_names(), vec!["a", "t"]);
            match c.get("t").unwrap() {
                DataElement::StructureMatrix(t) => assert_eq!(value_of(t.get("x").unwrap()), 9),
                _ => panic!("not a structure"),
            }
        }
        _ => panic!("not a structure"),
    }
}

#[test]
fn iter_gives_the_fields_that_have_name_and_value() {
    let mut s = Structure::new(header("s"));
    s.insert("a", scalar("a", 1));
    s.field_names.push("b".to_string());
    assert_eq!(s.len(), 2);
    let pairs = s.iter();
    assert_eq!(pairs.len(), 1);
    assert_eq!(pairs[0].0, "a");
    assert_eq!(value_of(pairs[0].1), 1);
}
