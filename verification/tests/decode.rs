use std::io::Write;

use matfile::data::ByteOrder;
use matfile::element::{parse_next_data_element, MAX_COMPRESSION_DEPTH};
use matfile::parse::{
    parse_all, parse_header, CharacterData, DataElement, ErrorKind, NumericData, ParseError, Sparse,
};

fn put_u16(out: &mut Vec<u8>, v: u16, le: bool) {
    if le {
        out.extend_from_slice(&v.to_le_bytes());
    } else {
        out.extend_from_slice(&v.to_be_bytes());
    }
}

fn put_u32(out: &mut Vec<u8>, v: u32, le: bool) {
    if le {
        out.extend_from_slice(&v.to_le_bytes());
    } else {
        out.extend_from_slice(&v.to_be_bytes());
    }
}

fn put_u64(out: &mut Vec<u8>, v: u64, le: bool) {
    if le {
        out.extend_from_slice(&v.to_le_bytes());
    } else {
        out.extend_from_slice(&v.to_be_bytes());
    }
}

fn pad_to_eight(out: &mut Vec<u8>) {
    while out.len() % 8 != 0 {
        out.push(0);
    }
}

fn file_header(le: bool) -> Vec<u8> {
    let mut out = Vec::new();
    out.extend_from_slice(b"MATLAB 5.0 MAT-file, written by hand");
    while out.len() < 116 {
        out.push(b' ');
    }
    out.extend_from_slice(&[0u8; 8]);
    if le {
        out.extend_from_slice(&[0x00, 0x01]);
        out.extend_from_slice(b"IM");
    } else {
        out.extend_from_slice(&[0x01, 0x00]);
        out.extend_from_slice(b"MI");
    }
    out
}

fn subelement(data_type: u32, payload: &[u8], le: bool) -> Vec<u8> {
    let mut out = Vec::new();
    put_u32(&mut out, data_type, le);
    put_u32(&mut out, payload.len() as u32, le);
    out.extend_from_slice(payload);
    pad_to_eight(&mut out);
    out
}

fn flags(class: u32, bits: u32, nzmax: u32, le: bool) -> Vec<u8> {
    let mut payload = Vec::new();
    put_u32(&mut payload, bits | class, le);
    put_u32(&mut payload, nzmax, le);
    subelement(6, &payload, le)
}

fn int32s(values: &[i32], le: bool) -> Vec<u8> {
    let mut payload = Vec::new();
    for v in values {
        put_u32(&mut payload, *v as u32, le);
    }
    subelement(5, &payload, le)
}

fn float64s(values: &[f64], le: bool) -> Vec<u8> {
    let mut payload = Vec::new();
    for v in values {
        put_u64(&mut payload, v.to_bits(), le);
    }
    subelement(9, &payload, le)
}

fn name(text: &str, le: bool) -> Vec<u8> {
    subelement(1, text.as_bytes(), le)
}

fn array_header(class: u32, bits: u32, nzmax: u32, dims: &[i32], text: &str, le: bool) -> Vec<u8> {
    let mut out = flags(class, bits, nzmax, le);
    out.extend(int32s(dims, le));
    out.extend(name(text, le));
    out
}

fn matrix(body: &[u8], le: bool) -> Vec<u8> {
    subelement(14, body, le)
}

fn compressed(element: &[u8], le: bool) -> Vec<u8> {
    let mut encoder = libflate::zlib::Encoder::new(Vec::new()).unwrap();
    encoder.write_all(element).unwrap();
    let packed = encoder.finish().into_result().unwrap();
    let mut out = Vec::new();
    put_u32(&mut out, 15, le);
    put_u32(&mut out, packed.len() as u32, le);
    out.extend(packed);
    out
}

fn doubles(values: &[f64]) -> NumericData {
    NumericData::Double(values.iter().map(|v| v.to_bits()).collect())
}

fn sparse_real(le: bool) -> Vec<u8> {
    let mut body = array_header(5, 0, 7, &[8, 8], "A", le);
    body.extend(int32s(&[5, 7, 2, 0, 1, 3, 6], le));
    body.extend(int32s(&[0, 1, 2, 2, 3, 4, 5, 6, 7], le));
    body.extend(float64s(&[2.0, 7.0, 4.0, 9.0, 5.0, 8.0, 6.0], le));
    matrix(&body, le)
}

fn sparse_complex(le: bool) -> Vec<u8> {
    let mut body = array_header(5, 0x0800, 8, &[8, 8], "B", le);
    body.extend(int32s(&[5, 7, 2, 0, 1, 5, 3, 6], le));
    body.extend(int32s(&[0, 1, 2, 2, 3, 4, 6, 7, 8], le));
    body.extend(float64s(&[2.0, 7.0, 4.0, 9.0, 5.0, 6.0, 8.0, 6.0], le));
    body.extend(float64s(&[4.0, 0.0, 3.0, 7.0, 0.0, 1.0, 0.0, 0.0], le));
    matrix(&body, le)
}

fn dense_double(dims: &[i32], text: &str, values: &[f64], le: bool) -> Vec<u8> {
    let mut body = array_header(6, 0, 0, dims, text, le);
    body.extend(float64s(values, le));
    matrix(&body, le)
}

fn file_of(elements: &[Vec<u8>], le: bool) -> Vec<u8> {
    let mut out = file_header(le);
    for e in elements {
        out.extend_from_slice(e);
    }
    out
}

fn kind_of(data: &[u8]) -> ErrorKind {
    match parse_all(data) {
        Ok(_) => panic!("the file was accepted"),
        Err(e) => e.kind,
    }
}

#[test]
fn sparse1() {
    let data = file_of(&[compressed(&sparse_real(true), true)], true);

    let parsed_data = parse_all(&data).unwrap();
    let parsed_matrix_data = parsed_data.data_elements[0].clone();
    if let DataElement::SparseMatrix(Sparse {
        header,
        row_index,
        column_index,
        real_part,
        imag_part,
    }) = parsed_matrix_data
    {
        assert_eq!(header.dimensions, vec![8, 8]);
        assert_eq!(row_index, vec![5, 7, 2, 0, 1, 3, 6]);
        assert_eq!(column_index, vec![0, 1, 2, 2, 3, 4, 5, 6, 7]);
        assert_eq!(real_part, doubles(&[2.0, 7.0, 4.0, 9.0, 5.0, 8.0, 6.0]));
        assert_eq!(imag_part, None);
    } else {
        panic!("Error extracting DataElement::SparseMatrix");
    }
}

#[test]
fn sparse2() {
    let data = file_of(&[compressed(&sparse_complex(true), true)], true);

    let parsed_data = parse_all(&data).unwrap();
    let parsed_matrix_data = parsed_data.data_elements[0].clone();
    if let DataElement::SparseMatrix(Sparse {
        header,
        row_index,
        column_index,
        real_part,
        imag_part,
    }) = parsed_matrix_data
    {
        assert_eq!(header.dimensions, vec![8, 8]);
        assert_eq!(row_index, vec![5, 7, 2, 0, 1, 5, 3, 6]);
        assert_eq!(column_index, vec![0, 1, 2, 2, 3, 4, 6, 7, 8]);
        assert_eq!(
            real_part,
            doubles(&[2.0, 7.0, 4.0, 9.0, 5.0, 6.0, 8.0, 6.0])
        );
        assert_eq!(
            imag_part,
            Some(doubles(&[4.0, 0.0, 3.0, 7.0, 0.0, 1.0, 0.0, 0.0]))
        );
    } else {
        panic!("Error extracting DataElement::SparseMatrix");
    }
}

#[test]
fn sparse_real_uncompressed() {
    let data = file_of(&[sparse_real(true)], true);
    let parsed = parse_all(&data).unwrap();
    assert_eq!(parsed.data_elements.len(), 1);
    match &parsed.data_elements[0] {
        DataElement::SparseMatrix(s) => {
            assert_eq!(s.header.name, "A");
            assert_eq!(s.header.flags.nzmax, 7);
            assert!(!s.header.flags.complex);
            assert_eq!(s.real_part.len(), s.header.flags.nzmax);
            assert_eq!(s.row_index, vec![5, 7, 2, 0, 1, 3, 6]);
        }
        _ => panic!("not a sparse matrix"),
    }
}

#[test]
fn big_endian_file_gives_the_same_tree() {
    let little = parse_all(&file_of(&[sparse_real(true)], true)).unwrap();
    let big = parse_all(&file_of(&[sparse_real(false)], false)).unwrap();
    assert!(little.header.is_little_endian());
    assert!(!big.header.is_little_endian());
    assert_eq!(little.header.text(), big.header.text());
    match (&little.data_elements[0], &big.data_elements[0]) {
        (DataElement::SparseMatrix(a), DataElement::SparseMatrix(b)) => {
            assert_eq!(a.header.dimensions, b.header.dimensions);
            assert_eq!(a.header.name, b.header.name);
            assert_eq!(a.row_index, b.row_index);
            assert_eq!(a.column_index, b.column_index);
            assert_eq!(a.real_part, b.real_part);
            assert_eq!(a.imag_part, b.imag_part);
            assert_eq!(b.real_part, doubles(&[2.0, 7.0, 4.0, 9.0, 5.0, 8.0, 6.0]));
        }
        _ => panic!("not sparse matrices"),
    }
}

#[test]
fn dense_double_compressed() {
    let element = dense_double(&[2, 3], "M", &[1.0, 2.0, 3.0, 4.0, 5.0, 6.0], true);
    let data = file_of(&[compressed(&element, true)], true);
    let parsed = parse_all(&data).unwrap();
    assert_eq!(parsed.data_elements.len(), 1);
    match &parsed.data_elements[0] {
        DataElement::NumericMatrix(n) => {
            assert_eq!(n.header.dimensions, vec![2, 3]);
            assert_eq!(n.header.name, "M");
            assert_eq!(n.real_part, doubles(&[1.0, 2.0, 3.0, 4.0, 5.0, 6.0]));
            assert_eq!(n.imag_part, None);
        }
        _ => panic!("not a numeric matrix"),
    }
}

#[test]
fn elements_come_in_file_order() {
    let a = dense_double(&[1, 1], "a", &[1.0], true);
    let b = compressed(&dense_double(&[1, 2], "b", &[2.0, 3.0], true), true);
    let c = dense_double(&[2, 1], "c", &[4.0, 5.0], true);
    let parsed = parse_all(&file_of(&[a, b, c], true)).unwrap();
    let names: Vec<String> = parsed
        .data_elements
        .iter()
        .map(|e| match e {
            DataElement::NumericMatrix(n) => n.header.name.clone(),
            _ => String::new(),
        })
        .collect();
    assert_eq!(names, vec!["a", "b", "c"]);
}

#[test]
fn file_without_elements() {
    let parsed = parse_all(&file_header(true)).unwrap();
    assert_eq!(parsed.data_elements.len(), 0);
    assert!(parsed.header.text().starts_with("MATLAB 5.0 MAT-file"));
    assert_eq!(parsed.header.text().len(), 116);
}

#[test]
fn header_is_128_bytes() {
    let (next, header) = parse_header(&file_header(false)).unwrap();
    assert_eq!(next, 128);
    assert!(!header.is_little_endian());
}

#[test]
fn header_text_that_is_not_utf8_is_empty() {
    let mut data = file_header(true);
    data[10] = 0xFF;
    let (_, header) = parse_header(&data).unwrap();
    assert_eq!(header.text(), "");
}

#[test]
fn leading_nul_is_a_bad_header() {
    for k in 0..4 {
        let mut data = file_header(true);
        data[k] = 0;
        assert_eq!(
            parse_header(&data).unwrap_err(),
            ParseError { kind: ErrorKind::BadHeader, offset: 0 }
        );
    }
}

#[test]
fn unknown_marker_is_a_bad_header() {
    let mut data = file_header(true);
    data[126] = b'X';
    assert_eq!(
        parse_header(&data).unwrap_err(),
        ParseError { kind: ErrorKind::BadHeader, offset: 126 }
    );
}

#[test]
fn wrong_version_is_a_bad_header() {
    let mut data = file_header(true);
    data[124] = 0x01;
    data[125] = 0x00;
    assert_eq!(
        parse_header(&data).unwrap_err(),
        ParseError { kind: ErrorKind::BadHeader, offset: 124 }
    );
    assert_eq!(kind_of(&data), ErrorKind::BadHeader);
}

#[test]
fn short_header_is_truncated() {
    let data = file_header(true);
    assert_eq!(
        parse_header(&data[..100]).unwrap_err(),
        ParseError { kind: ErrorKind::UnexpectedEof, offset: 0 }
    );
    assert_eq!(parse_header(&[]).unwrap_err().kind, ErrorKind::UnexpectedEof);
}

#[test]
fn unknown_top_level_type_is_unsupported() {
    let element = subelement(9, &[0u8; 16], true);
    let after = dense_double(&[1, 1], "x", &[1.5], true);
    let parsed = parse_all(&file_of(&[element, after], true)).unwrap();
    assert_eq!(parsed.data_elements.len(), 2);
    assert!(matches!(parsed.data_elements[0], DataElement::Unsupported));
    assert!(matches!(parsed.data_elements[1], DataElement::NumericMatrix(_)));
}

#[test]
fn cell_array_is_unsupported() {
    let body = array_header(1, 0, 0, &[1, 1], "c", true);
    let parsed = parse_all(&file_of(&[matrix(&body, true)], true)).unwrap();
    assert!(matches!(parsed.data_elements[0], DataElement::Unsupported));
}

#[test]
fn final_padding_may_be_missing() {
    let mut body = array_header(8, 0, 0, &[1, 3], "v", true);
    body.extend(subelement(1, &[1, 2, 3], true));
    let mut element = Vec::new();
    put_u32(&mut element, 14, true);
    put_u32(&mut element, (body.len() - 5) as u32, true);
    element.extend_from_slice(&body[..body.len() - 5]);
    let parsed = parse_all(&file_of(&[element], true));
    assert_eq!(parsed.unwrap_err().kind, ErrorKind::UnexpectedEof);

    let text = subelement(16, b"hello", true);
    let mut body = array_header(4, 0, 0, &[1, 5], "s", true);
    body.extend_from_slice(&text[..13]);
    let mut element = Vec::new();
    put_u32(&mut element, 14, true);
    put_u32(&mut element, body.len() as u32, true);
    element.extend_from_slice(&body);
    assert_eq!(body.len() % 8, 5);
    let parsed = parse_all(&file_of(&[element], true)).unwrap();
    match &parsed.data_elements[0] {
        DataElement::CharacterMatrix(c) => match &c.real_part {
            CharacterData::Unicode(s) => assert_eq!(s, "hello"),
            _ => panic!("not unicode"),
        },
        _ => panic!("not a character matrix"),
    }
}

#[test]
fn final_padding_may_be_cut_short() {
    let element = subelement(2, &[1, 2, 3], true);
    assert_eq!(element.len(), 16);
    for cut in 11..=16 {
        let mut data = file_header(true);
        data.extend_from_slice(&element[..cut]);
        let parsed = parse_all(&data).unwrap();
        assert_eq!(parsed.data_elements.len(), 1);
    }
    let mut data = file_header(true);
    data.extend_from_slice(&element[..10]);
    assert_eq!(kind_of(&data), ErrorKind::UnexpectedEof);
}

#[test]
fn character_utf8_hello() {
    let mut body = array_header(4, 0, 0, &[1, 5], "greeting", true);
    body.extend(subelement(16, b"hello", true));
    let parsed = parse_all(&file_of(&[matrix(&body, true)], true)).unwrap();
    match &parsed.data_elements[0] {
        DataElement::CharacterMatrix(c) => {
            assert_eq!(c.header.dimensions, vec![1, 5]);
            match &c.real_part {
                CharacterData::Unicode(s) => {
                    assert_eq!(s, "hello");
                    assert_eq!(s.chars().count(), 5);
                }
                _ => panic!("not unicode"),
            }
            assert!(c.imag_part.is_none());
        }
        _ => panic!("not a character matrix"),
    }
}

#[test]
fn character_utf16_pairs_surrogates() {
    for le in [true, false] {
        let mut payload = Vec::new();
        for u in [0x0068u16, 0xD83D, 0xDE00, 0x00E9] {
            put_u16(&mut payload, u, le);
        }
        let mut body = array_header(4, 0, 0, &[1, 3], "t", le);
        body.extend(subelement(17, &payload, le));
        let parsed = parse_all(&file_of(&[matrix(&body, le)], le)).unwrap();
        match &parsed.data_elements[0] {
            DataElement::CharacterMatrix(c) => match &c.real_part {
                CharacterData::Unicode(s) => assert_eq!(s, "h\u{1F600}\u{e9}"),
                _ => panic!("not unicode"),
            },
            _ => panic!("not a character matrix"),
        }
    }
}

#[test]
fn character_utf16_lone_surrogate_is_bad_encoding() {
    let mut payload = Vec::new();
    for u in [0x0068u16, 0xD83D] {
        put_u16(&mut payload, u, true);
    }
    let mut body = array_header(4, 0, 0, &[1, 2], "t", true);
    body.extend(subelement(17, &payload, true));
    assert_eq!(kind_of(&file_of(&[matrix(&body, true)], true)), ErrorKind::BadEncoding);

    let mut payload = Vec::new();
    for u in [0xDE00u16, 0x0068] {
        put_u16(&mut payload, u, true);
    }
    let mut body = array_header(4, 0, 0, &[1, 2], "t", true);
    body.extend(subelement(17, &payload, true));
    assert_eq!(kind_of(&file_of(&[matrix(&body, true)], true)), ErrorKind::BadEncoding);
}

#[test]
fn character_utf32() {
    let mut payload = Vec::new();
    for u in [0x48u32, 0x1F600, 0x10FFFF] {
        put_u32(&mut payload, u, false);
    }
    let mut body = array_header(4, 0, 0, &[3, 1], "t", false);
    body.extend(subelement(18, &payload, false));
    let parsed = parse_all(&file_of(&[matrix(&body, false)], false)).unwrap();
    match &parsed.data_elements[0] {
        DataElement::CharacterMatrix(c) => match &c.real_part {
            CharacterData::Unicode(s) => assert_eq!(s, "H\u{1F600}\u{10FFFF}"),
            _ => panic!("not unicode"),
        },
        _ => panic!("not a character matrix"),
    }
}

#[test]
fn character_utf32_surrogate_is_bad_encoding() {
    for bad in [0xD800u32, 0x110000] {
        let mut payload = Vec::new();
        put_u32(&mut payload, bad, true);
        let mut body = array_header(4, 0, 0, &[1, 1], "t", true);
        body.extend(subelement(18, &payload, true));
        assert_eq!(kind_of(&file_of(&[matrix(&body, true)], true)), ErrorKind::BadEncoding);
    }
}

#[test]
fn character_raw_units_are_kept() {
    let mut payload = Vec::new();
    for u in [0x0041u16, 0xD800, 0xFFFF] {
        put_u16(&mut payload, u, true);
    }
    let mut body = array_header(4, 0, 0, &[1, 3], "t", true);
    body.extend(subelement(4, &payload, true));
    let parsed = parse_all(&file_of(&[matrix(&body, true)], true)).unwrap();
    match &parsed.data_elements[0] {
        DataElement::CharacterMatrix(c) => match &c.real_part {
            CharacterData::NonUnicode(v) => assert_eq!(v, &vec![0x0041u16, 0xD800, 0xFFFF]),
            _ => panic!("not raw"),
        },
        _ => panic!("not a character matrix"),
    }
}

#[test]
fn character_count_must_match_cells() {
    let mut body = array_header(4, 0, 0, &[1, 4], "t", true);
    body.extend(subelement(16, b"hello", true));
    assert_eq!(kind_of(&file_of(&[matrix(&body, true)], true)), ErrorKind::Mismatch);

    let mut body = array_header(4, 0, 0, &[1, 2], "t", true);
    body.extend(subelement(16, "h\u{e9}".as_bytes(), true));
    assert!(parse_all(&file_of(&[matrix(&body, true)], true)).is_ok());
}

#[test]
fn character_utf8_invalid_is_bad_encoding() {
    let mut body = array_header(4, 0, 0, &[1, 2], "t", true);
    body.extend(subelement(16, &[0xC3, 0x28], true));
    assert_eq!(kind_of(&file_of(&[matrix(&body, true)], true)), ErrorKind::BadEncoding);
}

#[test]
fn character_with_numeric_payload_is_unexpected() {
    let mut body = array_header(4, 0, 0, &[1, 1], "t", true);
    body.extend(float64s(&[1.0], true));
    assert_eq!(kind_of(&file_of(&[matrix(&body, true)], true)), ErrorKind::UnexpectedSubelement);
}

#[test]
fn dimension_product_must_match_length() {
    let element = dense_double(&[2, 3], "M", &[1.0, 2.0, 3.0, 4.0, 5.0], true);
    assert_eq!(kind_of(&file_of(&[element], true)), ErrorKind::Mismatch);
    let element = dense_double(&[2, 3], "M", &[1.0; 7], true);
    assert_eq!(kind_of(&file_of(&[element], true)), ErrorKind::Mismatch);
    let element = dense_double(&[-2, -3], "M", &[1.0; 6], true);
    assert!(parse_all(&file_of(&[element], true)).is_ok());
    let element = dense_double(&[-2, 3], "M", &[1.0; 6], true);
    assert_eq!(kind_of(&file_of(&[element], true)), ErrorKind::Mismatch);
    let element = dense_double(&[i32::MAX, i32::MAX, i32::MAX, 0], "M", &[], true);
    assert!(parse_all(&file_of(&[element], true)).is_ok());
    let element = dense_double(&[i32::MAX, i32::MAX, i32::MAX, 4], "M", &[1.0], true);
    assert_eq!(kind_of(&file_of(&[element], true)), ErrorKind::Mismatch);
}

#[test]
fn narrowed_storage_follows_the_table() {
    let mut body = array_header(6, 0, 0, &[1, 2], "d", true);
    body.extend(subelement(2, &[7, 9], true));
    let parsed = parse_all(&file_of(&[matrix(&body, true)], true)).unwrap();
    match &parsed.data_elements[0] {
        DataElement::NumericMatrix(n) => assert_eq!(n.real_part, NumericData::UInt8(vec![7, 9])),
        _ => panic!("not numeric"),
    }

    let mut body = array_header(8, 0, 0, &[1, 2], "d", true);
    body.extend(subelement(2, &[7, 9], true));
    assert_eq!(kind_of(&file_of(&[matrix(&body, true)], true)), ErrorKind::Mismatch);

    let mut body = array_header(12, 0, 0, &[1, 1], "d", true);
    body.extend(int32s(&[-5], true));
    let parsed = parse_all(&file_of(&[matrix(&body, true)], true)).unwrap();
    match &parsed.data_elements[0] {
        DataElement::NumericMatrix(n) => assert_eq!(n.real_part, NumericData::Int32(vec![-5])),
        _ => panic!("not numeric"),
    }
}

#[test]
fn complex_dense_has_both_parts() {
    let mut body = array_header(6, 0x0800, 0, &[1, 2], "z", false);
    body.extend(float64s(&[1.0, 2.0], false));
    body.extend(float64s(&[-1.0, 0.5], false));
    let parsed = parse_all(&file_of(&[matrix(&body, false)], false)).unwrap();
    match &parsed.data_elements[0] {
        DataElement::NumericMatrix(n) => {
            assert!(n.header.flags.complex);
            assert_eq!(n.real_part, doubles(&[1.0, 2.0]));
            assert_eq!(n.imag_part, Some(doubles(&[-1.0, 0.5])));
        }
        _ => panic!("not numeric"),
    }
    let mut body = array_header(6, 0x0800, 0, &[1, 2], "z", false);
    body.extend(float64s(&[1.0, 2.0], false));
    assert_eq!(kind_of(&file_of(&[matrix(&body, false)], false)), ErrorKind::UnexpectedEof);
}

#[test]
fn flag_bits_are_read() {
    let mut body = array_header(9, 0x0400 | 0x0200, 0, &[1, 1], "f", true);
    body.extend(subelement(2, &[1], true));
    let parsed = parse_all(&file_of(&[matrix(&body, true)], true)).unwrap();
    match &parsed.data_elements[0] {
        DataElement::NumericMatrix(n) => {
            assert!(n.header.flags.global);
            assert!(n.header.flags.logical);
            assert!(!n.header.flags.complex);
        }
        _ => panic!("not numeric"),
    }
}

#[test]
fn sparse_length_must_match_nzmax() {
    let mut body = array_header(5, 0, 3, &[2, 2], "s", true);
    body.extend(int32s(&[0, 1], true));
    body.extend(int32s(&[0, 1, 2], true));
    body.extend(float64s(&[1.0, 2.0], true));
    assert_eq!(kind_of(&file_of(&[matrix(&body, true)], true)), ErrorKind::Mismatch);
}

#[test]
fn sparse_index_vector_must_be_int32() {
    let mut body = array_header(5, 0, 1, &[2, 2], "s", true);
    body.extend(float64s(&[0.0], true));
    assert_eq!(kind_of(&file_of(&[matrix(&body, true)], true)), ErrorKind::UnexpectedSubelement);
    let mut body = array_header(5, 0, 1, &[2, 2], "s", true);
    body.extend(int32s(&[], true));
    assert_eq!(kind_of(&file_of(&[matrix(&body, true)], true)), ErrorKind::UnexpectedSubelement);
}

#[test]
fn unknown_class_is_rejected() {
    for class in [0u32, 16, 200] {
        let body = array_header(class, 0, 0, &[1, 1], "x", true);
        let e = parse_all(&file_of(&[matrix(&body, true)], true)).unwrap_err();
        assert_eq!(e, ParseError { kind: ErrorKind::InvalidArrayClass, offset: 128 + 8 + 8 });
    }
}

#[test]
fn flags_with_another_tag_are_unexpected() {
    let mut body = int32s(&[6, 0], true);
    body.extend(int32s(&[1, 1], true));
    body.extend(name("x", true));
    assert_eq!(kind_of(&file_of(&[matrix(&body, true)], true)), ErrorKind::UnexpectedSubelement);
}

#[test]
fn dimensions_need_two_extents() {
    let mut body = flags(6, 0, 0, true);
    body.extend(int32s(&[4], true));
    body.extend(name("x", true));
    body.extend(float64s(&[1.0; 4], true));
    assert_eq!(kind_of(&file_of(&[matrix(&body, true)], true)), ErrorKind::UnexpectedSubelement);
}

#[test]
fn unknown_tag_type_is_invalid() {
    let mut element = Vec::new();
    put_u32(&mut element, 8, true);
    put_u32(&mut element, 0, true);
    let e = parse_all(&file_of(&[element], true)).unwrap_err();
    assert_eq!(e, ParseError { kind: ErrorKind::InvalidTag, offset: 128 });
}

#[test]
fn short_tag_over_four_bytes_is_invalid() {
    let mut element = Vec::new();
    put_u32(&mut element, (5 << 16) | 1, true);
    put_u32(&mut element, 0, true);
    put_u32(&mut element, 0, true);
    assert_eq!(kind_of(&file_of(&[element], true)), ErrorKind::InvalidTag);
}

#[test]
fn truncated_element_is_an_error() {
    let element = dense_double(&[2, 3], "M", &[1.0, 2.0, 3.0, 4.0, 5.0, 6.0], true);
    let data = file_of(&[element], true);
    for cut in [129, 131, 135, 140, data.len() - 1] {
        assert_eq!(kind_of(&data[..cut]), ErrorKind::UnexpectedEof);
    }
}

#[test]
fn broken_zlib_stream_is_a_decompression_error() {
    let element = dense_double(&[1, 1], "M", &[1.0], true);
    let good = compressed(&element, true);
    let mut bad = good.clone();
    let last = bad.len() - 1;
    bad[last] ^= 0xFF;
    let e = parse_all(&file_of(&[bad], true)).unwrap_err();
    assert_eq!(e, ParseError { kind: ErrorKind::Decompression, offset: 136 });

    let mut cut = Vec::new();
    put_u32(&mut cut, 15, true);
    put_u32(&mut cut, (good.len() - 8 - 6) as u32, true);
    cut.extend_from_slice(&good[8..good.len() - 6]);
    assert_eq!(kind_of(&file_of(&[cut], true)), ErrorKind::Decompression);

    let mut junk = Vec::new();
    put_u32(&mut junk, 15, true);
    put_u32(&mut junk, 4, true);
    junk.extend_from_slice(&[1, 2, 3, 4]);
    assert_eq!(kind_of(&file_of(&[junk], true)), ErrorKind::Decompression);
}

#[test]
fn error_inside_compressed_element_is_placed_at_its_payload() {
    let element = dense_double(&[2, 3], "M", &[1.0], true);
    let data = file_of(&[compressed(&element, true)], true);
    let e = parse_all(&data).unwrap_err();
    assert_eq!(e, ParseError { kind: ErrorKind::Mismatch, offset: 136 });
}

#[test]
fn compressed_elements_nest_up_to_a_limit() {
    let mut element = dense_double(&[1, 1], "M", &[1.0], true);
    for _ in 0..16 {
        element = compressed(&element, true);
    }
    let parsed = parse_all(&file_of(&[element.clone()], true)).unwrap();
    assert!(matches!(parsed.data_elements[0], DataElement::NumericMatrix(_)));
    let deeper = compressed(&element, true);
    assert_eq!(kind_of(&file_of(&[deeper], true)), ErrorKind::Decompression);
}

#[test]
fn array_without_name_has_empty_name() {
    let mut body = flags(6, 0, 0, true);
    body.extend(int32s(&[1, 1], true));
    body.extend(subelement(1, &[], true));
    body.extend(float64s(&[3.0], true));
    let parsed = parse_all(&file_of(&[matrix(&body, true)], true)).unwrap();
    match &parsed.data_elements[0] {
        DataElement::NumericMatrix(n) => assert_eq!(n.header.name, ""),
        _ => panic!("not numeric"),
    }
}

#[test]
fn name_that_is_not_utf8_is_bad_encoding() {
    let mut body = flags(6, 0, 0, true);
    body.extend(int32s(&[1, 1], true));
    body.extend(subelement(1, &[0xFF, 0xFE], true));
    body.extend(float64s(&[3.0], true));
    assert_eq!(kind_of(&file_of(&[matrix(&body, true)], true)), ErrorKind::BadEncoding);
}

#[test]
fn short_form_subelements_are_read() {
    let mut body = flags(10, 0, 0, true);
    body.extend(int32s(&[1, 2], true));
    let mut short_name = Vec::new();
    put_u32(&mut short_name, (2 << 16) | 1, true);
    short_name.extend_from_slice(b"ab\0\0");
    body.extend(short_name);
    let mut short_data = Vec::new();
    put_u32(&mut short_data, (4 << 16) | 3, true);
    put_u16(&mut short_data, 0xFFFE, true);
    put_u16(&mut short_data, 12, true);
    body.extend(short_data);
    let parsed = parse_all(&file_of(&[matrix(&body, true)], true)).unwrap();
    match &parsed.data_elements[0] {
        DataElement::NumericMatrix(n) => {
            assert_eq!(n.header.name, "ab");
            assert_eq!(n.real_part, NumericData::Int16(vec![-2, 12]));
        }
        _ => panic!("not numeric"),
    }
}

fn structure_of(text: &str, names: &[u8], name_length: i32, fields: &[Vec<u8>], le: bool) -> Vec<u8> {
    let mut body = array_header(2, 0, 0, &[1, 1], text, le);
    body.extend(int32s(&[name_length], le));
    body.extend(subelement(1, names, le));
    for f in fields {
        body.extend_from_slice(f);
    }
    matrix(&body, le)
}

fn mixed_file(le: bool) -> Vec<u8> {
    let mut text = array_header(4, 0, 0, &[1, 2], "", le);
    text.extend(subelement(16, "h\u{e9}".as_bytes(), le));
    let mut complex = array_header(6, 0x0800, 0, &[2, 1], "", le);
    complex.extend(float64s(&[1.0, 2.0], le));
    complex.extend(float64s(&[3.0, 4.0], le));
    let inner = structure_of("", b"z\0", 2, &[matrix(&complex, le)], le);
    let record = structure_of(
        "record",
        b"text\0\0pair\0\0",
        6,
        &[matrix(&text, le), inner],
        le,
    );
    file_of(
        &[
            sparse_complex(le),
            record,
            compressed(&dense_double(&[2, 3], "M", &[1.0, 2.0, 3.0, 4.0, 5.0, 6.0], le), le),
            subelement(2, &[1, 2, 3], le),
            sparse_real(le),
        ],
        le,
    )
}

fn cells(dims: &[i32]) -> i64 {
    dims.iter().map(|d| *d as i64).product()
}

fn check_element(e: &DataElement) -> usize {
    match e {
        DataElement::NumericMatrix(n) => {
            assert_eq!(n.real_part.len() as i64, cells(&n.header.dimensions));
            assert_eq!(n.imag_part.is_some(), n.header.flags.complex);
            if let Some(imag) = &n.imag_part {
                assert_eq!(imag.len() as i64, cells(&n.header.dimensions));
            }
            1
        }
        DataElement::SparseMatrix(s) => {
            assert_eq!(s.real_part.len(), s.header.flags.nzmax);
            assert_eq!(s.imag_part.is_some(), s.header.flags.complex);
            if let Some(imag) = &s.imag_part {
                assert_eq!(imag.len(), s.header.flags.nzmax);
            }
            1
        }
        DataElement::CharacterMatrix(c) => {
            match &c.real_part {
                CharacterData::Unicode(text) => {
                    assert_eq!(text.chars().count() as i64, cells(&c.header.dimensions))
                }
                CharacterData::NonUnicode(units) => {
                    assert_eq!(units.len() as i64, cells(&c.header.dimensions))
                }
            }
            1
        }
        DataElement::StructureMatrix(s) => {
            assert_eq!(s.field_names.len(), s.values.len());
            let mut seen = 1;
            for (name, value) in s.iter() {
                match value {
                    DataElement::NumericMatrix(n) => assert_eq!(n.header.name, name),
                    DataElement::SparseMatrix(n) => assert_eq!(n.header.name, name),
                    DataElement::CharacterMatrix(n) => assert_eq!(n.header.name, name),
                    DataElement::StructureMatrix(n) => assert_eq!(n.header.name, name),
                    DataElement::Unsupported => {}
                }
                seen += check_element(value);
            }
            seen
        }
        DataElement::Unsupported => 1,
    }
}

#[test]
fn every_element_of_a_file_is_well_formed() {
    for le in [true, false] {
        let parsed = parse_all(&mixed_file(le)).unwrap();
        assert_eq!(parsed.data_elements.len(), 5);
        let seen: usize = parsed.data_elements.iter().map(check_element).sum();
        assert_eq!(seen, 8);
    }
}

#[test]
fn elements_cover_the_input_after_the_header() {
    for le in [true, false] {
        let data = mixed_file(le);
        let order = if le { ByteOrder::LittleEndian } else { ByteOrder::BigEndian };
        let parsed = parse_all(&data).unwrap();
        let mut pos = 128;
        let mut count = 0;
        while pos < data.len() {
            let (_, next) =
                parse_next_data_element(&data, order, pos, data.len(), None, MAX_COMPRESSION_DEPTH)
                    .unwrap();
            assert!(pos < next && next <= data.len());
            pos = next;
            count += 1;
        }
        assert_eq!(pos, data.len());
        assert_eq!(count, parsed.data_elements.len());
    }
}

#[test]
fn bytes_after_the_last_element_are_an_error() {
    let mut data = mixed_file(true);
    data.extend_from_slice(&[0, 0, 0]);
    assert_eq!(
        parse_all(&data).unwrap_err(),
        ParseError { kind: ErrorKind::UnexpectedEof, offset: data.len() - 3 }
    );
}

#[test]
fn byte_swapped_copy_reads_the_same() {
    let little = parse_all(&mixed_file(true)).unwrap();
    let big = parse_all(&mixed_file(false)).unwrap();
    assert!(little.header.is_little_endian());
    assert!(!big.header.is_little_endian());
    assert_eq!(little.header.text(), big.header.text());
    assert_eq!(
        format!("{:?}", little.data_elements),
        format!("{:?}", big.data_elements)
    );
    let one = file_of(&[dense_double(&[2, 3], "M", &[1.0; 5], true)], true);
    let other = file_of(&[dense_double(&[2, 3], "M", &[1.0; 5], false)], false);
    assert_eq!(one.len(), other.len());
    assert_eq!(parse_all(&one).unwrap_err(), parse_all(&other).unwrap_err());
}
