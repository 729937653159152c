use lxo_reader::geom::Point;
use lxo_reader::lxob::{ParseError, BYTES_PER_3D_POINT};
use lxo_reader::parser::{
    is_lxob, parse_chunk_headers, parse_chunk_pnts, parse_file_header, parse_file_type_author,
    parse_points_chunk, parse_tag, take_until_chunk,
};

const TEST_INPUT_HEADER: [u8; 52] = [
    70,  79,  82,  77,
    0,   0,   72,  234,
    76,  88,  79,  66,
    86,  82,  83,  78,
    0,   0,   0,   32,
    0,   0,   0,   4,
    0,   0,   0,   1,
    110, 101, 120, 117,
    115, 32,  49,  48,
    32,  98,  121, 32,
    84,  104, 101, 32,
    70,  111, 117, 110,
    100, 114, 121, 0
];

const TEST_INPUT_TAG: &str = "ARTS";
const TEST_INPUT_FILE_TYPE_AUTHOR: &str = "Who created this?\0";

fn chunk(tag: &[u8], data: &[u8]) -> Vec<u8> {
    let mut bytes = tag.to_vec();
    bytes.extend_from_slice(&(data.len() as u32).to_be_bytes());
    bytes.extend_from_slice(data);
    if data.len() % 2 != 0 {
        bytes.push(0);
    }
    bytes
}

fn chunk_with_size(tag: &[u8], data_size: u32, data: &[u8]) -> Vec<u8> {
    let mut bytes = tag.to_vec();
    bytes.extend_from_slice(&data_size.to_be_bytes());
    bytes.extend_from_slice(data);
    bytes
}

fn point_bytes(coords: &[f32]) -> Vec<u8> {
    coords.iter().flat_map(|c| c.to_be_bytes()).collect()
}

#[test]
fn file_header_empty() {
    let result = parse_file_header(b"");
    assert_eq!(result.is_err(), true);
}

#[test]
fn file_header_incomplete() {
    let result = parse_file_header(b"FORM0000LXOBVRSN003200040001");
    assert_eq!(result.is_err(), true);
}

#[test]
fn file_header_good_input() {
    let result = parse_file_header(&TEST_INPUT_HEADER);
    assert_eq!(result.is_err(), false);

    let (_, header) = result.unwrap();
    assert_eq!("FORM", header.iff_id);
    assert_eq!(18666, header.byte_count);
    assert_eq!("LXOB", header.file_type_tag);
    assert_eq!("VRSN", header.version_tag);
    assert_eq!(32, header.major);
    assert_eq!(4, header.minor);
    assert_eq!(1, header.patch);
    assert_eq!("nexus 10 by The Foundry", header.file_type_author);
}

#[test]
fn file_type_author_good_input() {
    let result = parse_file_type_author(TEST_INPUT_FILE_TYPE_AUTHOR.as_bytes());
    assert_eq!(result.is_err(), false);

    let (_, author) = result.unwrap();
    assert_eq!(TEST_INPUT_FILE_TYPE_AUTHOR.trim_end_matches("\0"), author);
}

#[test]
fn tag_is_alphabetic() {
    let result = parse_tag(TEST_INPUT_TAG.as_bytes());
    assert!(result.is_err() == false);
    let (_, tag) = result.unwrap();
    assert_eq!(TEST_INPUT_TAG, tag);
}

#[test]
fn file_header_leaves_following_bytes() {
    let mut bytes = TEST_INPUT_HEADER.to_vec();
    bytes.extend_from_slice(b"PNTS");
    let (rest, _) = parse_file_header(&bytes).unwrap();
    assert_eq!(rest, b"PNTS");
    let (rest, _) = parse_file_header(&TEST_INPUT_HEADER).unwrap();
    assert!(rest.is_empty());
}

#[test]
fn file_header_parsed_twice_is_identical() {
    let (rest_a, a) = parse_file_header(&TEST_INPUT_HEADER).unwrap();
    let (rest_b, b) = parse_file_header(&TEST_INPUT_HEADER).unwrap();
    assert_eq!(rest_a, rest_b);
    assert_eq!(a.iff_id, b.iff_id);
    assert_eq!(a.byte_count, b.byte_count);
    assert_eq!(a.file_type_tag, b.file_type_tag);
    assert_eq!(a.version_tag, b.version_tag);
    assert_eq!((a.major, a.minor, a.patch), (b.major, b.minor, b.patch));
    assert_eq!(a.file_type_author, b.file_type_author);
}

#[test]
fn file_header_fields_swapped_is_malformed_tag() {
    let mut header = TEST_INPUT_HEADER;
    for i in 4..8 {
        header.swap(i, i + 4);
    }
    assert!(matches!(parse_file_header(&header), Err(ParseError::MalformedTag)));
}

#[test]
fn file_header_errors() {
    assert!(matches!(parse_file_header(b""), Err(ParseError::Truncated)));
    assert!(matches!(parse_file_header(b"FORM00"), Err(ParseError::Truncated)));
    assert!(matches!(
        parse_file_header(b"FORM0000LXOBVRSN003200040001"),
        Err(ParseError::Truncated)
    ));
    assert!(matches!(parse_file_header(&TEST_INPUT_HEADER[..51]), Err(ParseError::Truncated)));
    let mut unterminated = TEST_INPUT_HEADER;
    unterminated[51] = b'!';
    assert!(matches!(parse_file_header(&unterminated), Err(ParseError::MissingTerminator)));
}

#[test]
fn tag_errors() {
    assert!(matches!(parse_tag(b"AB"), Err(ParseError::Truncated)));
    assert!(matches!(parse_tag(&[0xff, 0xfe, 0x41, 0x42]), Err(ParseError::MalformedTag)));
    let (rest, tag) = parse_tag(b"PNTSxy").unwrap();
    assert_eq!(tag, "PNTS");
    assert_eq!(rest, b"xy");
}

#[test]
fn file_type_author_missing_terminator() {
    assert!(matches!(parse_file_type_author(b"no end"), Err(ParseError::MissingTerminator)));
    let (rest, author) = parse_file_type_author(b"\0abc").unwrap();
    assert_eq!(author, "");
    assert_eq!(rest, b"\0abc");
}

#[test]
fn chunk_with_odd_size_skips_pad_byte() {
    let bytes = chunk(b"TEST", &[1, 2, 3]);
    assert_eq!(bytes.len(), 12);
    let (rest, headers) = parse_chunk_headers(&bytes).unwrap();
    assert!(rest.is_empty());
    assert_eq!(headers.len(), 1);
    assert_eq!(headers[0].name, "TEST");
    assert_eq!(headers[0].data_size, 3);

    let mut two = bytes.clone();
    two.extend(chunk(b"NEXT", &[9, 9]));
    let (_, headers) = parse_chunk_headers(&two).unwrap();
    assert_eq!(headers.len(), 2);
    assert_eq!(headers[1].name, "NEXT");
    assert_eq!(headers[1].data_size, 2);
}

#[test]
fn chunk_without_pad_byte_is_truncated() {
    let bytes = chunk_with_size(b"TEST", 3, &[1, 2, 3]);
    assert_eq!(bytes.len(), 11);
    assert!(matches!(parse_chunk_headers(&bytes), Err(ParseError::Truncated)));
}

#[test]
fn chunk_headers_count_groups() {
    let mut bytes = Vec::new();
    bytes.extend(chunk(b"TAGS", b"abcd"));
    bytes.extend(chunk(b"LAYR", &[0; 7]));
    bytes.extend(chunk(b"PNTS", &point_bytes(&[1.0, 2.0, 3.0])));
    bytes.extend(chunk(b"POLS", &[]));
    let (rest, headers) = parse_chunk_headers(&bytes).unwrap();
    assert!(rest.is_empty());
    let names: Vec<&str> = headers.iter().map(|h| h.name.as_str()).collect();
    assert_eq!(names, vec!["TAGS", "LAYR", "PNTS", "POLS"]);
    let sizes: Vec<usize> = headers.iter().map(|h| h.data_size).collect();
    assert_eq!(sizes, vec![4, 7, 12, 0]);
    let total: usize = headers.iter().map(|h| 8 + h.data_size + h.data_size % 2).sum();
    assert_eq!(total, bytes.len());
}

#[test]
fn chunk_headers_of_empty_input() {
    let (rest, headers) = parse_chunk_headers(b"").unwrap();
    assert!(rest.is_empty());
    assert!(headers.is_empty());
}

#[test]
fn chunk_headers_partial_tail_is_truncated() {
    let mut bytes = chunk(b"TAGS", b"abcd");
    bytes.extend_from_slice(b"LAY");
    assert!(matches!(parse_chunk_headers(&bytes), Err(ParseError::Truncated)));
    let mut bytes = chunk(b"TAGS", b"abcd");
    bytes.extend(chunk_with_size(b"LAYR", 10, &[0; 4]));
    assert!(matches!(parse_chunk_headers(&bytes), Err(ParseError::Truncated)));
}

#[test]
fn chunk_headers_malformed_tag() {
    let bytes = chunk(&[0xc3, 0x28, 0x41, 0x42], b"ab");
    assert!(matches!(parse_chunk_headers(&bytes), Err(ParseError::MalformedTag)));
}

#[test]
fn tag_search_finds_first_occurrence() {
    let mut bytes = vec![0u8; 120];
    bytes.extend_from_slice(b"PNTS");
    bytes.extend_from_slice(&[1, 2, 3]);
    bytes.extend_from_slice(b"PNTS");
    let rest = take_until_chunk(&bytes, b"PNTS").unwrap();
    assert_eq!(rest.len(), bytes.len() - 120);
    assert_eq!(rest, &bytes[120..]);
}

#[test]
fn tag_search_without_tag_fails() {
    let bytes = vec![b'P'; 200];
    assert!(matches!(take_until_chunk(&bytes, b"PNTS"), Err(ParseError::ChunkNotFound)));
    assert!(matches!(take_until_chunk(b"PNT", b"PNTS"), Err(ParseError::ChunkNotFound)));
    assert!(matches!(parse_chunk_pnts(b"no points here"), Err(ParseError::ChunkNotFound)));
}

#[test]
fn points_chunk_decodes_two_points() {
    let data = point_bytes(&[1.0, -2.5, 3.25, 0.5, 100.0, -0.125]);
    assert_eq!(data.len(), 2 * BYTES_PER_3D_POINT);
    let mut bytes = chunk(b"PNTS", &data);
    bytes.extend_from_slice(b"tail");
    let (rest, pnts) = parse_points_chunk(&bytes).unwrap();
    assert_eq!(rest, b"tail");
    assert_eq!(pnts.header.name, "PNTS");
    assert_eq!(pnts.header.data_size, 24);
    assert_eq!(pnts.data.len(), 2);
    let coords: Vec<(f32, f32, f32)> = pnts
        .data
        .iter()
        .map(|p| (f32::from_bits(p.x), f32::from_bits(p.y), f32::from_bits(p.z)))
        .collect();
    assert_eq!(coords, vec![(1.0, -2.5, 3.25), (0.5, 100.0, -0.125)]);
    assert_eq!(pnts.data[0], Point { x: 0x3f80_0000, y: 0xc020_0000, z: 0x4050_0000 });
}

#[test]
fn located_points_chunk_after_other_chunks() {
    let mut bytes = chunk(b"TAGS", b"Default\0");
    bytes.extend(chunk(b"PNTS", &point_bytes(&[4.0, 5.0, 6.0])));
    let (rest, pnts) = parse_chunk_pnts(&bytes).unwrap();
    assert!(rest.is_empty());
    assert_eq!(pnts.data.len(), 1);
    assert_eq!(f32::from_bits(pnts.data[0].y), 5.0);
}

#[test]
fn points_chunk_of_zero_size_is_rejected() {
    let bytes = chunk(b"PNTS", &[]);
    assert!(matches!(parse_points_chunk(&bytes), Err(ParseError::InvalidPayloadSize)));
    assert!(matches!(parse_chunk_pnts(&bytes), Err(ParseError::InvalidPayloadSize)));
}

#[test]
fn points_chunk_of_partial_point_is_rejected() {
    let bytes = chunk(b"PNTS", &[0; 13]);
    assert!(matches!(parse_points_chunk(&bytes), Err(ParseError::InvalidPayloadSize)));
    let bytes = chunk(b"PNTS", &[0; 6]);
    assert!(matches!(parse_points_chunk(&bytes), Err(ParseError::InvalidPayloadSize)));
}

#[test]
fn points_chunk_with_missing_data_is_truncated() {
    let bytes = chunk_with_size(b"PNTS", 24, &point_bytes(&[1.0, 2.0, 3.0]));
    assert!(matches!(parse_points_chunk(&bytes), Err(ParseError::Truncated)));
    assert!(matches!(parse_points_chunk(b"PNTS\0\0"), Err(ParseError::Truncated)));
}

#[test]
fn points_chunk_with_other_tag_is_unexpected() {
    let bytes = chunk(b"POLS", &[0; 12]);
    assert!(matches!(parse_points_chunk(&bytes), Err(ParseError::UnexpectedChunkTag)));
}

#[test]
fn lxob_identity_check() {
    assert!(is_lxob(&TEST_INPUT_HEADER));
    let mut other = TEST_INPUT_HEADER;
    other[8..12].copy_from_slice(b"ILBM");
    assert!(!is_lxob(&other));
    assert!(!is_lxob(b"FORM\0\0\0\x04LXO"));
    assert!(is_lxob(b"FORM\0\0\0\x04LXOB"));
    assert!(!is_lxob(b""));
}
