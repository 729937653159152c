use vstd::prelude::*;
use vstd::slice::slice_subrange;
use vstd::utf8::{decode_utf8, valid_utf8};
use crate::geom::Point;
use crate::lxob::{
    pnts_tag_bytes, lxob_tag_bytes, ByteCount, Chunk, ChunkHeader, ChunkHeaderModel, FileHeader,
    FileHeaderModel, ParseError, BYTES_PER_3D_POINT, IFF_ID_FIELD_SIZE, IFF_SIZE_FIELD_SIZE,
    LXOB_HEADER_SIZE, TAG_CHAR_LEN,
};

verus! {

// ---------------------------------------------------------------------------
// The format, as spec functions over the bytes.
// ---------------------------------------------------------------------------

/// The text that `b` encodes, if `b` is valid UTF-8.
pub open spec fn text_of(b: Seq<u8>) -> Option<Seq<char>> {
    if valid_utf8(b) {
        Some(decode_utf8(b))
    } else {
        None
    }
}

/// The unsigned big-endian integer held in the first four bytes of `s`.
pub open spec fn be_u32_of(s: Seq<u8>) -> u32 {
    (s[0] as int * 0x100_0000 + s[1] as int * 0x1_0000 + s[2] as int * 0x100 + s[3] as int) as u32
}

/// A tag: four bytes of text at the start of `s`.
#[verifier::opaque]
pub open spec fn tag_spec(s: Seq<u8>) -> Result<Seq<char>, ParseError> {
    if s.len() < 4 {
        Err(ParseError::Truncated)
    } else {
        match text_of(s.take(4)) {
            Some(t) => Ok(t),
            None => Err(ParseError::MalformedTag),
        }
    }
}

/// A big-endian `u32` at the start of `s`.
#[verifier::opaque]
pub open spec fn u32_spec(s: Seq<u8>) -> Result<u32, ParseError> {
    if s.len() < 4 {
        Err(ParseError::Truncated)
    } else {
        Ok(be_u32_of(s))
    }
}

/// `s` holds no null byte.
pub open spec fn null_free(s: Seq<u8>) -> bool {
    forall|i: int| 0 <= i < s.len() ==> s[i] != 0
}

/// Index of the first null byte of `s`, which holds one.
pub open spec fn first_null(s: Seq<u8>) -> int
    recommends
        !null_free(s),
{
    choose|i: int| 0 <= i < s.len() && s[i] == 0 && null_free(s.take(i))
}

/// Null-terminated text at the start of `s`: the text before the first null
/// byte, and the number of bytes before it (the terminator is not consumed).
#[verifier::opaque]
pub open spec fn cstring_spec(s: Seq<u8>) -> Result<(Seq<char>, nat), ParseError> {
    if null_free(s) {
        Err(ParseError::MissingTerminator)
    } else {
        match text_of(s.take(first_null(s))) {
            Some(t) => Ok((t, first_null(s) as nat)),
            None => Err(ParseError::MalformedTag),
        }
    }
}

/// The file header at the start of `s`, and the number of bytes it takes:
/// its fields in order, then the null byte that ends it. A buffer shorter
/// than the 52 bytes of a header is truncated.
pub open spec fn file_header_spec(s: Seq<u8>) -> Result<(FileHeaderModel, nat), ParseError> {
    if s.len() < 52 {
        Err(ParseError::Truncated)
    } else {
        file_fields_spec(s)
    }
}

/// The header's fields decoded one after another from the start of `s`.
pub open spec fn file_fields_spec(s: Seq<u8>) -> Result<(FileHeaderModel, nat), ParseError> {
    match tag_spec(s) {
        Err(e) => Err(e),
        Ok(iff_id) => match u32_spec(s.skip(4)) {
            Err(e) => Err(e),
            Ok(byte_count) => match tag_spec(s.skip(8)) {
                Err(e) => Err(e),
                Ok(file_type_tag) => match tag_spec(s.skip(12)) {
                    Err(e) => Err(e),
                    Ok(version_tag) => match u32_spec(s.skip(16)) {
                        Err(e) => Err(e),
                        Ok(major) => match u32_spec(s.skip(20)) {
                            Err(e) => Err(e),
                            Ok(minor) => match u32_spec(s.skip(24)) {
                                Err(e) => Err(e),
                                Ok(patch) => match cstring_spec(s.skip(28)) {
                                    Err(e) => Err(e),
                                    Ok((author, n)) => Ok(
                                        (
                                            FileHeaderModel {
                                                iff_id,
                                                byte_count: byte_count as nat,
                                                file_type_tag,
                                                version_tag,
                                                major,
                                                minor,
                                                patch,
                                                file_type_author: author,
                                            },
                                            28 + n + 1,
                                        ),
                                    ),
                                },
                            },
                        },
                    },
                },
            },
        },
    }
}

/// The header of the chunk at the start of `s`: a tag and a big-endian size.
pub open spec fn chunk_header_spec(s: Seq<u8>) -> Result<ChunkHeaderModel, ParseError> {
    match tag_spec(s) {
        Err(e) => Err(e),
        Ok(name) => match u32_spec(s.skip(4)) {
            Err(e) => Err(e),
            Ok(size) => Ok(ChunkHeaderModel { name, data_size: size as nat }),
        },
    }
}

/// Bytes that `n` bytes of chunk data take in the file: odd sizes carry one
/// pad byte, so that every chunk starts on an even offset.
pub open spec fn padded_size(n: nat) -> nat {
    if n % 2 == 0 {
        n
    } else {
        n + 1
    }
}

/// Bytes that a whole chunk takes: its header and its padded data.
pub open spec fn chunk_span(h: ChunkHeaderModel) -> nat {
    8 + padded_size(h.data_size)
}

/// The header of the complete chunk at the start of `s`.
pub open spec fn chunk_step_spec(s: Seq<u8>) -> Result<ChunkHeaderModel, ParseError> {
    match chunk_header_spec(s) {
        Err(e) => Err(e),
        Ok(h) => if s.len() < chunk_span(h) {
            Err(ParseError::Truncated)
        } else {
            Ok(h)
        },
    }
}

/// `acc` followed by the headers of `r`, or the error of `r`.
pub open spec fn prepend(
    acc: Seq<ChunkHeaderModel>,
    r: Result<Seq<ChunkHeaderModel>, ParseError>,
) -> Result<Seq<ChunkHeaderModel>, ParseError> {
    match r {
        Ok(hs) => Ok(acc + hs),
        Err(e) => Err(e),
    }
}

/// The headers of the chunks that make up all of `s`, in file order.
pub open spec fn walk_spec(s: Seq<u8>) -> Result<Seq<ChunkHeaderModel>, ParseError>
    decreases s.len(),
{
    if s.len() == 0 {
        Ok(seq![])
    } else {
        match chunk_step_spec(s) {
            Err(e) => Err(e),
            Ok(h) => prepend(seq![h], walk_spec(s.skip(chunk_span(h) as int))),
        }
    }
}

/// `tag` occurs in `s` at offset `i`.
pub open spec fn tag_at(s: Seq<u8>, i: int, tag: Seq<u8>) -> bool {
    0 <= i && i + tag.len() <= s.len() && s.subrange(i, i + tag.len()) == tag
}

/// Offset of the first occurrence of `tag` in `s`, if any.
#[verifier::opaque]
pub open spec fn first_occurrence(s: Seq<u8>, tag: Seq<u8>) -> Option<int> {
    if exists|i: int| tag_at(s, i, tag) {
        Some(choose|i: int| tag_at(s, i, tag) && forall|j: int| 0 <= j < i ==> !tag_at(s, j, tag))
    } else {
        None
    }
}

/// The point whose three coordinates start at offset `i` of `s`.
pub open spec fn point_at(s: Seq<u8>, i: int) -> Point {
    Point { x: be_u32_of(s.skip(i)), y: be_u32_of(s.skip(i + 4)), z: be_u32_of(s.skip(i + 8)) }
}

/// The `n` points stored one after another at the start of `s`.
pub open spec fn points_spec(s: Seq<u8>, n: nat) -> Seq<Point> {
    Seq::new(n, |k: int| point_at(s, 12 * k))
}

/// The points chunk at the start of `s`: its header, its points, and the
/// number of bytes up to the end of its (unpadded) data.
#[verifier::opaque]
pub open spec fn points_chunk_spec(s: Seq<u8>) -> Result<(ChunkHeaderModel, Seq<Point>, nat), ParseError> {
    match chunk_header_spec(s) {
        Err(e) => Err(e),
        Ok(h) => if s.take(4) != pnts_tag_bytes() {
            Err(ParseError::UnexpectedChunkTag)
        } else if h.data_size == 0 || h.data_size % 12 != 0 {
            Err(ParseError::InvalidPayloadSize)
        } else if s.len() < 8 + h.data_size {
            Err(ParseError::Truncated)
        } else {
            Ok((h, points_spec(s.skip(8), h.data_size / 12), 8 + h.data_size))
        },
    }
}

/// The views of a sequence of chunk headers.
pub open spec fn header_views(v: Seq<ChunkHeader>) -> Seq<ChunkHeaderModel> {
    v.map_values(|h: ChunkHeader| h@)
}

// ---------------------------------------------------------------------------
// Primitive decoders.
// ---------------------------------------------------------------------------

/// Relies on std's `String::from_utf8`: it succeeds exactly on valid UTF-8,
/// and the string then holds the text those bytes encode.
#[verifier::external_body]
fn to_str(val: &[u8]) -> (r: Option<String>)
    ensures
        r is Some <==> valid_utf8(val@),
        r matches Some(s) ==> s@ == decode_utf8(val@),
{
    String::from_utf8(val.to_vec()).ok()
}

/// Widens a decoded size to a byte count.
fn to_usize(val: u32) -> (r: usize)
    ensures
        r == val,
{
    val as usize
}

/// IFF integers are stored big-endian.
fn parse_u32(input: &[u8]) -> (r: Result<(&[u8], u32), ParseError>)
    ensures
        r is Ok ==> input@.len() >= 4,
        match u32_spec(input@) {
            Ok(v) => r matches Ok((rest, w)) && w == v && rest@ == input@.skip(4),
            Err(e) => r == Err::<(&[u8], u32), ParseError>(e),
        },
{
    reveal(u32_spec);
    if input.len() < 4 {
        return Err(ParseError::Truncated);
    }
    let v = be_u32_at(input, 0);
    assert(input@.skip(0) =~= input@);
    Ok((slice_subrange(input, 4, input.len()), v))
}

/// Reads a big-endian `u32` as a byte count.
fn parse_usize(input: &[u8]) -> (r: Result<(&[u8], usize), ParseError>)
    ensures
        r is Ok ==> input@.len() >= 4,
        match u32_spec(input@) {
            Ok(v) => r matches Ok((rest, w)) && w == v && rest@ == input@.skip(4),
            Err(e) => r == Err::<(&[u8], usize), ParseError>(e),
        },
{
    let (remains, parsed_u32) = match parse_u32(input) {
        Ok(v) => v,
        Err(e) => return Err(e),
    };
    Ok((remains, to_usize(parsed_u32)))
}

/// Reads a 4-byte tag as text.
pub fn parse_tag(input: &[u8]) -> (r: Result<(&[u8], String), ParseError>)
    ensures
        r is Ok ==> input@.len() >= 4,
        match tag_spec(input@) {
            Ok(t) => r matches Ok((rest, s)) && s@ == t && rest@ == input@.skip(4),
            Err(e) => r matches Err(f) && f == e,
        },
{
    reveal(tag_spec);
    if input.len() < TAG_CHAR_LEN {
        return Err(ParseError::Truncated);
    }
    match to_str(slice_subrange(input, 0, TAG_CHAR_LEN)) {
        Some(tag) => Ok((slice_subrange(input, TAG_CHAR_LEN, input.len()), tag)),
        None => Err(ParseError::MalformedTag),
    }
}

/// Reads the text up to the first null byte, which stays in the returned
/// bytes. Text that is not valid UTF-8 is reported as `MalformedTag`.
pub fn parse_file_type_author(input: &[u8]) -> (r: Result<(&[u8], String), ParseError>)
    ensures
        r matches Ok((rest, _)) ==> rest@.len() >= 1 && rest@[0] == 0,
        match cstring_spec(input@) {
            Ok((t, n)) => n < input@.len() && (r matches Ok((rest, s)) && s@ == t && rest@ == input@.skip(
                n as int,
            )),
            Err(e) => r matches Err(f) && f == e,
        },
{
    reveal(cstring_spec);
    let mut i: usize = 0;
    while i < input.len() && input[i] != 0
        invariant
            i <= input@.len(),
            null_free(input@.take(i as int)),
        decreases input.len() - i,
    {
        assert(input@.take(i + 1) == input@.take(i as int).push(input@[i as int]));
        i = i + 1;
    }
    if i == input.len() {
        assert(input@.take(i as int) == input@);
        return Err(ParseError::MissingTerminator);
    }
    assert(!null_free(input@));
    let ghost c = first_null(input@);
    assert(c == i) by {
        if c < i {
            assert(input@.take(i as int)[c] == input@[c]);
        } else if c > i {
            assert(input@.take(c)[i as int] == input@[i as int]);
        }
    }
    match to_str(slice_subrange(input, 0, i)) {
        Some(author) => Ok((slice_subrange(input, i, input.len()), author)),
        None => Err(ParseError::MalformedTag),
    }
}

/// Returns the deserialised header of a .lxo (LXOB) file and the bytes that
/// follow it.
#[verifier::rlimit(50)]
pub fn parse_file_header(input: &[u8]) -> (r: Result<(&[u8], FileHeader), ParseError>)
    ensures
        match file_header_spec(input@) {
            Ok((h, n)) => r matches Ok((rest, header)) && header@ == h && rest@ == input@.skip(
                n as int,
            ),
            Err(e) => r matches Err(f) && f == e,
        },
{
    if input.len() < LXOB_HEADER_SIZE {
        return Err(ParseError::Truncated);
    }
    let (remains, iff_id) = match parse_tag(input) {
        Ok(v) => v,
        Err(e) => return Err(e),
    };
    assert(remains@ =~= input@.skip(4));
    let (remains, byte_count) = match parse_usize(remains) {
        Ok(v) => v,
        Err(e) => return Err(e),
    };
    assert(remains@ =~= input@.skip(8));
    let (remains, file_type_tag) = match parse_tag(remains) {
        Ok(v) => v,
        Err(e) => return Err(e),
    };
    assert(remains@ =~= input@.skip(12));
    let (remains, version_tag) = match parse_tag(remains) {
        Ok(v) => v,
        Err(e) => return Err(e),
    };
    assert(remains@ =~= input@.skip(16));
    let (remains, major) = match parse_u32(remains) {
        Ok(v) => v,
        Err(e) => return Err(e),
    };
    assert(remains@ =~= input@.skip(20));
    let (remains, minor) = match parse_u32(remains) {
        Ok(v) => v,
        Err(e) => return Err(e),
    };
    assert(remains@ =~= input@.skip(24));
    let (remains, patch) = match parse_u32(remains) {
        Ok(v) => v,
        Err(e) => return Err(e),
    };
    assert(remains@ =~= input@.skip(28));
    let ghost after_patch = remains@;
    let (remains, file_type_author) = match parse_file_type_author(remains) {
        Ok(v) => v,
        Err(e) => return Err(e),
    };
    let ghost n = after_patch.len() - remains@.len();
    // skip the null byte that ends the header.
    if remains.len() < 1 {
        return Err(ParseError::Truncated);
    }
    let remains = slice_subrange(remains, 1, remains.len());
    assert(remains@ =~= input@.skip(28 + n + 1));
    Ok(
        (
            remains,
            FileHeader {
                iff_id,
                byte_count,
                file_type_tag,
                version_tag,
                major,
                minor,
                patch,
                file_type_author,
            },
        ),
    )
}

/// Reads the 8-byte header of a chunk: a tag and a big-endian data size.
fn parse_chunk_header(input: &[u8]) -> (r: Result<(&[u8], ChunkHeader), ParseError>)
    ensures
        match chunk_header_spec(input@) {
            Ok(h) => input@.len() >= 8 && (r matches Ok((rest, header)) && header@ == h && rest@
                == input@.skip(8)),
            Err(e) => r matches Err(f) && f == e,
        },
{
    let (remains, name) = match parse_tag(input) {
        Ok(v) => v,
        Err(e) => return Err(e),
    };
    let (remains, data_size) = match parse_usize(remains) {
        Ok(v) => v,
        Err(e) => return Err(e),
    };
    assert(remains@ =~= input@.skip(8));
    Ok((remains, ChunkHeader { name, data_size }))
}

/// Skips the data of a chunk of `data_size` bytes and its pad byte, if any:
/// chunks end on an even boundary.
fn skip_chunk_data(input: &[u8], data_size: ByteCount) -> (r: Result<(&[u8], &[u8]), ParseError>)
    ensures
        input@.len() < padded_size(data_size as nat) ==> r matches Err(ParseError::Truncated),
        input@.len() >= padded_size(data_size as nat) ==> (r matches Ok((rest, data)) && rest@
            == input@.skip(padded_size(data_size as nat) as int) && data@ == input@.take(
            padded_size(data_size as nat) as int,
        )),
{
    // compared before the pad byte is added, which cannot then overflow.
    if input.len() < data_size || (data_size % 2 != 0 && input.len() == data_size) {
        return Err(ParseError::Truncated);
    }
    let mut skip_bytes_count = data_size;
    if data_size % 2 != 0 {
        skip_bytes_count = skip_bytes_count + 1;
    }
    Ok(
        (
            slice_subrange(input, skip_bytes_count, input.len()),
            slice_subrange(input, 0, skip_bytes_count),
        ),
    )
}

/// Reads a chunk's header and skips its padded data.
fn parse_chunk_header_skip_data(input: &[u8]) -> (r: Result<(&[u8], ChunkHeader), ParseError>)
    ensures
        match chunk_step_spec(input@) {
            Ok(h) => r matches Ok((rest, header)) && header@ == h && rest@ == input@.skip(
                chunk_span(h) as int,
            ),
            Err(e) => r matches Err(f) && f == e,
        },
{
    let (remains, header) = match parse_chunk_header(input) {
        Ok(v) => v,
        Err(e) => return Err(e),
    };
    let (remains2, _) = match skip_chunk_data(remains, header.data_size) {
        Ok(v) => v,
        Err(e) => return Err(e),
    };
    assert(remains2@ =~= input@.skip(chunk_span(header@) as int));
    Ok((remains2, header))
}

proof fn lemma_prepend_push(
    acc: Seq<ChunkHeaderModel>,
    h: ChunkHeaderModel,
    r: Result<Seq<ChunkHeaderModel>, ParseError>,
)
    ensures
        prepend(acc, prepend(seq![h], r)) == prepend(acc.push(h), r),
{
    if let Ok(hs) = r {
        assert(acc + (seq![h] + hs) =~= acc.push(h) + hs);
    }
}

/// Parses only the header of each chunk, skipping the data, until no byte is
/// left.
pub fn parse_chunk_headers(input: &[u8]) -> (r: Result<(&[u8], Vec<ChunkHeader>), ParseError>)
    ensures
        match walk_spec(input@) {
            Ok(hs) => r matches Ok((rest, headers)) && rest@.len() == 0 && header_views(headers@)
                == hs,
            Err(e) => r matches Err(f) && f == e,
        },
{
    let mut chunks: Vec<ChunkHeader> = Vec::new();
    let mut remains = input;
    assert(prepend(seq![], walk_spec(remains@)) == walk_spec(input@)) by {
        if let Ok(hs) = walk_spec(input@) {
            assert(Seq::<ChunkHeaderModel>::empty() + hs =~= hs);
        }
    }
    while remains.len() > 0
        invariant
            walk_spec(input@) == prepend(header_views(chunks@), walk_spec(remains@)),
        decreases remains.len(),
    {
        let ghost before = remains@;
        let (next, header) = match parse_chunk_header_skip_data(remains) {
            Ok(v) => v,
            Err(e) => return Err(e),
        };
        proof {
            lemma_prepend_push(header_views(chunks@), header@, walk_spec(next@));
            assert(header_views(chunks@.push(header)) =~= header_views(chunks@).push(header@));
        }
        chunks.push(header);
        remains = next;
    }
    proof {
        if let Ok(hs) = walk_spec(input@) {
            assert(header_views(chunks@) + Seq::<ChunkHeaderModel>::empty() =~= header_views(chunks@));
        }
    }
    Ok((remains, chunks))
}

/// Relies on nom's `bytes::complete::take_until`: on a byte slice it splits
/// at the first occurrence of `tag`, and fails when `tag` does not occur. The
/// offset of the split is the length of the part taken.
#[verifier::external_body]
fn find_tag(input: &[u8], tag: &[u8]) -> (r: Option<usize>)
    ensures
        match r {
            Some(i) => tag_at(input@, i as int, tag@) && forall|j: int|
                0 <= j < i ==> !tag_at(input@, j, tag@),
            None => forall|j: int| !tag_at(input@, j, tag@),
        },
{
    match nom::bytes::complete::take_until::<_, _, nom::error::Error<&[u8]>>(tag)(input) {
        Ok((_, taken)) => Some(taken.len()),
        Err(_) => None,
    }
}

/// Searches the raw bytes for the first occurrence of a 4-byte tag, and
/// returns the bytes from there on. The search does not follow chunk
/// boundaries, so the tag may also be found inside another chunk's data.
pub fn take_until_chunk<'a>(input: &'a [u8], tag: &[u8]) -> (r: Result<&'a [u8], ParseError>)
    requires
        tag@.len() == TAG_CHAR_LEN,
    ensures
        match first_occurrence(input@, tag@) {
            Some(i) => 0 <= i <= input@.len() && (r matches Ok(rest) && rest@ == input@.skip(i)),
            None => r matches Err(ParseError::ChunkNotFound),
        },
{
    reveal(first_occurrence);
    match find_tag(input, tag) {
        Some(i) => {
            proof {
                let c = choose|c: int|
                    tag_at(input@, c, tag@) && forall|j: int| 0 <= j < c ==> !tag_at(input@, j, tag@);
                assert(tag_at(input@, c, tag@));
                assert(c == i);
            }
            Ok(slice_subrange(input, i, input.len()))
        },
        None => Err(ParseError::ChunkNotFound),
    }
}

/// Reads the big-endian `u32` at offset `i`.
fn be_u32_at(input: &[u8], i: usize) -> (r: u32)
    requires
        i + 4 <= input@.len(),
    ensures
        r == be_u32_of(input@.skip(i as int)),
{
    input[i] as u32 * 0x100_0000 + input[i + 1] as u32 * 0x1_0000 + input[i + 2] as u32 * 0x100
        + input[i + 3] as u32
}

/// Reads one point: x, y and z, each four big-endian bytes.
fn parse_point(input: &[u8]) -> (r: Result<(&[u8], Point), ParseError>)
    ensures
        input@.len() < 12 ==> r matches Err(ParseError::Truncated),
        input@.len() >= 12 ==> (r matches Ok((rest, p)) && p == point_at(input@, 0) && rest@
            == input@.skip(12)),
{
    if input.len() < BYTES_PER_3D_POINT {
        return Err(ParseError::Truncated);
    }
    let x = be_u32_at(input, 0);
    let y = be_u32_at(input, 4);
    let z = be_u32_at(input, 8);
    assert(input@.skip(0) =~= input@);
    Ok((slice_subrange(input, BYTES_PER_3D_POINT, input.len()), Point { x, y, z }))
}

/// Reads the `data_size / 12` points of a chunk's data.
fn parse_points(input: &[u8], data_size: ByteCount) -> (r: Result<(&[u8], Vec<Point>), ParseError>)
    requires
        data_size >= BYTES_PER_3D_POINT,
        data_size % BYTES_PER_3D_POINT == 0,
    ensures
        input@.len() < data_size ==> r matches Err(ParseError::Truncated),
        input@.len() >= data_size ==> (r matches Ok((rest, points)) && points@ == points_spec(
            input@,
            data_size as nat / 12,
        ) && rest@ == input@.skip(data_size as int)),
{
    if input.len() < data_size {
        return Err(ParseError::Truncated);
    }
    let point_count = data_size / BYTES_PER_3D_POINT;
    let mut points: Vec<Point> = Vec::new();
    let mut remains = input;
    let mut k: usize = 0;
    while k < point_count
        invariant
            point_count == data_size / 12,
            data_size <= input@.len(),
            k <= point_count,
            remains@ == input@.skip(12 * k),
            points@ == points_spec(input@, k as nat),
        decreases point_count - k,
    {
        let (next, p) = match parse_point(remains) {
            Ok(v) => v,
            Err(e) => return Err(e),
        };
        proof {
            assert(next@ =~= input@.skip(12 * (k + 1)));
            assert(p == point_at(input@, 12 * k)) by {
                assert(remains@.skip(0) =~= input@.skip(12 * k));
                assert(remains@.skip(4) =~= input@.skip(12 * k + 4));
                assert(remains@.skip(8) =~= input@.skip(12 * k + 8));
            }
            assert(points@.push(p) =~= points_spec(input@, (k + 1) as nat));
        }
        points.push(p);
        remains = next;
        k = k + 1;
    }
    Ok((remains, points))
}

/// Decodes the points chunk at the start of `input`: its tag must be "PNTS"
/// and its data a positive whole number of 12-byte points. Returns the chunk
/// and the bytes after its data (a pad byte, if any, is not skipped).
pub fn parse_points_chunk(input: &[u8]) -> (r: Result<(&[u8], Chunk<Point>), ParseError>)
    ensures
        match points_chunk_spec(input@) {
            Ok((h, points, n)) => n <= input@.len() && (r matches Ok((rest, chunk)) && chunk.header@
                == h && chunk.data@ == points && rest@ == input@.skip(n as int)),
            Err(e) => r matches Err(f) && f == e,
        },
        chunk_header_spec(input@) matches Ok(h) && input@.take(4) == pnts_tag_bytes() && (
        h.data_size == 0 || h.data_size % 12 != 0) ==> r matches Err(
            ParseError::InvalidPayloadSize,
        ),
{
    reveal(points_chunk_spec);
    let (remains, header) = match parse_chunk_header(input) {
        Ok(v) => v,
        Err(e) => return Err(e),
    };
    if !(input[0] == 0x50 && input[1] == 0x4E && input[2] == 0x54 && input[3] == 0x53) {
        assert(input@.take(4) != pnts_tag_bytes()) by {
            if input@.take(4) == pnts_tag_bytes() {
                assert(input@.take(4)[0] == input@[0]);
                assert(input@.take(4)[1] == input@[1]);
                assert(input@.take(4)[2] == input@[2]);
                assert(input@.take(4)[3] == input@[3]);
            }
        }
        return Err(ParseError::UnexpectedChunkTag);
    }
    assert(input@.take(4) =~= pnts_tag_bytes());
    if header.data_size == 0 || header.data_size % BYTES_PER_3D_POINT != 0 {
        return Err(ParseError::InvalidPayloadSize);
    }
    let (remains, data) = match parse_points(remains, header.data_size) {
        Ok(v) => v,
        Err(e) => return Err(e),
    };
    proof {
        assert(remains@ =~= input@.skip(8 + header.data_size));
    }
    Ok((remains, Chunk { header, data }))
}

/// Finds the first "PNTS" tag in `input` and decodes the points chunk that
/// starts there.
pub fn parse_chunk_pnts(input: &[u8]) -> (r: Result<(&[u8], Chunk<Point>), ParseError>)
    ensures
        match first_occurrence(input@, pnts_tag_bytes()) {
            Some(i) => match points_chunk_spec(input@.skip(i)) {
                Ok((h, points, n)) => r matches Ok((rest, chunk)) && chunk.header@ == h
                    && chunk.data@ == points && rest@ == input@.skip(i + n),
                Err(e) => r matches Err(f) && f == e,
            },
            None => r matches Err(ParseError::ChunkNotFound),
        },
{
    let pnts: [u8; 4] = [0x50, 0x4E, 0x54, 0x53];
    assert(pnts@ =~= pnts_tag_bytes());
    let remains = match take_until_chunk(input, pnts.as_slice()) {
        Ok(v) => v,
        Err(e) => return Err(e),
    };
    let r = parse_points_chunk(remains);
    proof {
        if let Some(i) = first_occurrence(input@, pnts_tag_bytes()) {
            if let Ok((h, points, n)) = points_chunk_spec(input@.skip(i)) {
                if let Ok((rest, _)) = r {
                    assert(rest@ =~= input@.skip(i + n));
                }
            }
        }
    }
    r
}

/// Returns true if the data holds the LXOB file type tag after the container
/// id and size fields.
pub fn is_lxob(input: &[u8]) -> (r: bool)
    ensures
        r == (input@.len() >= 12 && input@.subrange(8, 12) == lxob_tag_bytes()),
{
    let at = IFF_ID_FIELD_SIZE + IFF_SIZE_FIELD_SIZE;
    if input.len() < at + TAG_CHAR_LEN {
        return false;
    }
    let r = input[at] == 0x4C && input[at + 1] == 0x58 && input[at + 2] == 0x4F && input[at + 3]
        == 0x42;
    proof {
        let t = input@.subrange(8, 12);
        if r {
            assert(t =~= lxob_tag_bytes());
        } else if t == lxob_tag_bytes() {
            assert(t[0] == input@[8] && t[1] == input@[9] && t[2] == input@[10] && t[3] == input@[11]);
        }
    }
    r
}

} // verus!
