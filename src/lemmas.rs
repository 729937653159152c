use vstd::prelude::*;
use crate::lxob::{pnts_tag_bytes, ChunkHeaderModel, ParseError};
use crate::parser::{
    chunk_header_spec, chunk_span, chunk_step_spec, file_header_spec, first_occurrence,
    points_chunk_spec, prepend, tag_spec, u32_spec, walk_spec,
};

verus! {

/// Decoding is a function of the bytes alone: the same bytes give the same
/// header, the same chunk headers, the same located chunk and the same points.
pub proof fn lemma_decoding_deterministic(a: Seq<u8>, b: Seq<u8>)
    requires
        a == b,
    ensures
        file_header_spec(a) == file_header_spec(b),
        walk_spec(a) == walk_spec(b),
        first_occurrence(a, pnts_tag_bytes()) == first_occurrence(b, pnts_tag_bytes()),
        points_chunk_spec(a) == points_chunk_spec(b),
{
}

/// A points chunk whose data size is zero, or not a multiple of the 12 bytes
/// of a point, is rejected with `InvalidPayloadSize`.
pub proof fn lemma_points_payload_size_rejected(s: Seq<u8>)
    requires
        s.len() >= 4,
        s.take(4) == pnts_tag_bytes(),
        chunk_header_spec(s) matches Ok(h) && (h.data_size == 0 || h.data_size % 12 != 0),
    ensures
        points_chunk_spec(s) == Err::<(ChunkHeaderModel, Seq<crate::geom::Point>, nat), ParseError>(
            ParseError::InvalidPayloadSize,
        ),
{
    reveal(points_chunk_spec);
}

proof fn lemma_prepend_assoc(
    x: Seq<ChunkHeaderModel>,
    y: Seq<ChunkHeaderModel>,
    r: Result<Seq<ChunkHeaderModel>, ParseError>,
)
    ensures
        prepend(x, prepend(y, r)) == prepend(x + y, r),
{
    if let Ok(hs) = r {
        assert(x + (y + hs) =~= (x + y) + hs);
    }
}

/// A chunk's header is read from its first eight bytes only.
proof fn lemma_chunk_step_prefix(a: Seq<u8>, b: Seq<u8>)
    requires
        chunk_step_spec(a) is Ok,
    ensures
        chunk_step_spec(a + b) == chunk_step_spec(a),
{
    reveal(tag_spec);
    reveal(u32_spec);
    let s = a + b;
    assert(s.take(4) =~= a.take(4));
    assert(s.skip(4)[0] == a.skip(4)[0]);
    assert(s.skip(4)[1] == a.skip(4)[1]);
    assert(s.skip(4)[2] == a.skip(4)[2]);
    assert(s.skip(4)[3] == a.skip(4)[3]);
}

/// Walking two byte runs one after the other gives the chunk headers of the
/// first, then those of the second.
pub proof fn lemma_walk_concat(a: Seq<u8>, b: Seq<u8>)
    requires
        walk_spec(a) is Ok,
    ensures
        walk_spec(a + b) == prepend(walk_spec(a)->Ok_0, walk_spec(b)),
    decreases a.len(),
{
    if a.len() == 0 {
        assert(a + b =~= b);
        if let Ok(hs) = walk_spec(b) {
            assert(Seq::<ChunkHeaderModel>::empty() + hs =~= hs);
        }
    } else {
        lemma_chunk_step_prefix(a, b);
        let h = chunk_step_spec(a)->Ok_0;
        let n = chunk_span(h) as int;
        let rest = a.skip(n);
        assert((a + b).skip(n) =~= rest + b);
        lemma_walk_concat(rest, b);
        lemma_prepend_assoc(seq![h], walk_spec(rest)->Ok_0, walk_spec(b));
    }
}

/// A byte run made of `groups.len()` complete chunks (each group a tag, a
/// size, its data and its pad byte) walks to exactly one header per group,
/// in order.
pub proof fn lemma_walk_counts_groups(groups: Seq<Seq<u8>>)
    requires
        forall|i: int| 0 <= i < groups.len() ==> ((#[trigger] walk_spec(groups[i])) matches Ok(hs)
            && hs.len() == 1),
    ensures
        walk_spec(groups.flatten()) is Ok,
        walk_spec(groups.flatten())->Ok_0.len() == groups.len(),
        forall|i: int|
            0 <= i < groups.len() ==> walk_spec(groups.flatten())->Ok_0[i] == walk_spec(groups[i])->Ok_0[0],
    decreases groups.len(),
{
    if groups.len() == 0 {
        assert(groups.flatten() =~= Seq::<u8>::empty());
    } else {
        let tail = groups.drop_first();
        assert forall|i: int| 0 <= i < tail.len() implies ((#[trigger] walk_spec(tail[i])) matches Ok(
            hs,
        ) && hs.len() == 1) by {
            assert(tail[i] == groups[i + 1]);
        }
        lemma_walk_counts_groups(tail);
        assert(walk_spec(groups[0]) is Ok);
        lemma_walk_concat(groups[0], tail.flatten());
        let first = walk_spec(groups[0])->Ok_0;
        let rest = walk_spec(tail.flatten())->Ok_0;
        let all = first + rest;
        assert forall|i: int| 0 <= i < groups.len() implies all[i] == walk_spec(groups[i])->Ok_0[0] by {
            if i > 0 {
                assert(tail[i - 1] == groups[i]);
            }
        }
    }
}

/// A successful walk consumes its input to exactly zero remaining bytes: the
/// spans of the chunks it reports add up to the input's length.
pub proof fn lemma_walk_consumes_all(s: Seq<u8>)
    requires
        walk_spec(s) is Ok,
    ensures
        total_span(walk_spec(s)->Ok_0) == s.len(),
    decreases s.len(),
{
    if s.len() > 0 {
        let h = chunk_step_spec(s)->Ok_0;
        let rest = s.skip(chunk_span(h) as int);
        lemma_walk_consumes_all(rest);
        let hs = walk_spec(s)->Ok_0;
        assert(hs.drop_first() =~= walk_spec(rest)->Ok_0);
    }
}

/// Bytes that the chunks with headers `hs` take, one after another.
pub open spec fn total_span(hs: Seq<ChunkHeaderModel>) -> nat
    decreases hs.len(),
{
    if hs.len() == 0 {
        0
    } else {
        chunk_span(hs[0]) + total_span(hs.drop_first())
    }
}

/// Chunks laid one after another from an even offset all start on even
/// offsets: the bytes that any run of chunks takes add up to an even count.
pub proof fn lemma_chunk_spans_even(hs: Seq<ChunkHeaderModel>)
    ensures
        total_span(hs) % 2 == 0,
    decreases hs.len(),
{
    if hs.len() > 0 {
        lemma_chunk_spans_even(hs.drop_first());
    }
}

} // verus!
