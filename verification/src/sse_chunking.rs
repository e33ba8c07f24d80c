//! The analysis stream parser does not depend on where chunks of the stream end.
use vstd::prelude::*;

use crate::logshare::{bytes_at, events_of_blocks, first_match, lemma_first_match, next_separator, split_blocks};

verus! {

proof fn lemma_bytes_at_extend(x: Seq<u8>, y: Seq<u8>, n: Seq<u8>, p: int)
    requires
        0 <= p,
        p + n.len() <= x.len(),
    ensures
        bytes_at(x + y, n, p) == bytes_at(x, n, p),
{
    assert((x + y).subrange(p, p + n.len()) =~= x.subrange(p, p + n.len()));
}

proof fn lemma_first_match_extend_found(x: Seq<u8>, y: Seq<u8>, n: Seq<u8>, from: int)
    requires
        0 <= from,
        first_match(x, n, from) >= 0,
    ensures
        first_match(x + y, n, from) == first_match(x, n, from),
    decreases x.len() + 1 - from,
{
    lemma_bytes_at_extend(x, y, n, from);
    if !bytes_at(x, n, from) {
        lemma_first_match_extend_found(x, y, n, from + 1);
    }
}

proof fn lemma_first_match_extend_missing(x: Seq<u8>, y: Seq<u8>, n: Seq<u8>, from: int)
    requires
        0 <= from,
        first_match(x, n, from) == -1,
    ensures
        first_match(x + y, n, from) == -1 || first_match(x + y, n, from) > x.len() - n.len(),
    decreases x.len() + 1 - from,
{
    if from + n.len() <= x.len() {
        lemma_bytes_at_extend(x, y, n, from);
        lemma_first_match_extend_missing(x, y, n, from + 1);
    } else {
        lemma_first_match(x + y, n, from);
    }
}

/// A separator found in `x` is the one found in `x` followed by anything.
proof fn lemma_next_separator_extend(x: Seq<u8>, y: Seq<u8>)
    requires
        next_separator(x) is Some,
    ensures
        next_separator(x + y) == next_separator(x),
        next_separator(x) matches Some((pos, len)) && 0 <= pos && 0 < len && pos + len <= x.len(),
{
    let lf = seq![10u8, 10u8];
    let crlf = seq![13u8, 10u8, 13u8, 10u8];
    lemma_first_match(x, lf, 0);
    lemma_first_match(x, crlf, 0);
    lemma_first_match(x + y, lf, 0);
    lemma_first_match(x + y, crlf, 0);
    let l = first_match(x, lf, 0);
    let c = first_match(x, crlf, 0);
    if l >= 0 {
        lemma_first_match_extend_found(x, y, lf, 0);
        assert(x.subrange(l, l + 2)[1] == x[l + 1]);
    } else {
        lemma_first_match_extend_missing(x, y, lf, 0);
    }
    if c >= 0 {
        lemma_first_match_extend_found(x, y, crlf, 0);
    } else {
        lemma_first_match_extend_missing(x, y, crlf, 0);
        let c2 = first_match(x + y, crlf, 0);
        if l >= 0 && c2 >= 0 && c2 < l {
            assert((x + y).subrange(c2, c2 + 4)[2] == (x + y)[c2 + 2]);
            assert(x.subrange(l, l + 2)[1] == x[l + 1]);
            assert((x + y)[l + 1] == x[l + 1]);
        }
    }
}

/// Splitting a buffer into event blocks in two steps, the second step on what the first
/// left over followed by more bytes, gives the blocks and leftover of one split.
pub proof fn law_split_blocks_in_pieces(x: Seq<u8>, y: Seq<u8>)
    ensures
        split_blocks(x + y).0 == split_blocks(x).0 + split_blocks(split_blocks(x).1 + y).0,
        split_blocks(x + y).1 == split_blocks(split_blocks(x).1 + y).1,
    decreases x.len(),
{
    match next_separator(x) {
        Some((pos, len)) => {
            lemma_next_separator_extend(x, y);
            let rest = x.skip(pos + len);
            assert((x + y).skip(pos + len) =~= rest + y);
            assert((x + y).take(pos) =~= x.take(pos));
            law_split_blocks_in_pieces(rest, y);
            assert(split_blocks(x + y).0 =~= seq![x.take(pos)] + split_blocks(rest + y).0);
            assert(split_blocks(x).0 =~= seq![x.take(pos)] + split_blocks(rest).0);
            assert(split_blocks(x + y).0 =~= split_blocks(x).0 + split_blocks(split_blocks(x).1 + y).0);
        },
        None => {
            assert(split_blocks(x).0 =~= Seq::<Seq<u8>>::empty());
            assert(split_blocks(x).0 + split_blocks(split_blocks(x).1 + y).0 =~= split_blocks(x + y).0);
        },
    }
}

proof fn lemma_events_concat(a: Seq<Seq<u8>>, b: Seq<Seq<u8>>)
    ensures
        events_of_blocks(a + b) == events_of_blocks(a) + events_of_blocks(b),
    decreases b.len(),
{
    if b.len() == 0 {
        assert(a + b =~= a);
        assert(events_of_blocks(a) + events_of_blocks(b) =~= events_of_blocks(a));
    } else {
        assert((a + b).drop_last() =~= a + b.drop_last());
        assert((a + b).last() == b.last());
        lemma_events_concat(a, b.drop_last());
        let pa = events_of_blocks(a);
        let pb = events_of_blocks(b.drop_last());
        assert((pa + pb).push(events_of_blocks(seq![b.last()]).last()) =~= pa + pb.push(
            events_of_blocks(seq![b.last()]).last(),
        ));
        assert(events_of_blocks(a + b) =~= events_of_blocks(a) + events_of_blocks(b));
    }
}

/// Feeding the analysis stream in two chunks yields the events, and leaves the
/// unfinished bytes, that feeding both chunks at once does: where a chunk ends does not
/// matter.
pub proof fn law_sse_feed_in_pieces(pending: Seq<u8>, a: Seq<u8>, b: Seq<u8>)
    ensures
        ({
            let first = split_blocks(pending + a);
            let second = split_blocks(first.1 + b);
            let whole = split_blocks(pending + a + b);
            &&& events_of_blocks(first.0) + events_of_blocks(second.0) == events_of_blocks(whole.0)
            &&& second.1 == whole.1
        }),
{
    law_split_blocks_in_pieces(pending + a, b);
    let first = split_blocks(pending + a);
    let second = split_blocks(first.1 + b);
    lemma_events_concat(first.0, second.0);
}

} // verus!
