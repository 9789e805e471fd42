//! Line extraction: splitting a byte buffer into the complete, terminated
//! lines it holds, while holding back an unterminated trailing fragment.

use vstd::prelude::*;

verus! {

/// Byte value of the line feed that terminates a line.
pub const LINE_FEED: u8 = 10;

/// Byte value of the carriage return that is stripped from the end of a line.
pub const CARRIAGE_RETURN: u8 = 13;

/// A line with a trailing carriage return loses it; any other line is kept whole.
pub open spec fn strip_cr(line: Seq<u8>) -> Seq<u8> {
    if line.len() > 0 && line.last() == CARRIAGE_RETURN {
        line.drop_last()
    } else {
        line
    }
}

/// The complete lines of `cur + rest`, where `cur` holds bytes of the current
/// line read so far. A line is emitted at each line feed; whatever follows the
/// last line feed is not a line.
pub open spec fn split_lines_rec(rest: Seq<u8>, cur: Seq<u8>) -> Seq<Seq<u8>>
    decreases rest.len(),
{
    if rest.len() == 0 {
        Seq::empty()
    } else if rest.first() == LINE_FEED {
        seq![strip_cr(cur)] + split_lines_rec(rest.drop_first(), Seq::empty())
    } else {
        split_lines_rec(rest.drop_first(), cur.push(rest.first()))
    }
}

/// The unterminated trailing fragment of `cur + rest`: the bytes that follow
/// the last line feed, or all of `cur + rest` if there is none.
pub open spec fn frag_rec(rest: Seq<u8>, cur: Seq<u8>) -> Seq<u8>
    decreases rest.len(),
{
    if rest.len() == 0 {
        cur
    } else if rest.first() == LINE_FEED {
        frag_rec(rest.drop_first(), Seq::empty())
    } else {
        frag_rec(rest.drop_first(), cur.push(rest.first()))
    }
}

/// The complete lines of a buffer, in order, terminators stripped.
pub open spec fn split_lines(s: Seq<u8>) -> Seq<Seq<u8>> {
    split_lines_rec(s, Seq::empty())
}

/// The unterminated trailing fragment of a buffer.
pub open spec fn frag(s: Seq<u8>) -> Seq<u8> {
    frag_rec(s, Seq::empty())
}

/// How many leading bytes of a buffer belong to complete lines: everything up
/// to and including the last line feed.
pub open spec fn consumed_len(s: Seq<u8>) -> int {
    s.len() - frag(s).len()
}

/// The fragment is never longer than the pending line plus the unread bytes.
proof fn lemma_frag_len(rest: Seq<u8>, cur: Seq<u8>)
    ensures
        frag_rec(rest, cur).len() <= cur.len() + rest.len(),
    decreases rest.len(),
{
    if rest.len() == 0 {
    } else if rest.first() == LINE_FEED {
        lemma_frag_len(rest.drop_first(), Seq::empty());
    } else {
        lemma_frag_len(rest.drop_first(), cur.push(rest.first()));
    }
}

/// Holds when a byte sequence contains no line feed.
pub open spec fn has_no_newline(s: Seq<u8>) -> bool {
    forall|k: int| 0 <= k < s.len() ==> s[k] != LINE_FEED
}

/// The fragment holds no line feed, provided the pending line holds none.
proof fn lemma_frag_no_newline(rest: Seq<u8>, cur: Seq<u8>)
    requires
        has_no_newline(cur),
    ensures
        has_no_newline(frag_rec(rest, cur)),
    decreases rest.len(),
{
    if rest.len() == 0 {
    } else if rest.first() == LINE_FEED {
        assert(has_no_newline(Seq::<u8>::empty()));
        lemma_frag_no_newline(rest.drop_first(), Seq::empty());
    } else {
        let cur2 = cur.push(rest.first());
        assert forall|k: int| 0 <= k < cur2.len() implies cur2[k] != LINE_FEED by {
            if k < cur.len() {
                assert(cur2[k] == cur[k]);
            } else {
                assert(cur2[k] == rest.first());
            }
        }
        lemma_frag_no_newline(rest.drop_first(), cur2);
    }
}

/// A buffer without a line feed yields no line, and its fragment is the
/// pending line followed by the whole buffer.
proof fn lemma_no_newline_rec(rest: Seq<u8>, cur: Seq<u8>)
    requires
        has_no_newline(rest),
    ensures
        split_lines_rec(rest, cur) == Seq::<Seq<u8>>::empty(),
        frag_rec(rest, cur) == cur + rest,
    decreases rest.len(),
{
    if rest.len() == 0 {
        assert(cur + rest =~= cur);
    } else {
        assert(rest.first() != LINE_FEED);
        let cur2 = cur.push(rest.first());
        assert forall|k: int| 0 <= k < rest.drop_first().len() implies rest.drop_first()[k]
            != LINE_FEED by {
            assert(rest.drop_first()[k] == rest[k + 1]);
        }
        lemma_no_newline_rec(rest.drop_first(), cur2);
        assert(cur2 + rest.drop_first() =~= cur + rest);
    }
}

/// Splitting a concatenation: the lines of `s` come first, and the lines of
/// `t` continue from the fragment that `s` left pending.
proof fn lemma_append_rec(s: Seq<u8>, t: Seq<u8>, cur: Seq<u8>)
    ensures
        split_lines_rec(s + t, cur) == split_lines_rec(s, cur) + split_lines_rec(
            t,
            frag_rec(s, cur),
        ),
        frag_rec(s + t, cur) == frag_rec(t, frag_rec(s, cur)),
    decreases s.len(),
{
    if s.len() == 0 {
        assert(s + t =~= t);
        assert(split_lines_rec(s, cur) + split_lines_rec(t, cur) =~= split_lines_rec(t, cur));
    } else {
        assert((s + t).first() == s.first());
        assert((s + t).drop_first() =~= s.drop_first() + t);
        if s.first() == LINE_FEED {
            lemma_append_rec(s.drop_first(), t, Seq::empty());
            let head = seq![strip_cr(cur)];
            let mid = split_lines_rec(s.drop_first(), Seq::empty());
            let tail = split_lines_rec(t, frag_rec(s.drop_first(), Seq::empty()));
            assert((head + mid) + tail =~= head + (mid + tail));
        } else {
            lemma_append_rec(s.drop_first(), t, cur.push(s.first()));
        }
    }
}

/// The fragment is a suffix of the pending line followed by the buffer.
proof fn lemma_frag_suffix_rec(rest: Seq<u8>, cur: Seq<u8>)
    ensures
        frag_rec(rest, cur).len() <= cur.len() + rest.len(),
        frag_rec(rest, cur) == (cur + rest).skip(
            cur.len() + rest.len() - frag_rec(rest, cur).len(),
        ),
    decreases rest.len(),
{
    lemma_frag_len(rest, cur);
    if rest.len() == 0 {
        assert(cur + rest =~= cur);
        assert(cur.skip(0) =~= cur);
    } else if rest.first() == LINE_FEED {
        lemma_frag_suffix_rec(rest.drop_first(), Seq::empty());
        let f = frag_rec(rest.drop_first(), Seq::empty());
        assert(Seq::<u8>::empty() + rest.drop_first() =~= rest.drop_first());
        let m = cur.len() + rest.len() - f.len();
        assert((cur + rest).skip(m as int) =~= rest.drop_first().skip(
            rest.len() - 1 - f.len(),
        ));
    } else {
        let cur2 = cur.push(rest.first());
        lemma_frag_suffix_rec(rest.drop_first(), cur2);
        assert(cur2 + rest.drop_first() =~= cur + rest);
    }
}

/// The unconsumed part of a buffer is exactly its unterminated fragment: the
/// consumed length never overshoots the buffer, what lies past it holds no
/// line feed, and skipping the consumed part leaves the fragment.
pub proof fn lemma_fragment_is_suffix(s: Seq<u8>)
    ensures
        0 <= consumed_len(s) <= s.len(),
        frag(s) == s.skip(consumed_len(s)),
        has_no_newline(frag(s)),
{
    lemma_frag_len(s, Seq::empty());
    lemma_frag_suffix_rec(s, Seq::empty());
    assert(Seq::<u8>::empty() + s =~= s);
    assert(has_no_newline(Seq::<u8>::empty()));
    lemma_frag_no_newline(s, Seq::empty());
}

/// Tailing may stop at any consumed boundary and continue later: if a buffer
/// `s` has been consumed up to its last line feed and bytes `t` arrive, then
/// re-reading from the boundary (the pending fragment followed by `t`) yields
/// exactly the lines of `s + t` that were not yet emitted, and the boundaries
/// agree. No line is lost, none is emitted twice, and order is kept.
pub proof fn lemma_tail_continuation(s: Seq<u8>, t: Seq<u8>)
    ensures
        split_lines(s + t) == split_lines(s) + split_lines(frag(s) + t),
        frag(s + t) == frag(frag(s) + t),
        consumed_len(s) + consumed_len(frag(s) + t) == consumed_len(s + t),
{
    lemma_append_rec(s, t, Seq::empty());
    lemma_append_rec(frag(s), t, Seq::empty());
    assert(has_no_newline(Seq::<u8>::empty()));
    lemma_frag_no_newline(s, Seq::empty());
    lemma_no_newline_rec(frag(s), Seq::empty());
    assert(Seq::<u8>::empty() + frag(s) =~= frag(s));
    assert(Seq::<Seq<u8>>::empty() + split_lines_rec(t, frag(s)) =~= split_lines_rec(
        t,
        frag(s),
    ));
}

/// A line with no terminator is held back: the lines of a buffer all come
/// from its consumed part, the bytes past the consumed boundary hold no line
/// feed, and consuming the consumed part alone advances just as far.
pub proof fn lemma_partial_line_held_back(s: Seq<u8>)
    ensures
        0 <= consumed_len(s) <= s.len(),
        has_no_newline(s.skip(consumed_len(s))),
        split_lines(s.take(consumed_len(s))) == split_lines(s),
        consumed_len(s.take(consumed_len(s))) == consumed_len(s),
{
    lemma_fragment_is_suffix(s);
    let c = consumed_len(s);
    let p = s.take(c);
    assert(p + frag(s) =~= s);
    lemma_append_rec(p, frag(s), Seq::empty());
    assert(has_no_newline(Seq::<u8>::empty()));
    lemma_frag_no_newline(p, Seq::empty());
    lemma_no_newline_rec(frag(s), frag(p));
    assert(frag(s).len() == frag(p).len() + frag(s).len());
    assert(frag(p) =~= Seq::<u8>::empty());
    assert(split_lines(p) + Seq::<Seq<u8>>::empty() =~= split_lines(p));
}

/// Splits newly read bytes into their complete lines, in order, line feeds
/// stripped (and a carriage return before each line feed stripped too), and
/// reports how many leading bytes those lines covered. The unterminated tail
/// is neither returned nor counted as consumed.
pub fn extract_lines(buf: &[u8]) -> (r: (Vec<Vec<u8>>, usize))
    ensures
        r.0.deep_view() == split_lines(buf@),
        r.1 == consumed_len(buf@),
        r.1 <= buf@.len(),
{
    let mut lines: Vec<Vec<u8>> = Vec::new();
    let mut cur: Vec<u8> = Vec::new();
    let mut i: usize = 0;
    proof {
        assert(buf@.skip(0) =~= buf@);
        assert(lines.deep_view() =~= Seq::<Seq<u8>>::empty());
        assert(Seq::<Seq<u8>>::empty() + split_lines(buf@) =~= split_lines(buf@));
    }
    while i < buf.len()
        invariant
            i <= buf.len(),
            cur@.len() <= i,
            lines.deep_view() + split_lines_rec(buf@.skip(i as int), cur@) == split_lines(buf@),
            frag_rec(buf@.skip(i as int), cur@) == frag(buf@),
        decreases buf.len() - i,
    {
        let ghost rest = buf@.skip(i as int);
        let ghost cur0 = cur@;
        let b = buf[i];
        proof {
            assert(rest.first() == buf@[i as int]);
            assert(rest.drop_first() =~= buf@.skip(i as int + 1));
        }
        if b == LINE_FEED {
            let mut done = cur;
            cur = Vec::new();
            if done.len() > 0 && done[done.len() - 1] == CARRIAGE_RETURN {
                done.pop();
            }
            assert(done@ == strip_cr(cur0));
            let ghost before = lines.deep_view();
            lines.push(done);
            proof {
                assert(lines.deep_view() =~~= before + seq![strip_cr(cur0)]);
                assert((before + seq![strip_cr(cur0)]) + split_lines_rec(
                    buf@.skip(i as int + 1),
                    Seq::empty(),
                ) =~= before + (seq![strip_cr(cur0)] + split_lines_rec(
                    buf@.skip(i as int + 1),
                    Seq::empty(),
                )));
            }
        } else {
            cur.push(b);
        }
        i = i + 1;
    }
    proof {
        assert(buf@.skip(i as int) =~= Seq::<u8>::empty());
        assert(lines.deep_view() + Seq::<Seq<u8>>::empty() =~= lines.deep_view());
        assert(cur@ == frag(buf@));
    }
    let consumed = buf.len() - cur.len();
    (lines, consumed)
}

/// A cursor standing at the consumed boundary of content `s` stays correct
/// when the file grows to `s + t`: reading everything past the cursor yields
/// exactly the lines not yet emitted, and advancing by what that read
/// consumed puts the cursor at the consumed boundary of `s + t` again.
pub proof fn lemma_cursor_stays_synced(s: Seq<u8>, t: Seq<u8>)
    ensures
        split_lines(s) + split_lines((s + t).skip(consumed_len(s))) == split_lines(s + t),
        consumed_len(s) + consumed_len((s + t).skip(consumed_len(s))) == consumed_len(s + t),
{
    lemma_fragment_is_suffix(s);
    lemma_tail_continuation(s, t);
    assert((s + t).skip(consumed_len(s)) =~= frag(s) + t);
}

/// The whole content written so far, as one byte sequence.
pub open spec fn concat_all(writes: Seq<Seq<u8>>) -> Seq<u8>
    decreases writes.len(),
{
    if writes.len() == 0 {
        Seq::empty()
    } else {
        concat_all(writes.drop_last()) + writes.last()
    }
}

/// The lines a tailing run emits when a read happens after each write: each
/// read starts from the previous consumed boundary, so it sees the pending
/// fragment followed by the new bytes.
pub open spec fn tail_run_output(writes: Seq<Seq<u8>>) -> Seq<Seq<u8>>
    decreases writes.len(),
{
    if writes.len() == 0 {
        Seq::empty()
    } else {
        tail_run_output(writes.drop_last()) + split_lines(
            frag(concat_all(writes.drop_last())) + writes.last(),
        )
    }
}

/// However appended writes are chunked across reads, the lines emitted over
/// the whole run, concatenated in order, are exactly the complete lines of
/// the final content: each line once, in file order.
pub proof fn lemma_no_line_lost_or_repeated(writes: Seq<Seq<u8>>)
    ensures
        tail_run_output(writes) == split_lines(concat_all(writes)),
    decreases writes.len(),
{
    if writes.len() == 0 {
    } else {
        lemma_no_line_lost_or_repeated(writes.drop_last());
        lemma_tail_continuation(concat_all(writes.drop_last()), writes.last());
    }
}

} // verus!
