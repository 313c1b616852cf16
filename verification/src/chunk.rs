//! The outbound IRC line chunker.  A protocol line must stay under the
//! transport's 512-byte limit, so an outgoing message is split into byte
//! segments of bounded length, each cut moved backward off UTF-8
//! continuation bytes so that no boundary falls inside a codepoint.

use vstd::prelude::*;
use vstd::string::StrSliceExecFns;
use vstd::string::StringSliceAdditionalSpecFns;

verus! {

broadcast use vstd::string::group_string_axioms;

/// Whether a byte is a UTF-8 continuation byte (`10xxxxxx`).
pub open spec fn is_cont(b: u8) -> bool {
    128 <= b && b < 192
}

fn is_cont_byte(b: u8) -> (r: bool)
    ensures
        r == is_cont(b),
{
    128 <= b && b < 192
}

/// Text the chunker accepts: it does not begin with a continuation byte,
/// and nowhere holds four continuation bytes in a row.  Valid UTF-8
/// satisfies both, since a codepoint has at most three continuation bytes.
pub open spec fn wf_text(s: Seq<u8>) -> bool {
    (s.len() > 0 ==> !is_cont(s[0])) && (forall|i: int|
        0 <= i && i + 3 < s.len() ==> !(is_cont(s[i]) && is_cont(#[trigger] s[i + 1]) && is_cont(
            s[i + 2],
        ) && is_cont(s[i + 3])))
}

/// Whether the bytes are accepted by the chunker.
pub fn is_wf_text(s: &[u8]) -> (r: bool)
    ensures
        r == wf_text(s@),
{
    let n = s.len();
    if n > 0 && is_cont_byte(s[0]) {
        return false;
    }
    if n < 4 {
        return true;
    }
    let mut i: usize = 0;
    while i + 3 < n
        invariant
            0 <= i,
            i + 3 <= n,
            n == s@.len(),
            4 <= n,
            forall|k: int|
                0 <= k < i ==> !(is_cont(s@[k]) && is_cont(#[trigger] s@[k + 1]) && is_cont(
                    s@[k + 2],
                ) && is_cont(s@[k + 3])),
        decreases n - i,
    {
        if is_cont_byte(s[i]) && is_cont_byte(s[i + 1]) && is_cont_byte(s[i + 2]) && is_cont_byte(
            s[i + 3],
        ) {
            return false;
        }
        i += 1;
    }
    true
}

/// The cut position: the largest `c <= limit` where `s[c]` is not a
/// continuation byte, or `0` when every candidate is one.
pub open spec fn spec_cut(s: Seq<u8>, limit: int) -> int
    decreases limit,
{
    if limit <= 0 {
        0
    } else if 0 <= limit < s.len() && !is_cont(s[limit]) {
        limit
    } else {
        spec_cut(s, limit - 1)
    }
}

/// The segments the chunker emits for `s` under the byte limit `max`: the
/// largest prefix of at most `max` bytes, its end moved backward off
/// continuation bytes, then the chunks of the rest; a text no longer than
/// the limit is one single segment, so empty input gives one empty segment.
pub open spec fn spec_chunks(s: Seq<u8>, max: int) -> Seq<Seq<u8>>
    decreases s.len(),
{
    if max < 1 || s.len() <= max {
        seq![s]
    } else {
        let c0 = spec_cut(s, max);
        let c = if c0 < 1 {
            1
        } else if c0 > max {
            max
        } else {
            c0
        };
        seq![s.take(c)] + spec_chunks(s.skip(c), max)
    }
}

proof fn lemma_cut_exact(s: Seq<u8>, c: int, limit: int)
    requires
        0 <= c <= limit < s.len(),
        !is_cont(s[c]),
        forall|k: int| c < k <= limit ==> is_cont(s[k]),
    ensures
        spec_cut(s, limit) == c,
    decreases limit - c,
{
    if c < limit {
        lemma_cut_exact(s, c, limit - 1);
    }
}

/// Concatenating every chunk gives the whole message back.
pub proof fn lemma_chunks_concat(s: Seq<u8>, max: int)
    ensures
        spec_chunks(s, max).flatten() == s,
    decreases s.len(),
{
    if max < 1 || s.len() <= max {
        assert(spec_chunks(s, max) == seq![s]);
        assert(seq![s].flatten() =~= s) by {
            seq![s].lemma_flatten_one_element();
        }
    } else {
        let c0 = spec_cut(s, max);
        let c = if c0 < 1 {
            1
        } else if c0 > max {
            max
        } else {
            c0
        };
        lemma_cut_bounds(s, max);
        lemma_chunks_concat(s.skip(c), max);
        let chunks = seq![s.take(c)] + spec_chunks(s.skip(c), max);
        assert(chunks.drop_first() =~= spec_chunks(s.skip(c), max));
        assert(chunks.flatten() =~= chunks[0] + chunks.drop_first().flatten());
        assert(s.take(c) + s.skip(c) =~= s);
    }
}

proof fn lemma_cut_bounds(s: Seq<u8>, limit: int)
    requires
        0 <= limit,
    ensures
        0 <= spec_cut(s, limit),
        spec_cut(s, limit) <= limit,
    decreases limit,
{
    if limit > 0 {
        lemma_cut_bounds(s, limit - 1);
    }
}

/// Every chunk is at most `max` bytes long, and there is at least one.
pub proof fn lemma_chunks_sizes(s: Seq<u8>, max: int)
    requires
        1 <= max,
    ensures
        spec_chunks(s, max).len() >= 1,
        forall|k: int|
            0 <= k < spec_chunks(s, max).len() ==> #[trigger] spec_chunks(s, max)[k].len() <= max,
    decreases s.len(),
{
    if s.len() <= max {
    } else {
        let c0 = spec_cut(s, max);
        let c = if c0 < 1 {
            1
        } else if c0 > max {
            max
        } else {
            c0
        };
        lemma_cut_bounds(s, max);
        lemma_chunks_sizes(s.skip(c), max);
        assert(forall|k: int|
            1 <= k < spec_chunks(s, max).len() ==> spec_chunks(s, max)[k] == spec_chunks(
                s.skip(c),
                max,
            )[k - 1]);
    }
}

/// In well-formed text the cut lands at most three bytes back.
proof fn lemma_cut_near(s: Seq<u8>, max: int)
    requires
        wf_text(s),
        4 <= max < s.len(),
    ensures
        max - 3 <= spec_cut(s, max) <= max,
        !is_cont(s[spec_cut(s, max)]),
        spec_cut(s, max) >= 1,
{
    lemma_cut_bounds(s, max);
    if is_cont(s[max]) {
        if is_cont(s[max - 1]) {
            if is_cont(s[max - 2]) {
                assert(!is_cont(s[max - 3])) by {
                    assert(!(is_cont(s[max - 3]) && is_cont(s[max - 3 + 1]) && is_cont(
                        s[max - 3 + 2],
                    ) && is_cont(s[max - 3 + 3])));
                }
                lemma_cut_exact(s, max - 3, max);
            } else {
                lemma_cut_exact(s, max - 2, max);
            }
        } else {
            lemma_cut_exact(s, max - 1, max);
        }
    } else {
        lemma_cut_exact(s, max, max);
    }
}

/// Cutting well-formed text at a non-continuation byte leaves well-formed
/// text.
proof fn lemma_wf_suffix(s: Seq<u8>, c: int)
    requires
        wf_text(s),
        0 <= c <= s.len(),
        c == s.len() || !is_cont(s[c]),
    ensures
        wf_text(s.skip(c)),
{
    let t = s.skip(c);
    assert forall|i: int|
        0 <= i && i + 3 < t.len() implies !(is_cont(t[i]) && is_cont(#[trigger] t[i + 1]) && is_cont(
        t[i + 2],
    ) && is_cont(t[i + 3])) by {
        assert(t[i] == s[i + c]);
        assert(t[i + 1] == s[i + c + 1]);
        assert(t[i + 2] == s[i + c + 2]);
        assert(t[i + 3] == s[i + c + 3]);
        assert(!(is_cont(s[i + c]) && is_cont(s[i + c + 1]) && is_cont(s[i + c + 2]) && is_cont(
            s[i + c + 3],
        )));
    }
}

/// In well-formed text no chunk begins with a continuation byte: every
/// boundary the chunker makes lands on a codepoint boundary.
pub proof fn lemma_chunks_boundaries(s: Seq<u8>, max: int)
    requires
        wf_text(s),
        4 <= max,
    ensures
        forall|k: int|
            0 <= k < spec_chunks(s, max).len() ==> (#[trigger] spec_chunks(s, max)[k].len() > 0
                ==> !is_cont(spec_chunks(s, max)[k][0])),
    decreases s.len(),
{
    if s.len() <= max {
    } else {
        lemma_cut_near(s, max);
        let c = spec_cut(s, max);
        lemma_wf_suffix(s, c);
        lemma_chunks_boundaries(s.skip(c), max);
        assert(forall|k: int|
            1 <= k < spec_chunks(s, max).len() ==> spec_chunks(s, max)[k] == spec_chunks(
                s.skip(c),
                max,
            )[k - 1]);
        assert(spec_chunks(s, max)[0] == s.take(c));
        if s.take(c).len() > 0 {
            assert(s.take(c)[0] == s[0]);
        }
    }
}

/// Split a message into protocol-safe segments of at most `max_len` bytes,
/// each boundary moved off UTF-8 continuation bytes; at least one segment
/// comes out, even for an empty message.
pub fn chunk_message(line: &[u8], max_len: usize) -> (r: Vec<Vec<u8>>)
    requires
        4 <= max_len,
        wf_text(line@),
    ensures
        r.deep_view() == spec_chunks(line@, max_len as int),
{
    let n = line.len();
    let mut r: Vec<Vec<u8>> = Vec::new();
    let mut seg_start: usize = 0;
    proof {
        assert(line@.skip(0) =~= line@);
        assert(r.deep_view() =~= Seq::<Seq<u8>>::empty());
        assert(r.deep_view() + spec_chunks(line@, max_len as int) =~= spec_chunks(
            line@,
            max_len as int,
        ));
    }
    loop
        invariant
            0 <= seg_start <= n,
            n == line@.len(),
            4 <= max_len,
            wf_text(line@.skip(seg_start as int)),
            r.deep_view() + spec_chunks(line@.skip(seg_start as int), max_len as int)
                =~= spec_chunks(line@, max_len as int),
        decreases n - seg_start,
    {
        let ghost rest = line@.skip(seg_start as int);
        let ghost prev = r.deep_view();
        if n - seg_start <= max_len {
            let seg = crate::text::subrange_vec(line, seg_start, n);
            proof {
                assert(seg@ =~= rest);
                assert(spec_chunks(rest, max_len as int) == seq![rest]);
            }
            r.push(seg);
            proof {
                assert(r.deep_view() =~~= prev.push(rest));
                assert(prev.push(rest) =~= prev + seq![rest]);
                assert(r.deep_view() =~= spec_chunks(line@, max_len as int));
            }
            return r;
        }
        let mut pos: usize = seg_start + max_len;
        proof {
            lemma_cut_near(rest, max_len as int);
        }
        while is_cont_byte(line[pos])
            invariant
                seg_start + max_len - 3 <= pos <= seg_start + max_len,
                n == line@.len(),
                seg_start + max_len < n,
                seg_start <= n,
                4 <= max_len,
                rest == line@.skip(seg_start as int),
                spec_cut(rest, max_len as int) >= 1,
                max_len - 3 <= spec_cut(rest, max_len as int),
                !is_cont(rest[spec_cut(rest, max_len as int)]),
                forall|k: int| pos - seg_start < k <= max_len ==> is_cont(#[trigger] rest[k]),
                spec_cut(rest, max_len as int) <= pos - seg_start,
            decreases pos,
        {
            proof {
                assert(rest[pos - seg_start] == line@[pos as int]);
                assert(spec_cut(rest, max_len as int) < pos - seg_start);
            }
            pos -= 1;
        }
        proof {
            assert(rest[pos - seg_start] == line@[pos as int]);
            lemma_cut_exact(rest, pos - seg_start, max_len as int);
        }
        let seg = crate::text::subrange_vec(line, seg_start, pos);
        r.push(seg);
        proof {
            let c = pos - seg_start;
            assert(seg@ =~= rest.take(c));
            assert(r.deep_view() =~~= prev.push(rest.take(c)));
            assert(prev.push(rest.take(c)) =~= prev + seq![rest.take(c)]);
            assert(spec_chunks(rest, max_len as int) == seq![rest.take(c)] + spec_chunks(
                rest.skip(c),
                max_len as int,
            ));
            assert(rest.skip(c) =~= line@.skip(pos as int));
            lemma_wf_suffix(rest, c);
            assert(r.deep_view() + spec_chunks(line@.skip(pos as int), max_len as int)
                =~= spec_chunks(line@, max_len as int));
        }
        seg_start = pos;
    }
}

/// Every physical line fits the transport budget: a segment never exceeds
/// the byte budget for its target, and the emote framing is already paid
/// for inside that budget, so a framed line stays within
/// `463 - 8 - len(target)` bytes.
pub proof fn lemma_outbound_lines_fit(target: Seq<u8>, is_action: bool, line: Seq<u8>)
    requires
        target.len() <= 442,
    ensures
        forall|k: int|
            0 <= k < spec_outbound_lines(target, is_action, line).len()
                ==> #[trigger] spec_outbound_lines(target, is_action, line)[k].len() <= 463 - 8
                - target.len(),
{
    let max = spec_max_message_len(target, is_action);
    lemma_chunks_sizes(line, max);
    assert forall|k: int|
        0 <= k < spec_outbound_lines(target, is_action, line).len() implies #[trigger] spec_outbound_lines(
        target,
        is_action,
        line,
    )[k].len() <= 463 - 8 - target.len() by {
        assert(spec_chunks(line, max)[k].len() <= max);
        reveal_strlit("\x01ACTION ");
        reveal_strlit("\x01");
        assert(vstd::utf8::is_ascii_chars("\x01ACTION "@));
        assert(vstd::string::is_ascii("\x01ACTION "));
        assert(vstd::utf8::is_ascii_chars("\x01"@));
        assert(vstd::string::is_ascii("\x01"));
        assert("\x01ACTION ".spec_bytes().len() == 8);
        assert("\x01".spec_bytes().len() == 1);
    }
}

/// An empty message still goes out: it is exactly one empty segment.
pub proof fn lemma_chunks_empty(max: int)
    requires
        1 <= max,
    ensures
        spec_chunks(Seq::<u8>::empty(), max) == seq![Seq::<u8>::empty()],
{
}

/// The byte budget for one physical line to `target`: the transport's
/// 512-byte limit leaves, after protocol framing, `463 - 8 - len(target)`
/// bytes, and the emote wrapper costs 9 more.
pub open spec fn spec_max_message_len(target: Seq<u8>, is_action: bool) -> int {
    463 - 8 - target.len() - (if is_action {
        9int
    } else {
        0int
    })
}

/// The byte budget for one physical line to `target`.
pub fn max_message_len(target: &[u8], is_action: bool) -> (r: usize)
    requires
        target@.len() <= 442,
    ensures
        r == spec_max_message_len(target@, is_action),
        r >= 4,
{
    463 - 8 - target.len() - (if is_action {
        9
    } else {
        0
    })
}

/// A segment wrapped in the CTCP emote framing.
pub open spec fn spec_wrap_action(msg: Seq<u8>) -> Seq<u8> {
    "\x01ACTION ".spec_bytes() + msg + "\x01".spec_bytes()
}

/// Wrap a segment in the CTCP emote framing.
pub fn wrap_action(msg: &[u8]) -> (r: Vec<u8>)
    ensures
        r@ == spec_wrap_action(msg@),
{
    let mut r: Vec<u8> = Vec::new();
    r.extend_from_slice("\x01ACTION ".as_bytes());
    r.extend_from_slice(msg);
    r.extend_from_slice("\x01".as_bytes());
    r
}

/// The physical lines that carry one outgoing message to `target`: the
/// message's chunks under the target's byte budget, each wrapped in the
/// emote framing when the message is an action.
pub open spec fn spec_outbound_lines(target: Seq<u8>, is_action: bool, line: Seq<u8>) -> Seq<
    Seq<u8>,
> {
    let cs = spec_chunks(line, spec_max_message_len(target, is_action));
    Seq::new(
        cs.len(),
        |i: int|
            if is_action {
                spec_wrap_action(cs[i])
            } else {
                cs[i]
            },
    )
}

/// Split one outgoing message into the physical lines that carry it.
pub fn outbound_lines(target: &[u8], is_action: bool, line: &[u8]) -> (r: Vec<Vec<u8>>)
    requires
        target@.len() <= 442,
        wf_text(line@),
    ensures
        r.deep_view() == spec_outbound_lines(target@, is_action, line@),
{
    let max_len = max_message_len(target, is_action);
    let chunks = chunk_message(line, max_len);
    let ghost cview = spec_chunks(line@, spec_max_message_len(target@, is_action));
    let mut r: Vec<Vec<u8>> = Vec::new();
    let mut i: usize = 0;
    while i < chunks.len()
        invariant
            0 <= i <= chunks@.len(),
            cview == spec_chunks(line@, spec_max_message_len(target@, is_action)),
            target@.len() <= 442,
            chunks.deep_view() == cview,
            chunks.deep_view().len() == chunks@.len(),
            r.deep_view() =~= spec_outbound_lines(target@, is_action, line@).take(i as int),
        decreases chunks@.len() - i,
    {
        let ghost prev = r.deep_view();
        proof {
            assert(chunks.deep_view()[i as int] == chunks@[i as int]@);
        }
        if is_action {
            r.push(wrap_action(chunks[i].as_slice()));
        } else {
            r.push(crate::text::clone_bytes(&chunks[i]));
        }
        proof {
            let out = spec_outbound_lines(target@, is_action, line@);
            let cs = spec_chunks(line@, spec_max_message_len(target@, is_action));
            assert(cview == cs);
            assert(out.len() == cs.len());
            assert(i < cs.len());
            assert(out[i as int] == if is_action {
                spec_wrap_action(cs[i as int])
            } else {
                cs[i as int]
            });
            assert(r.deep_view() =~~= prev.push(out[i as int]));
            assert(r.deep_view() =~~= out.take(i as int + 1));
        }
        i += 1;
    }
    proof {
        let out = spec_outbound_lines(target@, is_action, line@);
        assert(out.take(out.len() as int) =~= out);
    }
    r
}

} // verus!
