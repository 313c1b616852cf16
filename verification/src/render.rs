//! Markdown rendering of a closed topic: minimal backtick code spans, HTML
//! escaping of the buffered IRC log, and the comment text itself.

use vstd::prelude::*;
use vstd::string::StrSliceExecFns;
use vstd::string::StringSliceAdditionalSpecFns;

use crate::state::{ChannelLineView, TopicData, TopicDataView};

verus! {

broadcast use vstd::string::group_string_axioms;

/// The backtick byte.
pub open spec fn tick() -> u8 {
    96
}

/// The length of the run of backticks beginning at `i`.
pub open spec fn run_len_at(s: Seq<u8>, i: int) -> nat
    decreases s.len() - i,
{
    if i < 0 || i >= s.len() || s[i] != tick() {
        0
    } else {
        1 + run_len_at(s, i + 1)
    }
}

/// The longest run of backticks beginning at or after `i`.
pub open spec fn max_run_from(s: Seq<u8>, i: int) -> nat
    decreases s.len() - i,
{
    if i < 0 || i >= s.len() {
        0
    } else if run_len_at(s, i) >= max_run_from(s, i + 1) {
        run_len_at(s, i)
    } else {
        max_run_from(s, i + 1)
    }
}

/// The longest run of backticks in `s`.
pub open spec fn max_tick_run(s: Seq<u8>) -> nat {
    max_run_from(s, 0)
}

/// A run of `n` backticks.
pub open spec fn tick_seq(n: nat) -> Seq<u8> {
    Seq::new(n, |i: int| tick())
}

/// What `escape_as_code_span` returns: the text wrapped in one more
/// backtick than its longest backtick run, with a space just inside the
/// delimiter on any side where the text itself starts or ends with a
/// backtick.
pub open spec fn spec_code_span(s: Seq<u8>) -> Seq<u8> {
    let n = max_tick_run(s) + 1;
    let lead: Seq<u8> = if s.len() > 0 && s[0] == tick() {
        " ".spec_bytes()
    } else {
        Seq::empty()
    };
    let trail: Seq<u8> = if s.len() > 0 && s[s.len() - 1] == tick() {
        " ".spec_bytes()
    } else {
        Seq::empty()
    };
    tick_seq(n) + lead + s + trail + tick_seq(n)
}

/// A fully backticked range `[k, j)` with a non-backtick (or the end) at
/// `j` pins the run length at every position inside it.
proof fn lemma_run_len_exact(s: Seq<u8>, k: int, j: int)
    requires
        0 <= k <= j <= s.len(),
        forall|m: int| k <= m < j ==> s[m] == tick(),
        j == s.len() || s[j] != tick(),
    ensures
        run_len_at(s, k) == j - k,
    decreases j - k,
{
    if k < j {
        lemma_run_len_exact(s, k + 1, j);
    }
}

/// Skipping over one whole backtick run: the maximum from its start is the
/// larger of its own length and the maximum from its end.
proof fn lemma_max_run_skip(s: Seq<u8>, i: int, j: int)
    requires
        0 <= i <= j <= s.len(),
        forall|m: int| i <= m < j ==> s[m] == tick(),
        j == s.len() || s[j] != tick(),
    ensures
        max_run_from(s, i) == if j - i >= max_run_from(s, j) {
            (j - i) as nat
        } else {
            max_run_from(s, j)
        },
    decreases j - i,
{
    if i == j {
    } else {
        lemma_max_run_skip(s, i + 1, j);
        lemma_run_len_exact(s, i, j);
    }
}

/// Any backtick run in `s` is no longer than the longest one.
pub proof fn lemma_run_le_max(s: Seq<u8>, i: int, n: int)
    requires
        0 <= i,
        0 <= n,
        i + n <= s.len(),
        forall|m: int| i <= m < i + n ==> s[m] == tick(),
    ensures
        n <= max_tick_run(s),
{
    if n > 0 {
        lemma_max_run_step(s, i, n);
    }
}

/// A fully backticked range gives a lower bound for the run length at its
/// start.
proof fn lemma_run_prefix(s: Seq<u8>, k: int, n: int)
    requires
        0 <= k,
        0 <= n,
        k + n <= s.len(),
        forall|m: int| k <= m < k + n ==> s[m] == tick(),
    ensures
        run_len_at(s, k) >= n,
    decreases n,
{
    if n > 0 {
        lemma_run_prefix(s, k + 1, n - 1);
    }
}

/// The maximum from any position bounds every run at or after it.
proof fn lemma_max_run_step(s: Seq<u8>, i: int, n: int)
    requires
        0 <= i,
        0 < n,
        i + n <= s.len(),
        forall|m: int| i <= m < i + n ==> s[m] == tick(),
    ensures
        n <= max_run_from(s, 0),
    decreases i,
{
    lemma_run_prefix(s, i, n);
    lemma_max_run_ge(s, 0, i);
}

/// `max_run_from` at an earlier position is at least the run length at any
/// later position.
proof fn lemma_max_run_ge(s: Seq<u8>, i: int, k: int)
    requires
        0 <= i <= k < s.len(),
    ensures
        max_run_from(s, i) >= run_len_at(s, k),
    decreases k - i,
{
    if i < k {
        lemma_max_run_ge(s, i + 1, k);
    }
}

/// The delimiter `escape_as_code_span` picks is strictly longer than every
/// backtick run of its input: that is what makes the code span well formed.
pub proof fn lemma_code_span_delimiter_exceeds_runs(s: Seq<u8>, i: int, n: int)
    requires
        0 <= i,
        0 <= n,
        i + n <= s.len(),
        forall|m: int| i <= m < i + n ==> s[m] == tick(),
    ensures
        max_tick_run(s) + 1 > n,
{
    lemma_run_le_max(s, i, n);
}

/// Applying the code-span escape twice picks, the second time, a delimiter
/// at least as long as the first: the first result begins with a run of
/// `max_tick_run(s) + 1` backticks, so the second maximum is at least that.
pub proof fn lemma_code_span_twice_grows(s: Seq<u8>)
    ensures
        max_tick_run(spec_code_span(s)) + 1 > max_tick_run(s) + 1,
{
    let out = spec_code_span(s);
    let n = (max_tick_run(s) + 1) as int;
    assert(forall|m: int| 0 <= m < n ==> out[m] == tick());
    lemma_run_le_max(out, 0, n);
}

fn is_tick(b: u8) -> (r: bool)
    ensures
        r == (b == tick()),
{
    b == 96
}

/// The length of the longest run of backticks in `s`.
fn max_tick_run_exec(s: &[u8]) -> (r: usize)
    ensures
        r == max_tick_run(s@),
{
    let n = s.len();
    let mut i: usize = 0;
    let mut mx: usize = 0;
    while i < n
        invariant
            0 <= i <= n,
            n == s@.len(),
            mx <= i,
            max_tick_run(s@) == if mx >= max_run_from(s@, i as int) {
                mx as nat
            } else {
                max_run_from(s@, i as int)
            },
        decreases n - i,
    {
        if is_tick(s[i]) {
            let mut j: usize = i;
            while j < n && s[j] == 96
                invariant
                    i <= j <= n,
                    n == s@.len(),
                    forall|m: int| i <= m < j ==> s@[m] == tick(),
                decreases n - j,
            {
                j += 1;
            }
            proof {
                lemma_max_run_skip(s@, i as int, j as int);
            }
            let run = j - i;
            if run > mx {
                mx = run;
            }
            i = j;
        } else {
            proof {
                assert(run_len_at(s@, i as int) == 0);
            }
            i += 1;
        }
    }
    mx
}

/// Wrap `s` in a minimal backtick code span: one more backtick than the
/// longest run inside `s`, with a space just inside the delimiter where `s`
/// itself starts or ends with a backtick.
pub fn escape_as_code_span(s: &[u8]) -> (r: Vec<u8>)
    requires
        s@.len() < usize::MAX,
    ensures
        r@ == spec_code_span(s@),
{
    let mx = max_tick_run_exec(s);
    proof {
        lemma_max_run_all(s@);
    }
    let n = mx + 1;
    let mut r: Vec<u8> = Vec::new();
    push_ticks(&mut r, n);
    if s.len() > 0 && s[0] == 96 {
        r.extend_from_slice(" ".as_bytes());
    }
    r.extend_from_slice(s);
    if s.len() > 0 && s[s.len() - 1] == 96 {
        r.extend_from_slice(" ".as_bytes());
    }
    push_ticks(&mut r, n);
    proof {
        assert(r@ =~= spec_code_span(s@));
    }
    r
}

/// The longest run is never longer than the text.
proof fn lemma_max_run_all(s: Seq<u8>)
    ensures
        max_tick_run(s) <= s.len(),
{
    lemma_max_run_bound(s, 0);
}

proof fn lemma_max_run_bound(s: Seq<u8>, i: int)
    requires
        0 <= i,
    ensures
        max_run_from(s, i) <= s.len() - i || max_run_from(s, i) == 0,
    decreases s.len() - i,
{
    if i < s.len() {
        lemma_max_run_bound(s, i + 1);
        lemma_run_bound(s, i);
    }
}

proof fn lemma_run_bound(s: Seq<u8>, i: int)
    requires
        0 <= i,
    ensures
        run_len_at(s, i) <= s.len() - i || run_len_at(s, i) == 0,
    decreases s.len() - i,
{
    if i < s.len() && s[i] == tick() {
        lemma_run_bound(s, i + 1);
    }
}

/// What the autolink-defeating pass returns: wherever a whitespace byte is
/// followed by `#` and a digit, a zero-width no-break space is inserted
/// between the `#` and the digit, so the rendered log cannot turn `#123`
/// into an issue link; matches do not overlap.
pub open spec fn spec_defeat_autolink(s: Seq<u8>) -> Seq<u8>
    decreases s.len(),
{
    if s.len() >= 3 && crate::text::is_space(s[0]) && s[1] == 35 && crate::urls::is_digit(s[2]) {
        seq![s[0], 35u8] + "\u{feff}".spec_bytes() + seq![s[2]] + spec_defeat_autolink(s.skip(3))
    } else if s.len() > 0 {
        seq![s[0]] + spec_defeat_autolink(s.skip(1))
    } else {
        Seq::empty()
    }
}

/// What the HTML escaping pass returns: `&` becomes `&amp;` and `<`
/// becomes `&lt;`.
pub open spec fn spec_escape_amp_lt(s: Seq<u8>) -> Seq<u8>
    decreases s.len(),
{
    if s.len() == 0 {
        Seq::empty()
    } else {
        (if s[0] == 38 {
            "&amp;".spec_bytes()
        } else if s[0] == 60 {
            "&lt;".spec_bytes()
        } else {
            seq![s[0]]
        }) + spec_escape_amp_lt(s.skip(1))
    }
}

/// What `escape_for_html_block` returns: the autolink-defeating insertion,
/// then the HTML escaping.
pub open spec fn spec_escape_for_html_block(s: Seq<u8>) -> Seq<u8> {
    spec_escape_amp_lt(spec_defeat_autolink(s))
}

fn defeat_autolink(s: &[u8]) -> (r: Vec<u8>)
    ensures
        r@ == spec_defeat_autolink(s@),
{
    let n = s.len();
    let feff = "\u{feff}".as_bytes();
    let mut r: Vec<u8> = Vec::new();
    let mut i: usize = 0;
    proof {
        assert(s@.skip(0) =~= s@);
    }
    while i < n
        invariant
            0 <= i <= n,
            n == s@.len(),
            feff@ == "\u{feff}".spec_bytes(),
            spec_defeat_autolink(s@) == r@ + spec_defeat_autolink(s@.skip(i as int)),
        decreases n - i,
    {
        let ghost rest = s@.skip(i as int);
        proof {
            assert(rest[0] == s@[i as int]);
        }
        if n - i >= 3 && is_space_b(s[i]) && s[i + 1] == 35 && is_digit_b(s[i + 2]) {
            proof {
                assert(rest[1] == s@[i as int + 1]);
                assert(rest[2] == s@[i as int + 2]);
                assert(rest.skip(3) =~= s@.skip(i as int + 3));
            }
            r.push(s[i]);
            r.push(35);
            r.extend_from_slice(feff);
            r.push(s[i + 2]);
            i += 3;
        } else {
            proof {
                if rest.len() >= 3 {
                    assert(rest[1] == s@[i as int + 1]);
                    assert(rest[2] == s@[i as int + 2]);
                }
                assert(rest.skip(1) =~= s@.skip(i as int + 1));
            }
            r.push(s[i]);
            i += 1;
        }
        proof {
            assert(spec_defeat_autolink(s@) =~= r@ + spec_defeat_autolink(s@.skip(i as int)));
        }
    }
    proof {
        assert(s@.skip(n as int) =~= Seq::<u8>::empty());
        assert(spec_defeat_autolink(s@) =~= r@);
    }
    r
}

fn is_space_b(b: u8) -> (r: bool)
    ensures
        r == crate::text::is_space(b),
{
    b == 32 || b == 9 || b == 10 || b == 11 || b == 12 || b == 13
}

fn is_digit_b(b: u8) -> (r: bool)
    ensures
        r == crate::urls::is_digit(b),
{
    48 <= b && b <= 57
}

fn escape_amp_lt(s: &[u8]) -> (r: Vec<u8>)
    ensures
        r@ == spec_escape_amp_lt(s@),
{
    let n = s.len();
    let mut r: Vec<u8> = Vec::new();
    let mut i: usize = 0;
    proof {
        assert(s@.skip(0) =~= s@);
    }
    while i < n
        invariant
            0 <= i <= n,
            n == s@.len(),
            spec_escape_amp_lt(s@) == r@ + spec_escape_amp_lt(s@.skip(i as int)),
        decreases n - i,
    {
        let ghost rest = s@.skip(i as int);
        proof {
            assert(rest[0] == s@[i as int]);
            assert(rest.skip(1) =~= s@.skip(i as int + 1));
        }
        let b = s[i];
        if b == 38 {
            r.extend_from_slice("&amp;".as_bytes());
        } else if b == 60 {
            r.extend_from_slice("&lt;".as_bytes());
        } else {
            r.push(b);
        }
        i += 1;
        proof {
            assert(spec_escape_amp_lt(s@) =~= r@ + spec_escape_amp_lt(s@.skip(i as int)));
        }
    }
    proof {
        assert(s@.skip(n as int) =~= Seq::<u8>::empty());
        assert(spec_escape_amp_lt(s@) =~= r@);
    }
    r
}

/// Escape one rendered log line for the HTML `<details>` block: insert a
/// zero-width no-break space between whitespace-`#` and a digit so the
/// comment does not auto-link `#123`-style tokens, then escape `&` and `<`.
pub fn escape_for_html_block(s: &[u8]) -> (r: Vec<u8>)
    ensures
        r@ == spec_escape_for_html_block(s@),
{
    let inserted = defeat_autolink(s);
    escape_amp_lt(inserted.as_slice())
}

/// How one buffered line reads in the log: `* nick text` for an emote and
/// `<nick> text` otherwise.
pub open spec fn spec_render_line(l: ChannelLineView) -> Seq<u8> {
    if l.is_action {
        "* ".spec_bytes() + l.source + " ".spec_bytes() + l.message
    } else {
        "<".spec_bytes() + l.source + "> ".spec_bytes() + l.message
    }
}

/// Render one buffered line of the log.
pub fn render_line(l: &crate::state::ChannelLine) -> (r: Vec<u8>)
    ensures
        r@ == spec_render_line(l@),
{
    let mut r: Vec<u8> = Vec::new();
    if l.is_action {
        r.extend_from_slice("* ".as_bytes());
        r.extend_from_slice(l.source.as_slice());
        r.extend_from_slice(" ".as_bytes());
    } else {
        r.extend_from_slice("<".as_bytes());
        r.extend_from_slice(l.source.as_slice());
        r.extend_from_slice("> ".as_bytes());
    }
    r.extend_from_slice(l.message.as_slice());
    r
}

/// The bullet list of resolutions, one `* ` line per resolution, each in a
/// minimal code span.
pub open spec fn spec_render_resolutions(rs: Seq<Seq<u8>>) -> Seq<u8>
    decreases rs.len(),
{
    if rs.len() == 0 {
        Seq::empty()
    } else {
        spec_render_resolutions(rs.drop_last()) + "* ".spec_bytes() + spec_code_span(rs.last())
            + "\n".spec_bytes()
    }
}

/// The log block body: each buffered line rendered, HTML-escaped, and
/// closed with `<br>` and a line break.
pub open spec fn spec_render_log(ls: Seq<ChannelLineView>) -> Seq<u8>
    decreases ls.len(),
{
    if ls.len() == 0 {
        Seq::empty()
    } else {
        spec_render_log(ls.drop_last()) + spec_escape_for_html_block(spec_render_line(ls.last()))
            + "<br>\n".spec_bytes()
    }
}

/// The whole Markdown comment for a closed topic: the header naming the
/// group and the topic, the agreement list when there are resolutions, and,
/// unless the channel is resolutions-only, the collapsible full IRC log.
pub open spec fn spec_render_topic(t: TopicDataView) -> Seq<u8> {
    "The ".spec_bytes() + t.group + " just discussed ".spec_bytes() + (if t.topic.len() == 0 {
        "this issue".spec_bytes()
    } else {
        spec_code_span(t.topic)
    }) + (if t.resolutions.len() == 0 {
        ".\n".spec_bytes()
    } else {
        ", and agreed to the following:\n\n".spec_bytes() + spec_render_resolutions(t.resolutions)
    }) + (if !t.publish_resolutions_only {
        "\n<details><summary>The full IRC log of that discussion</summary>\n".spec_bytes()
            + spec_render_log(t.lines) + "</details>\n".spec_bytes()
    } else {
        Seq::<u8>::empty()
    })
}

/// Render the Markdown comment for a closed topic.
#[verifier::rlimit(60)]
pub fn render_topic(t: &TopicData) -> (r: Vec<u8>)
    requires
        t@.topic.len() < usize::MAX,
        forall|i: int| 0 <= i < t@.resolutions.len() ==> #[trigger] t@.resolutions[i].len()
            < usize::MAX,
    ensures
        r@ == spec_render_topic(t@),
{
    let mut r: Vec<u8> = Vec::new();
    r.extend_from_slice("The ".as_bytes());
    r.extend_from_slice(t.group.as_slice());
    r.extend_from_slice(" just discussed ".as_bytes());
    if t.topic.len() == 0 {
        r.extend_from_slice("this issue".as_bytes());
    } else {
        let span = escape_as_code_span(t.topic.as_slice());
        r.extend_from_slice(span.as_slice());
    }
    if t.resolutions.len() == 0 {
        r.extend_from_slice(".\n".as_bytes());
    } else {
        r.extend_from_slice(", and agreed to the following:\n\n".as_bytes());
        let ghost header = r@;
        let mut i: usize = 0;
        while i < t.resolutions.len()
            invariant
                0 <= i <= t.resolutions@.len(),
                t@.resolutions.len() == t.resolutions@.len(),
                forall|k: int| 0 <= k < t@.resolutions.len() ==> #[trigger] t@.resolutions[k].len()
                    < usize::MAX,
                t@.resolutions == t.resolutions.deep_view(),
                r@ == header + spec_render_resolutions(t@.resolutions.take(i as int)),
            decreases t.resolutions@.len() - i,
        {
            proof {
                assert(t@.resolutions[i as int] == t.resolutions@[i as int]@);
                assert(t@.resolutions.take(i as int + 1).drop_last() =~= t@.resolutions.take(
                    i as int,
                ));
                assert(t@.resolutions.take(i as int + 1).last() == t@.resolutions[i as int]);
            }
            r.extend_from_slice("* ".as_bytes());
            let span = escape_as_code_span(t.resolutions[i].as_slice());
            r.extend_from_slice(span.as_slice());
            r.extend_from_slice("\n".as_bytes());
            i += 1;
        }
        proof {
            assert(t@.resolutions.take(t@.resolutions.len() as int) =~= t@.resolutions);
        }
    }
    if !t.publish_resolutions_only {
        r.extend_from_slice(
            "\n<details><summary>The full IRC log of that discussion</summary>\n".as_bytes(),
        );
        let ghost header = r@;
        let mut i: usize = 0;
        while i < t.lines.len()
            invariant
                0 <= i <= t.lines@.len(),
                t@.lines.len() == t.lines@.len(),
                t@.lines == Seq::new(t.lines@.len(), |k: int| t.lines@[k]@),
                r@ == header + spec_render_log(t@.lines.take(i as int)),
            decreases t.lines@.len() - i,
        {
            proof {
                assert(t@.lines[i as int] == t.lines@[i as int]@);
                assert(t@.lines.take(i as int + 1).drop_last() =~= t@.lines.take(i as int));
                assert(t@.lines.take(i as int + 1).last() == t@.lines[i as int]);
            }
            let rendered = render_line(&t.lines[i]);
            let escaped = escape_for_html_block(rendered.as_slice());
            r.extend_from_slice(escaped.as_slice());
            r.extend_from_slice("<br>\n".as_bytes());
            i += 1;
        }
        proof {
            assert(t@.lines.take(t@.lines.len() as int) =~= t@.lines);
        }
        r.extend_from_slice("</details>\n".as_bytes());
    }
    proof {
        assert(r@ =~= spec_render_topic(t@));
    }
    r
}

/// Append `n` backticks.
fn push_ticks(r: &mut Vec<u8>, n: usize)
    ensures
        final(r)@ == old(r)@ + tick_seq(n as nat),
{
    let mut k: usize = 0;
    while k < n
        invariant
            0 <= k <= n,
            r@ == old(r)@ + tick_seq(k as nat),
        decreases n - k,
    {
        r.push(96);
        proof {
            assert(old(r)@ + tick_seq(k as nat + 1) =~= (old(r)@ + tick_seq(k as nat)).push(96u8));
        }
        k += 1;
    }
}

} // verus!
