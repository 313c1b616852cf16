//! GitHub issue/PR URL parsing and validation.
//!
//! The URL grammar is `https://github.com/{owner}/{repo}/(issues|pull)/{number}`
//! with, where a directive allows it, an optional `#fragment`.  Owner and
//! repo are the (possibly empty) runs of non-`/` bytes; the number is a
//! non-empty run of ASCII digits.

use vstd::prelude::*;
use vstd::string::StrSliceExecFns;
use vstd::string::StringSliceAdditionalSpecFns;

verus! {

broadcast use vstd::string::group_string_axioms;

/// Whether a byte is an ASCII decimal digit.
pub open spec fn is_digit(b: u8) -> bool {
    48 <= b && b <= 57
}

fn is_digit_byte(b: u8) -> (r: bool)
    ensures
        r == is_digit(b),
{
    48 <= b && b <= 57
}

/// The position of the first occurrence of byte `b` in `s` at or after `i`.
pub open spec fn spec_find_byte_from(s: Seq<u8>, b: u8, i: int) -> Option<int>
    decreases s.len() - i,
{
    if i < 0 || i >= s.len() {
        None
    } else if s[i] == b {
        Some(i)
    } else {
        spec_find_byte_from(s, b, i + 1)
    }
}

/// Position of the first occurrence of byte `b` in `s` at or after `from`.
pub fn find_byte(s: &[u8], b: u8, from: usize) -> (r: Option<usize>)
    requires
        from <= s@.len(),
    ensures
        match r {
            Some(i) => from <= i < s@.len() && s@[i as int] == b && spec_find_byte_from(
                s@,
                b,
                from as int,
            ) == Some(i as int),
            None => spec_find_byte_from(s@, b, from as int) is None,
        },
{
    let mut i: usize = from;
    while i < s.len()
        invariant
            from <= i <= s@.len(),
            spec_find_byte_from(s@, b, from as int) == spec_find_byte_from(s@, b, i as int),
        decreases s.len() - i,
    {
        if s[i] == b {
            return Some(i);
        }
        i += 1;
    }
    None
}

/// Where a run of occurrences of byte `b` at position `k` with `i <= k` and
/// nothing equal to `b` in between pins the search down.
pub proof fn lemma_find_byte_from_exact(s: Seq<u8>, b: u8, i: int, k: int)
    requires
        0 <= i <= k < s.len(),
        s[k] == b,
        forall|j: int| i <= j < k ==> s[j] != b,
    ensures
        spec_find_byte_from(s, b, i) == Some(k),
    decreases k - i,
{
    if i < k {
        lemma_find_byte_from_exact(s, b, i + 1, k);
    }
}

/// The end of the run of ASCII digits beginning at `i`.
pub open spec fn spec_digit_run_end(s: Seq<u8>, i: int) -> int
    decreases s.len() - i,
{
    if 0 <= i && i < s.len() && is_digit(s[i]) {
        spec_digit_run_end(s, i + 1)
    } else {
        i
    }
}

/// End of the run of ASCII digits beginning at `from`.
pub fn digit_run_end(s: &[u8], from: usize) -> (r: usize)
    requires
        from <= s@.len(),
    ensures
        r == spec_digit_run_end(s@, from as int),
        from <= r <= s@.len(),
{
    let mut i: usize = from;
    while i < s.len() && is_digit_byte(s[i])
        invariant
            from <= i <= s@.len(),
            spec_digit_run_end(s@, from as int) == spec_digit_run_end(s@, i as int),
        decreases s.len() - i,
    {
        i += 1;
    }
    i
}

/// The numeric value of a sequence of ASCII digits.
pub open spec fn spec_digits_val(ds: Seq<u8>) -> nat
    decreases ds.len(),
{
    if ds.len() == 0 {
        0
    } else {
        spec_digits_val(ds.drop_last()) * 10 + (if ds.last() >= 48 {
            (ds.last() - 48) as nat
        } else {
            0
        })
    }
}

proof fn lemma_digits_val_prefix(ds: Seq<u8>, m: int)
    requires
        0 <= m <= ds.len(),
    ensures
        spec_digits_val(ds.take(m)) <= spec_digits_val(ds),
    decreases ds.len() - m,
{
    if m < ds.len() {
        lemma_digits_val_prefix(ds, m + 1);
        assert(ds.take(m + 1).drop_last() =~= ds.take(m));
        assert(spec_digits_val(ds.take(m)) <= spec_digits_val(ds.take(m + 1)));
    } else {
        assert(ds.take(m) =~= ds);
    }
}

/// The value of the digit run `s[from..to]`, when it fits in a `u64`.
pub fn parse_digits(s: &[u8], from: usize, to: usize) -> (r: Option<u64>)
    requires
        0 <= from <= to <= s@.len(),
    ensures
        match r {
            Some(v) => v == spec_digits_val(s@.subrange(from as int, to as int)),
            None => spec_digits_val(s@.subrange(from as int, to as int)) > u64::MAX,
        },
{
    let ghost whole = s@.subrange(from as int, to as int);
    let mut val: u64 = 0;
    let mut i: usize = from;
    while i < to
        invariant
            from <= i <= to <= s@.len(),
            whole == s@.subrange(from as int, to as int),
            val == spec_digits_val(whole.take(i - from)),
        decreases to - i,
    {
        let d = s[i];
        let dv: u64 = if d >= 48 {
            (d - 48) as u64
        } else {
            0
        };
        proof {
            assert(whole.take(i + 1 - from).drop_last() =~= whole.take(i - from));
            assert(whole.take(i + 1 - from).last() == s@[i as int]);
        }
        if val > (u64::MAX - dv) / 10 {
            proof {
                lemma_digits_val_prefix(whole, i + 1 - from);
                assert(whole.take(whole.len() as int) =~= whole);
            }
            return None;
        }
        val = val * 10 + dv;
        i += 1;
    }
    proof {
        assert(whole.take(to - from) =~= whole);
    }
    Some(val)
}

/// The parts of a URL that matches the core GitHub issue/PR pattern.
#[verifier::ext_equal]
pub struct UrlPartsView {
    /// The owner segment (possibly empty, any bytes but `/`).
    pub owner: Seq<u8>,
    /// The repo segment (possibly empty, any bytes but `/`).
    pub repo: Seq<u8>,
    /// Whether the URL names a pull request rather than an issue.
    pub is_pull: bool,
    /// The digit run that gives the issue or PR number.
    pub digits: Seq<u8>,
    /// The position just past the digit run: the end of the core match.
    pub core_end: int,
}

/// The kind and number part of the core pattern, after the second `/`.
pub open spec fn spec_url_tail(s: Seq<u8>, c: int, i1: int, i2: int) -> Option<UrlPartsView> {
    let p = "https://github.com/".spec_bytes();
    if i2 + 8 <= s.len() && s.subrange(i2 + 1, i2 + 7) == "issues".spec_bytes() && s[i2 + 7] == 47 {
        spec_url_number(s, c, i1, i2, false, i2 + 8)
    } else if i2 + 6 <= s.len() && s.subrange(i2 + 1, i2 + 5) == "pull".spec_bytes() && s[i2 + 5]
        == 47 {
        spec_url_number(s, c, i1, i2, true, i2 + 6)
    } else {
        None
    }
}

/// The number part of the core pattern: a non-empty digit run at `d0`.
pub open spec fn spec_url_number(s: Seq<u8>, c: int, i1: int, i2: int, is_pull: bool, d0: int) -> Option<
    UrlPartsView,
> {
    let p = "https://github.com/".spec_bytes();
    let d1 = spec_digit_run_end(s, d0);
    if d1 > d0 {
        Some(
            UrlPartsView {
                owner: s.subrange(c + p.len() as int, i1),
                repo: s.subrange(i1 + 1, i2),
                is_pull: is_pull,
                digits: s.subrange(d0, d1),
                core_end: d1,
            },
        )
    } else {
        None
    }
}

/// The core GitHub issue/PR pattern matched at position `c` of `s`:
/// `https://github.com/` then the owner up to the next `/`, the repo up to
/// the `/` after that, a literal `issues/` or `pull/`, and a non-empty digit
/// run.  Nothing is required of what follows the digits.
pub open spec fn spec_url_core_at(s: Seq<u8>, c: int) -> Option<UrlPartsView> {
    let p = "https://github.com/".spec_bytes();
    if !(0 <= c && c + p.len() <= s.len() && s.subrange(c, c + p.len() as int) == p) {
        None
    } else {
        match spec_find_byte_from(s, 47u8, c + p.len() as int) {
            None => None,
            Some(i1) => match spec_find_byte_from(s, 47u8, i1 + 1) {
                None => None,
                Some(i2) => spec_url_tail(s, c, i1, i2),
            },
        }
    }
}

/// Whether the bytes `pat` stand at position `c` of `s`.
pub fn match_at(s: &[u8], c: usize, pat: &[u8]) -> (r: bool)
    requires
        c + pat@.len() <= s@.len(),
    ensures
        r == (s@.subrange(c as int, c as int + pat@.len() as int) == pat@),
{
    let n = s.len();
    let mut i: usize = 0;
    while i < pat.len()
        invariant
            0 <= i <= pat@.len(),
            c + pat@.len() <= s@.len(),
            s@.len() == n,
            forall|j: int| 0 <= j < i ==> s@[c + j] == pat@[j],
        decreases pat.len() - i,
    {
        if s[c + i] != pat[i] {
            assert(s@.subrange(c as int, c as int + pat@.len() as int)[i as int] != pat@[i as int]);
            return false;
        }
        i += 1;
    }
    assert(s@.subrange(c as int, c as int + pat@.len() as int) =~= pat@);
    true
}

/// The parts of a URL whose core pattern matched, as byte offsets and
/// copied-out segments.
pub struct UrlCore {
    /// The owner segment.
    pub owner: Vec<u8>,
    /// The repo segment.
    pub repo: Vec<u8>,
    /// Whether the URL names a pull request.
    pub is_pull: bool,
    /// Where the digit run starts.
    pub number_start: usize,
    /// The position just past the digit run.
    pub core_end: usize,
}

/// Parse the core GitHub issue/PR pattern at position `c` of `s`.
pub fn parse_url_core(s: &[u8], c: usize) -> (r: Option<UrlCore>)
    requires
        c <= s@.len(),
    ensures
        match r {
            Some(pc) => {
                &&& c <= pc.number_start <= pc.core_end <= s@.len()
                &&& spec_url_core_at(s@, c as int) == Some(
                    UrlPartsView {
                        owner: pc.owner@,
                        repo: pc.repo@,
                        is_pull: pc.is_pull,
                        digits: s@.subrange(pc.number_start as int, pc.core_end as int),
                        core_end: pc.core_end as int,
                    },
                )
            },
            None => spec_url_core_at(s@, c as int) is None,
        },
{
    let p = "https://github.com/".as_bytes();
    proof {
        reveal_strlit("https://github.com/");
        assert(vstd::utf8::is_ascii_chars("https://github.com/"@));
        assert(vstd::string::is_ascii("https://github.com/"));
        assert(p@.len() == 19);
    }
    if s.len() - c < p.len() {
        return None;
    }
    if !match_at(s, c, p) {
        return None;
    }
    let after_prefix = c + p.len();
    let i1 = match find_byte(s, 47, after_prefix) {
        None => {
            return None;
        },
        Some(i1) => i1,
    };
    let i2 = match find_byte(s, 47, i1 + 1) {
        None => {
            return None;
        },
        Some(i2) => i2,
    };
    let issues = "issues".as_bytes();
    let pull = "pull".as_bytes();
    proof {
        reveal_strlit("issues");
        assert(vstd::utf8::is_ascii_chars("issues"@));
        assert(vstd::string::is_ascii("issues"));
        assert(issues@.len() == 6);
        reveal_strlit("pull");
        assert(vstd::utf8::is_ascii_chars("pull"@));
        assert(vstd::string::is_ascii("pull"));
        assert(pull@.len() == 4);
    }
    let d0: usize;
    let is_pull: bool;
    if s.len() - (i2 + 1) >= 7 && match_at(s, i2 + 1, issues) && s[i2 + 7] == 47 {
        d0 = i2 + 8;
        is_pull = false;
    } else if s.len() - (i2 + 1) >= 5 && match_at(s, i2 + 1, pull) && s[i2 + 5] == 47 {
        d0 = i2 + 6;
        is_pull = true;
    } else {
        return None;
    }
    let d1 = digit_run_end(s, d0);
    if d1 == d0 {
        return None;
    }
    let owner = crate::text::subrange_vec(s, after_prefix, i1);
    let repo = crate::text::subrange_vec(s, i1 + 1, i2);
    Some(
        UrlCore {
            owner: owner,
            repo: repo,
            is_pull: is_pull,
            number_start: d0,
            core_end: d1,
        },
    )
}

/// Where a byte search fails, the byte occurs nowhere at or after `i`.
pub proof fn lemma_find_byte_none(s: Seq<u8>, b: u8, i: int)
    requires
        0 <= i,
        spec_find_byte_from(s, b, i) is None,
    ensures
        forall|j: int| i <= j < s.len() ==> s[j] != b,
    decreases s.len() - i,
{
    if 0 <= i && i < s.len() {
        lemma_find_byte_none(s, b, i + 1);
    }
}

/// The whole of `s` matching the core pattern, with nothing after the
/// number.  This is the grammar of a stored association URL.
pub open spec fn spec_whole_url(s: Seq<u8>) -> Option<UrlPartsView> {
    match spec_url_core_at(s, 0) {
        None => None,
        Some(p) => if p.core_end == s.len() {
            Some(p)
        } else {
            None
        },
    }
}

/// The whole of `s` matching the core pattern followed by an optional
/// `#fragment` holding no space.  This is the grammar a directive accepts.
pub open spec fn spec_directive_url(s: Seq<u8>) -> Option<UrlPartsView> {
    match spec_url_core_at(s, 0) {
        None => None,
        Some(p) => if p.core_end == s.len() || (s[p.core_end] == 35 && (forall|j: int|
            p.core_end < j < s.len() ==> s[j] != 32)) {
            Some(p)
        } else {
            None
        },
    }
}

/// A GitHub issue or pull-request URL, broken into its parts.
pub struct GithubURL {
    /// The whole URL, of which the below are parts.
    pub url: Vec<u8>,
    /// The owner of the repository.
    pub owner: Vec<u8>,
    /// The repository name.
    pub repo: Vec<u8>,
    /// The issue or pull-request number.
    pub number: u64,
}

impl GithubURL {
    /// Parse a whole URL of the form
    /// `https://github.com/{owner}/{repo}/(issues|pull)/{number}`, with
    /// nothing after the number and the number within `u64` range.
    pub fn from_string(s: &[u8]) -> (r: Option<GithubURL>)
        ensures
            match r {
                Some(g) => {
                    &&& spec_whole_url(s@) is Some
                    &&& g.url@ == s@
                    &&& g.owner@ == spec_whole_url(s@)->Some_0.owner
                    &&& g.repo@ == spec_whole_url(s@)->Some_0.repo
                    &&& g.number == spec_digits_val(spec_whole_url(s@)->Some_0.digits)
                },
                None => spec_whole_url(s@) is None || spec_digits_val(
                    spec_whole_url(s@)->Some_0.digits,
                ) > u64::MAX,
            },
    {
        match parse_url_core(s, 0) {
            None => None,
            Some(pc) => {
                if pc.core_end != s.len() {
                    return None;
                }
                match parse_digits(s, pc.number_start, pc.core_end) {
                    None => None,
                    Some(n) => Some(
                        GithubURL {
                            url: crate::text::subrange_vec(s, 0, s.len()),
                            owner: pc.owner,
                            repo: pc.repo,
                            number: n,
                        },
                    ),
                }
            },
        }
    }
}

/// The first position at or after `i` where the core pattern matches, with
/// the end of that match.
pub open spec fn spec_bare_mention_from(s: Seq<u8>, i: int) -> Option<(int, int)>
    decreases s.len() + 1 - i,
{
    if i < 0 || i > s.len() {
        None
    } else {
        match spec_url_core_at(s, i) {
            Some(p) => Some((i, p.core_end)),
            None => spec_bare_mention_from(s, i + 1),
        }
    }
}

/// The leftmost substring of `s` that matches the core pattern.
pub open spec fn spec_bare_mention(s: Seq<u8>) -> Option<(int, int)> {
    spec_bare_mention_from(s, 0)
}

/// The leftmost substring of the message that looks like a GitHub issue or
/// pull-request URL, fragments not considered.
pub fn find_bare_mention(s: &[u8]) -> (r: Option<Vec<u8>>)
    ensures
        match r {
            Some(url) => {
                &&& spec_bare_mention(s@) is Some
                &&& url@ == s@.subrange(
                    spec_bare_mention(s@)->Some_0.0,
                    spec_bare_mention(s@)->Some_0.1,
                )
            },
            None => spec_bare_mention(s@) is None,
        },
{
    let mut c: usize = 0;
    loop
        invariant
            0 <= c <= s@.len(),
            spec_bare_mention(s@) == spec_bare_mention_from(s@, c as int),
        decreases s@.len() - c,
    {
        match parse_url_core(s, c) {
            Some(pc) => {
                return Some(crate::text::subrange_vec(s, c, pc.core_end));
            },
            None => {
                if c == s.len() {
                    proof {
                        assert(spec_bare_mention_from(s@, c as int + 1) is None);
                    }
                    return None;
                }
                c += 1;
            },
        }
    }
}

/// Whether one allow-list entry admits the given owner and repo: the entry
/// is split at its first `/`; the part before must equal the owner, and the
/// part after must equal the repo or be the single byte `*`.
pub open spec fn spec_allow_entry_matches(entry: Seq<u8>, owner: Seq<u8>, repo: Seq<u8>) -> bool {
    match spec_find_byte_from(entry, 47u8, 0) {
        None => false,
        Some(p) => entry.take(p) == owner && (entry.skip(p + 1) == repo || entry.skip(p + 1)
            == "*".spec_bytes()),
    }
}

/// Whether some entry of the allow-list admits the given owner and repo.
pub open spec fn spec_allowed(allowed: Seq<Seq<u8>>, owner: Seq<u8>, repo: Seq<u8>) -> bool {
    exists|k: int|
        0 <= k < allowed.len() && spec_allow_entry_matches(#[trigger] allowed[k], owner, repo)
}

fn allow_entry_matches(entry: &[u8], owner: &[u8], repo: &[u8]) -> (r: bool)
    ensures
        r == spec_allow_entry_matches(entry@, owner@, repo@),
{
    match find_byte(entry, 47, 0) {
        None => false,
        Some(p) => {
            let n = entry.len();
            let head = crate::text::subrange_vec(entry, 0, p);
            let tail = crate::text::subrange_vec(entry, p + 1, n);
            proof {
                assert(head@ =~= entry@.take(p as int));
                assert(tail@ =~= entry@.skip(p as int + 1));
            }
            let star = "*".as_bytes();
            crate::text::bytes_eq(head.as_slice(), owner) && (crate::text::bytes_eq(
                tail.as_slice(),
                repo,
            ) || crate::text::bytes_eq(tail.as_slice(), star))
        },
    }
}

/// Whether the allow-list admits the given owner and repo.
pub fn is_allowed(allowed: &Vec<Vec<u8>>, owner: &[u8], repo: &[u8]) -> (r: bool)
    ensures
        r == spec_allowed(allowed.deep_view(), owner@, repo@),
{
    let mut i: usize = 0;
    while i < allowed.len()
        invariant
            0 <= i <= allowed@.len(),
            allowed.deep_view().len() == allowed@.len(),
            forall|k: int|
                0 <= k < i ==> !spec_allow_entry_matches(
                    #[trigger] allowed.deep_view()[k],
                    owner@,
                    repo@,
                ),
        decreases allowed@.len() - i,
    {
        proof {
            assert(allowed.deep_view()[i as int] == allowed@[i as int]@);
        }
        if allow_entry_matches(allowed[i].as_slice(), owner, repo) {
            return true;
        }
        i += 1;
    }
    false
}

/// A wildcard allow-list entry `owner/*` admits exactly the URLs under
/// that owner: any repo name under the same owner is accepted, and any
/// other owner is rejected, whatever the repo.
pub proof fn lemma_wildcard_entry(owner: Seq<u8>, other_owner: Seq<u8>, repo: Seq<u8>)
    requires
        forall|j: int| 0 <= j < owner.len() ==> owner[j] != 47,
    ensures
        spec_allow_entry_matches(owner + "/*".spec_bytes(), other_owner, repo) <==> other_owner
            == owner,
{
    reveal_strlit("/*");
    reveal_strlit("*");
    assert(vstd::utf8::is_ascii_chars("/*"@));
    assert(vstd::string::is_ascii("/*"));
    assert(vstd::utf8::is_ascii_chars("*"@));
    assert(vstd::string::is_ascii("*"));
    let entry = owner + "/*".spec_bytes();
    assert("/*".spec_bytes().len() == 2);
    assert("/*".spec_bytes()[0] == 47);
    assert("/*".spec_bytes()[1] == 42);
    assert(entry[owner.len() as int] == 47);
    lemma_find_byte_from_exact(entry, 47u8, 0, owner.len() as int);
    assert(entry.take(owner.len() as int) =~= owner);
    assert(entry.skip(owner.len() as int + 1) =~= "*".spec_bytes());
}

/// A list that holds a wildcard entry for an owner admits every URL under
/// that owner.
pub proof fn lemma_wildcard_allows(allowed: Seq<Seq<u8>>, k: int, owner: Seq<u8>, repo: Seq<u8>)
    requires
        0 <= k < allowed.len(),
        allowed[k] == owner + "/*".spec_bytes(),
        forall|j: int| 0 <= j < owner.len() ==> owner[j] != 47,
    ensures
        spec_allowed(allowed, owner, repo),
{
    lemma_wildcard_entry(owner, owner, repo);
}

/// The allow-list entries joined by single spaces, as the rejection message
/// shows them.
pub open spec fn spec_join_space(xs: Seq<Seq<u8>>) -> Seq<u8>
    decreases xs.len(),
{
    if xs.len() == 0 {
        Seq::empty()
    } else if xs.len() == 1 {
        xs[0]
    } else {
        xs[0] + " ".spec_bytes() + spec_join_space(xs.drop_first())
    }
}

proof fn lemma_join_space_push(xs: Seq<Seq<u8>>, y: Seq<u8>)
    ensures
        spec_join_space(xs.push(y)) == if xs.len() == 0 {
            y
        } else {
            spec_join_space(xs) + " ".spec_bytes() + y
        },
    decreases xs.len(),
{
    if xs.len() == 0 {
        assert(xs.push(y)[0] == y);
    } else {
        lemma_join_space_push(xs.drop_first(), y);
        assert(xs.push(y).drop_first() =~= xs.drop_first().push(y));
        if xs.len() == 1 {
            assert(xs.drop_first().len() == 0);
            assert(spec_join_space(xs.push(y)) == xs[0] + " ".spec_bytes() + y);
            assert(spec_join_space(xs) == xs[0]);
        }
    }
}

/// The entries joined by single spaces.
pub fn join_space(xs: &Vec<Vec<u8>>) -> (r: Vec<u8>)
    ensures
        r@ == spec_join_space(xs.deep_view()),
{
    let mut r: Vec<u8> = Vec::new();
    let mut i: usize = 0;
    proof {
        assert(xs.deep_view().take(0) =~= Seq::<Seq<u8>>::empty());
    }
    while i < xs.len()
        invariant
            0 <= i <= xs@.len(),
            xs.deep_view().len() == xs@.len(),
            r@ == spec_join_space(xs.deep_view().take(i as int)),
        decreases xs@.len() - i,
    {
        if i > 0 {
            r.extend_from_slice(" ".as_bytes());
        }
        let ghost prev = xs.deep_view().take(i as int);
        proof {
            assert(xs.deep_view()[i as int] == xs@[i as int]@);
            assert(xs.deep_view().take(i as int + 1) =~= prev.push(xs.deep_view()[i as int]));
            lemma_join_space_push(prev, xs.deep_view()[i as int]);
        }
        r.extend_from_slice(xs[i].as_slice());
        i += 1;
    }
    proof {
        assert(xs.deep_view().take(xs@.len() as int) =~= xs.deep_view());
    }
    r
}

/// The response when a directive's argument does not match the URL grammar.
pub open spec fn msg_not_github() -> Seq<u8> {
    "I can't comment on that because it doesn't look like a github issue to me.".spec_bytes()
}

/// The response when the channel has no allow-list configured at all.
pub open spec fn msg_no_config() -> Seq<u8> {
    "I can't comment on that github issue because I don't have a configuration of allowed repositories for this channel.".spec_bytes()
}

/// The response when the URL is well-formed but its repository is not on
/// the channel's allow-list; it names the allowed repositories.
pub open spec fn msg_not_allowed(allowed: Seq<Seq<u8>>) -> Seq<u8> {
    "I can't comment on that github issue because it's not in a repository I'm allowed to comment on, which are: ".spec_bytes()
        + spec_join_space(allowed) + ".".spec_bytes()
}

/// The soft warning for a bare URL mention while a topic is open.
pub open spec fn msg_bare_mention() -> Seq<u8> {
    "Because I don't want to spam github issues unnecessarily, I won't comment in that github issue unless you write \"Github: <issue-url> | none\" (or \"Github issue: ...\"/\"Github topic: ...\").".spec_bytes()
}

/// What scanning a message for a GitHub association directive decides.
pub enum ExtractOutcome {
    /// Replace the current association by this URL.
    SetUrl(Vec<u8>),
    /// Clear the current association (the directive argument was `none`).
    Clear,
    /// Leave the association alone and send this response.
    Respond(Vec<u8>),
    /// Leave the association alone and say nothing.
    Nothing,
}

/// The mathematical content of an [`ExtractOutcome`].
#[verifier::ext_equal]
pub enum OutcomeView {
    /// Replace the current association by this URL.
    SetUrl(Seq<u8>),
    /// Clear the current association.
    Clear,
    /// Leave the association alone and send this response.
    Respond(Seq<u8>),
    /// Leave the association alone and say nothing.
    Nothing,
}

impl View for ExtractOutcome {
    type V = OutcomeView;

    open spec fn view(&self) -> OutcomeView {
        match self {
            ExtractOutcome::SetUrl(url) => OutcomeView::SetUrl(url@),
            ExtractOutcome::Clear => OutcomeView::Clear,
            ExtractOutcome::Respond(m) => OutcomeView::Respond(m@),
            ExtractOutcome::Nothing => OutcomeView::Nothing,
        }
    }
}

/// The allow-list of an optional channel configuration, viewed.
pub open spec fn opt_config_view(config: Option<&crate::config::ChannelConfig>) -> Option<
    crate::config::ChannelConfigView,
> {
    match config {
        Some(c) => Some(c@),
        None => None,
    }
}

/// What checking one directive argument decides: a URL matching the
/// directive grammar is accepted (without its fragment) exactly when the
/// channel has an allow-list with an entry admitting it; every failure gets
/// its own response.
pub open spec fn spec_check_github_url(s: Seq<u8>, config: Option<
    crate::config::ChannelConfigView,
>) -> OutcomeView {
    match spec_directive_url(s) {
        None => OutcomeView::Respond(msg_not_github()),
        Some(p) => match config {
            None => OutcomeView::Respond(msg_no_config()),
            Some(cfg) => if spec_allowed(cfg.github_repos_allowed, p.owner, p.repo) {
                OutcomeView::SetUrl(s.take(p.core_end))
            } else {
                OutcomeView::Respond(msg_not_allowed(cfg.github_repos_allowed))
            },
        },
    }
}

/// Check one URL argument of a directive or of the `take up` command
/// against the channel's allow-list.
pub fn check_github_url(maybe_url: &[u8], config: Option<&crate::config::ChannelConfig>) -> (r:
    ExtractOutcome)
    ensures
        r@ == spec_check_github_url(maybe_url@, opt_config_view(config)),
        r@ is SetUrl || r@ is Respond,
{
    let pc = match parse_url_core(maybe_url, 0) {
        None => {
            return ExtractOutcome::Respond(make_msg_not_github());
        },
        Some(pc) => pc,
    };
    if pc.core_end != maybe_url.len() {
        if maybe_url[pc.core_end] != 35 {
            return ExtractOutcome::Respond(make_msg_not_github());
        }
        match find_byte(maybe_url, 32, pc.core_end + 1) {
            Some(sp) => {
                proof {
                    assert(pc.core_end < sp < maybe_url@.len() && maybe_url@[sp as int] == 32);
                }
                return ExtractOutcome::Respond(make_msg_not_github());
            },
            None => {
                proof {
                    lemma_find_byte_none(maybe_url@, 32, pc.core_end as int + 1);
                }
            },
        }
    }
    match config {
        None => ExtractOutcome::Respond(make_msg_no_config()),
        Some(cfg) => {
            if is_allowed(&cfg.github_repos_allowed, pc.owner.as_slice(), pc.repo.as_slice()) {
                proof {
                    assert(maybe_url@.subrange(0, pc.core_end as int) =~= maybe_url@.take(
                        pc.core_end as int,
                    ));
                }
                ExtractOutcome::SetUrl(crate::text::subrange_vec(maybe_url, 0, pc.core_end))
            } else {
                let mut m = "I can't comment on that github issue because it's not in a repository I'm allowed to comment on, which are: ".as_bytes_vec();
                let joined = join_space(&cfg.github_repos_allowed);
                m.extend_from_slice(joined.as_slice());
                m.extend_from_slice(".".as_bytes());
                ExtractOutcome::Respond(m)
            }
        },
    }
}

fn make_msg_not_github() -> (r: Vec<u8>)
    ensures
        r@ == msg_not_github(),
{
    "I can't comment on that because it doesn't look like a github issue to me.".as_bytes_vec()
}

fn make_msg_no_config() -> (r: Vec<u8>)
    ensures
        r@ == msg_no_config(),
{
    "I can't comment on that github issue because I don't have a configuration of allowed repositories for this channel.".as_bytes_vec()
}

fn make_msg_bare_mention() -> (r: Vec<u8>)
    ensures
        r@ == msg_bare_mention(),
{
    "Because I don't want to spam github issues unnecessarily, I won't comment in that github issue unless you write \"Github: <issue-url> | none\" (or \"Github issue: ...\"/\"Github topic: ...\").".as_bytes_vec()
}

/// The three directive prefixes, in the order they are tried.
pub open spec fn directive_prefixes() -> Seq<Seq<u8>> {
    seq![
        "github:".spec_bytes(),
        "github topic:".spec_bytes(),
        "github issue:".spec_bytes(),
    ]
}

/// What scanning a whole message decides.  A directive prefix is checked
/// first: its argument `none` clears the association and any other argument
/// goes through the allow-list check.  Otherwise a bare URL mention is
/// ignored when it equals the current association or no topic is open, and
/// draws the soft warning when a topic is open and it differs.
pub open spec fn spec_extract_github_url(
    message: Seq<u8>,
    config: Option<crate::config::ChannelConfigView>,
    current: Option<Seq<u8>>,
    in_topic: bool,
) -> OutcomeView {
    match crate::text::spec_strip_one_ci_prefix(message, directive_prefixes()) {
        Some(rest) => if crate::text::lower_seq(rest) == "none".spec_bytes() {
            OutcomeView::Clear
        } else {
            spec_check_github_url(rest, config)
        },
        None => match spec_bare_mention(message) {
            Some(m) => {
                let url = message.subrange(m.0, m.1);
                if current == Some(url) || !in_topic {
                    OutcomeView::Nothing
                } else {
                    OutcomeView::Respond(msg_bare_mention())
                }
            },
            None => OutcomeView::Nothing,
        },
    }
}

/// Scan a regular line of text for a GitHub association directive or a bare
/// URL mention, and decide what to do about the channel's association.
pub fn extract_github_url(
    message: &[u8],
    config: Option<&crate::config::ChannelConfig>,
    current_url: Option<&Vec<u8>>,
    in_topic: bool,
) -> (r: ExtractOutcome)
    ensures
        r@ == spec_extract_github_url(
            message@,
            opt_config_view(config),
            match current_url {
                Some(u) => Some(u@),
                None => None,
            },
            in_topic,
        ),
{
    let mut prefixes: Vec<Vec<u8>> = Vec::new();
    prefixes.push("github:".as_bytes_vec());
    prefixes.push("github topic:".as_bytes_vec());
    prefixes.push("github issue:".as_bytes_vec());
    proof {
        assert(prefixes.deep_view() =~~= directive_prefixes());
    }
    match crate::text::strip_one_ci_prefix(message, &prefixes) {
        Some(rest) => {
            if is_none_argument(rest.as_slice()) {
                ExtractOutcome::Clear
            } else {
                check_github_url(rest.as_slice(), config)
            }
        },
        None => {
            match find_bare_mention(message) {
                Some(url) => {
                    let same = match current_url {
                        Some(cur) => crate::text::bytes_eq(cur.as_slice(), url.as_slice()),
                        None => false,
                    };
                    if same || !in_topic {
                        ExtractOutcome::Nothing
                    } else {
                        ExtractOutcome::Respond(make_msg_bare_mention())
                    }
                },
                None => ExtractOutcome::Nothing,
            }
        },
    }
}

/// Whether a directive argument reads, case-insensitively, `none`.
fn is_none_argument(rest: &[u8]) -> (r: bool)
    ensures
        r == (crate::text::lower_seq(rest@) == "none".spec_bytes()),
{
    let none_lit = "none".as_bytes();
    proof {
        reveal_strlit("none");
        assert(vstd::utf8::is_ascii_chars("none"@));
        assert(vstd::string::is_ascii("none"));
        assert(none_lit@.len() == 4);
        assert(crate::text::lower_seq("none".spec_bytes()) =~= "none".spec_bytes());
    }
    let r = rest.len() == none_lit.len() && crate::text::ci_starts_with(rest, none_lit);
    proof {
        if r {
            assert(rest@.take(4) =~= rest@);
            assert(crate::text::lower_seq(rest@) == crate::text::lower_seq("none".spec_bytes()));
        } else {
            if crate::text::lower_seq(rest@) == "none".spec_bytes() {
                assert(crate::text::lower_seq(rest@).len() == rest@.len());
                assert(rest@.len() == 4);
                assert(rest@.take(4) =~= rest@);
                assert(crate::text::lower_seq(rest@.take(4)) == crate::text::lower_seq(
                    "none".spec_bytes(),
                ));
            }
        }
    }
    r
}

} // verus!
