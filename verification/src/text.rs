//! Byte-level text helpers: ASCII case folding, case-insensitive prefix
//! stripping, whitespace trimming, substring search, and the small line-level
//! predicates (attendance marker, command-to-the-bot detection, hidden-suffix
//! redaction).

use vstd::prelude::*;
use vstd::string::StringSliceAdditionalSpecFns;

verus! {

broadcast use vstd::string::group_string_axioms;

/// ASCII lowercasing of a single byte.
pub open spec fn lower(b: u8) -> u8 {
    if 65 <= b && b <= 90 {
        (b + 32) as u8
    } else {
        b
    }
}

/// ASCII lowercasing of a byte sequence.
pub open spec fn lower_seq(s: Seq<u8>) -> Seq<u8> {
    s.map_values(|b: u8| lower(b))
}

/// Whether `s` begins, ASCII-case-insensitively, with `prefix`.
pub open spec fn spec_ci_starts_with(s: Seq<u8>, prefix: Seq<u8>) -> bool {
    s.len() >= prefix.len() && lower_seq(s.take(prefix.len() as int)) == lower_seq(prefix)
}

fn byte_to_lower(b: u8) -> (r: u8)
    ensures
        r == lower(b),
{
    if 65 <= b && b <= 90 {
        b + 32
    } else {
        b
    }
}

/// A case-insensitive version of `starts_with`.
pub fn ci_starts_with(s: &[u8], prefix: &[u8]) -> (r: bool)
    ensures
        r == spec_ci_starts_with(s@, prefix@),
{
    if s.len() < prefix.len() {
        return false;
    }
    let mut i: usize = 0;
    while i < prefix.len()
        invariant
            0 <= i <= prefix.len() <= s.len(),
            forall|j: int| 0 <= j < i ==> lower(s@[j]) == lower(prefix@[j]),
        decreases prefix.len() - i,
    {
        if byte_to_lower(s[i]) != byte_to_lower(prefix[i]) {
            assert(lower_seq(s@.take(prefix.len() as int))[i as int] != lower_seq(prefix@)[i as int]);
            return false;
        }
        i += 1;
    }
    assert(lower_seq(s@.take(prefix.len() as int)) =~= lower_seq(prefix@));
    true
}

/// Whether a byte is ASCII whitespace, the class the title trimming uses.
pub open spec fn is_space(b: u8) -> bool {
    b == 32 || b == 9 || b == 10 || b == 11 || b == 12 || b == 13
}

/// The length in bytes of the whitespace character that `s` begins with,
/// or zero: an ASCII whitespace byte, or the UTF-8 encoding of one of the
/// other characters with the Unicode `White_Space` property (NEL, NBSP,
/// OGHAM SPACE MARK, the EN QUAD..HAIR SPACE range, LINE and PARAGRAPH
/// SEPARATOR, NARROW NO-BREAK SPACE, MEDIUM MATHEMATICAL SPACE, and
/// IDEOGRAPHIC SPACE).
pub open spec fn spec_ws_prefix_len(s: Seq<u8>) -> int {
    if s.len() >= 1 && is_space(s[0]) {
        1
    } else if s.len() >= 2 && s[0] == 0xC2 && (s[1] == 0x85 || s[1] == 0xA0) {
        2
    } else if s.len() >= 3 && s[0] == 0xE1 && s[1] == 0x9A && s[2] == 0x80 {
        3
    } else if s.len() >= 3 && s[0] == 0xE2 && s[1] == 0x80 && ((0x80 <= s[2] && s[2] <= 0x8A)
        || s[2] == 0xA8 || s[2] == 0xA9 || s[2] == 0xAF) {
        3
    } else if s.len() >= 3 && s[0] == 0xE2 && s[1] == 0x81 && s[2] == 0x9F {
        3
    } else if s.len() >= 3 && s[0] == 0xE3 && s[1] == 0x80 && s[2] == 0x80 {
        3
    } else {
        0
    }
}

/// `s` with its leading whitespace removed, whitespace as Unicode has it.
pub open spec fn spec_trim_start(s: Seq<u8>) -> Seq<u8>
    decreases s.len(),
{
    let k = spec_ws_prefix_len(s);
    if k > 0 {
        spec_trim_start(s.skip(k))
    } else {
        s
    }
}

/// The length of the whitespace character `s` begins with at `from`, or
/// zero.
fn ws_prefix_len(s: &[u8], from: usize) -> (k: usize)
    requires
        from <= s@.len(),
    ensures
        k == spec_ws_prefix_len(s@.skip(from as int)),
        from + k <= s@.len(),
{
    let n = s.len();
    let ghost rest = s@.skip(from as int);
    proof {
        if rest.len() >= 1 {
            assert(rest[0] == s@[from as int]);
        }
        if rest.len() >= 2 {
            assert(rest[1] == s@[from as int + 1]);
        }
        if rest.len() >= 3 {
            assert(rest[2] == s@[from as int + 2]);
        }
    }
    if n - from >= 1 && is_space_byte(s[from]) {
        1
    } else if n - from >= 2 && s[from] == 0xC2 && (s[from + 1] == 0x85 || s[from + 1] == 0xA0) {
        2
    } else if n - from >= 3 && s[from] == 0xE1 && s[from + 1] == 0x9A && s[from + 2] == 0x80 {
        3
    } else if n - from >= 3 && s[from] == 0xE2 && s[from + 1] == 0x80 && ((0x80 <= s[from + 2]
        && s[from + 2] <= 0x8A) || s[from + 2] == 0xA8 || s[from + 2] == 0xA9 || s[from + 2]
        == 0xAF) {
        3
    } else if n - from >= 3 && s[from] == 0xE2 && s[from + 1] == 0x81 && s[from + 2] == 0x9F {
        3
    } else if n - from >= 3 && s[from] == 0xE3 && s[from + 1] == 0x80 && s[from + 2] == 0x80 {
        3
    } else {
        0
    }
}

/// `s` with its leading whitespace removed, whitespace as Unicode has it.
pub fn trim_start(s: &[u8]) -> (r: Vec<u8>)
    ensures
        r@ == spec_trim_start(s@),
{
    let n = s.len();
    let mut i: usize = 0;
    proof {
        assert(s@.skip(0) =~= s@);
    }
    loop
        invariant
            0 <= i <= s@.len(),
            n == s@.len(),
            spec_trim_start(s@) == spec_trim_start(s@.skip(i as int)),
        decreases s@.len() - i,
    {
        let k = ws_prefix_len(s, i);
        if k == 0 {
            let r = subrange_vec(s, i, s.len());
            proof {
                assert(r@ =~= s@.skip(i as int));
            }
            return r;
        }
        proof {
            assert(s@.skip(i as int).skip(k as int) =~= s@.skip(i as int + k));
        }
        i += k;
    }
}

fn is_space_byte(b: u8) -> (r: bool)
    ensures
        r == is_space(b),
{
    b == 32 || b == 9 || b == 10 || b == 11 || b == 12 || b == 13
}

/// Whether two byte slices hold the same bytes.
pub fn bytes_eq(a: &[u8], b: &[u8]) -> (r: bool)
    ensures
        r == (a@ == b@),
{
    if a.len() != b.len() {
        return false;
    }
    let mut i: usize = 0;
    while i < a.len()
        invariant
            0 <= i <= a@.len(),
            a@.len() == b@.len(),
            forall|j: int| 0 <= j < i ==> a@[j] == b@[j],
        decreases a.len() - i,
    {
        if a[i] != b[i] {
            return false;
        }
        i += 1;
    }
    assert(a@ =~= b@);
    true
}

/// Whether `s` begins (case-sensitively) with `prefix`.
pub open spec fn spec_starts_with(s: Seq<u8>, prefix: Seq<u8>) -> bool {
    s.len() >= prefix.len() && s.take(prefix.len() as int) == prefix
}

/// A byte-level, case-sensitive `starts_with`.
pub fn starts_with(s: &[u8], prefix: &[u8]) -> (r: bool)
    ensures
        r == spec_starts_with(s@, prefix@),
{
    if s.len() < prefix.len() {
        return false;
    }
    let mut i: usize = 0;
    while i < prefix.len()
        invariant
            0 <= i <= prefix.len() <= s.len(),
            forall|j: int| 0 <= j < i ==> s@[j] == prefix@[j],
        decreases prefix.len() - i,
    {
        if s[i] != prefix[i] {
            assert(s@.take(prefix.len() as int)[i as int] != prefix@[i as int]);
            return false;
        }
        i += 1;
    }
    assert(s@.take(prefix.len() as int) =~= prefix@);
    true
}

/// Copy of the byte range `[from, to)` of `s`.
pub fn subrange_vec(s: &[u8], from: usize, to: usize) -> (r: Vec<u8>)
    requires
        0 <= from <= to <= s@.len(),
    ensures
        r@ == s@.subrange(from as int, to as int),
{
    let mut r: Vec<u8> = Vec::new();
    let mut k: usize = from;
    while k < to
        invariant
            from <= k <= to <= s@.len(),
            r@ == s@.subrange(from as int, k as int),
        decreases to - k,
    {
        r.push(s[k]);
        k += 1;
    }
    r
}

/// An exact copy of a byte vector.
pub fn clone_bytes(v: &Vec<u8>) -> (r: Vec<u8>)
    ensures
        r@ == v@,
{
    let r = subrange_vec(v.as_slice(), 0, v.len());
    assert(v@.subrange(0, v@.len() as int) =~= v@);
    r
}

/// The position of the first occurrence of `pat` in `s` at or after `i`.
pub open spec fn spec_find_from(s: Seq<u8>, pat: Seq<u8>, i: int) -> Option<int>
    decreases s.len() + 1 - i,
{
    if i < 0 || i + pat.len() > s.len() {
        None
    } else if s.subrange(i, i + pat.len() as int) == pat {
        Some(i)
    } else {
        spec_find_from(s, pat, i + 1)
    }
}

/// The position of the first occurrence of `pat` in `s`.
pub open spec fn spec_find(s: Seq<u8>, pat: Seq<u8>) -> Option<int> {
    spec_find_from(s, pat, 0)
}

/// Position of the first occurrence of `pat` in `s`, if any.
pub fn find_sub(s: &[u8], pat: &[u8]) -> (r: Option<usize>)
    requires
        pat@.len() >= 1,
    ensures
        match r {
            Some(i) => spec_find(s@, pat@) == Some(i as int),
            None => spec_find(s@, pat@) is None,
        },
{
    if pat.len() > s.len() {
        return None;
    }
    let last_start: usize = s.len() - pat.len();
    let mut i: usize = 0;
    while i <= last_start
        invariant
            0 <= i <= last_start + 1,
            last_start == s@.len() - pat@.len(),
            1 <= pat@.len() <= s@.len(),
            s@.len() <= usize::MAX,
            spec_find(s@, pat@) == spec_find_from(s@, pat@, i as int),
        decreases last_start + 1 - i,
    {
        let mut j: usize = 0;
        while j < pat.len() && s[i + j] == pat[j]
            invariant
                0 <= j <= pat@.len(),
                i + pat@.len() <= s@.len(),
                s@.len() <= usize::MAX,
                forall|k: int| 0 <= k < j ==> s@[i + k] == pat@[k],
            decreases pat.len() - j,
        {
            j += 1;
        }
        if j == pat.len() {
            assert(s@.subrange(i as int, i + pat@.len() as int) =~= pat@);
            return Some(i);
        }
        assert(s@.subrange(i as int, i + pat@.len() as int) != pat@) by {
            assert(s@.subrange(i as int, i + pat@.len() as int)[j as int] == s@[i + j]);
        }
        i += 1;
    }
    None
}

/// What `filter_bot_hidden` returns: everything before the first `[off]`
/// marker with `[hidden]` in the marker's place, or the line unchanged when
/// no marker occurs.
pub open spec fn spec_filter_bot_hidden(line: Seq<u8>) -> Seq<u8> {
    match spec_find(line, "[off]".spec_bytes()) {
        None => line,
        Some(i) => line.take(i) + "[hidden]".spec_bytes(),
    }
}

/// Remove anything in a line that is after `[off]` to prevent it from being
/// logged, to match the convention of other W3C logging bots.
pub fn filter_bot_hidden(line: &[u8]) -> (r: Vec<u8>)
    ensures
        r@ == spec_filter_bot_hidden(line@),
{
    let marker = "[off]".as_bytes();
    proof {
        reveal_strlit("[off]");
        assert(vstd::utf8::is_ascii_chars("[off]"@));
        assert(vstd::string::is_ascii("[off]"));
        assert(marker@.len() == 5);
    }
    match find_sub(line, marker) {
        None => subrange_vec(line, 0, line.len()),
        Some(i) => {
            proof {
                lemma_spec_find_bounds(line@, marker@, 0);
            }
            let mut r = subrange_vec(line, 0, i);
            r.extend_from_slice("[hidden]".as_bytes());
            r
        },
    }
}

proof fn lemma_spec_find_bounds(s: Seq<u8>, pat: Seq<u8>, i: int)
    requires
        spec_find_from(s, pat, i) is Some,
    ensures
        i <= spec_find_from(s, pat, i)->Some_0,
        spec_find_from(s, pat, i)->Some_0 + pat.len() <= s.len(),
    decreases s.len() + 1 - i,
{
    if i < 0 || i + pat.len() > s.len() {
    } else if s.subrange(i, i + pat.len() as int) == pat {
    } else {
        lemma_spec_find_bounds(s, pat, i + 1);
    }
}

/// Whether the message is, ASCII-case-insensitively, either exactly
/// `present+` or something beginning with `present+ ` (with a space).
pub open spec fn spec_is_present_plus(line: Seq<u8>) -> bool {
    (line.len() == "present+".spec_bytes().len() && spec_ci_starts_with(
        line,
        "present+".spec_bytes(),
    )) || spec_ci_starts_with(line, "present+ ".spec_bytes())
}

/// Whether this message is an attendance marker: case-insensitively
/// `present+`, or something that begins with `present+ ` (with space).
pub fn is_present_plus(line: &[u8]) -> (r: bool)
    ensures
        r == spec_is_present_plus(line@),
{
    let exact = "present+".as_bytes();
    let spaced = "present+ ".as_bytes();
    (line.len() == exact.len() && ci_starts_with(line, exact)) || ci_starts_with(line, spaced)
}

/// What `check_command_in_channel` returns: when the message begins with the
/// bot's nick followed by `:` or `,`, the rest of the message with leading
/// whitespace removed.
pub open spec fn spec_check_command_in_channel(mynick: Seq<u8>, msg: Seq<u8>) -> Option<Seq<u8>> {
    if spec_starts_with(msg, mynick) && msg.len() > mynick.len() && (msg[mynick.len() as int] == 58
        || msg[mynick.len() as int] == 44) {
        Some(spec_trim_start(msg.skip(mynick.len() as int + 1)))
    } else {
        None
    }
}

/// Take a message in the channel, and see if it was a message sent to this
/// bot: its nick followed by `:` or `,` and then the command.
pub fn check_command_in_channel(mynick: &[u8], msg: &[u8]) -> (r: Option<Vec<u8>>)
    ensures
        r is Some <==> spec_check_command_in_channel(mynick@, msg@) is Some,
        r is Some ==> Some(r->Some_0@) == spec_check_command_in_channel(mynick@, msg@),
{
    if !starts_with(msg, mynick) {
        return None;
    }
    if msg.len() <= mynick.len() {
        return None;
    }
    let punct = msg[mynick.len()];
    if punct != 58 && punct != 44 {
        return None;
    }
    let rest = subrange_vec(msg, mynick.len() + 1, msg.len());
    assert(rest@ =~= msg@.skip(mynick@.len() as int + 1));
    Some(trim_start(rest.as_slice()))
}

/// What `strip_ci_prefix` returns: when `s` begins case-insensitively with
/// `prefix`, the rest of `s` with leading whitespace removed.
pub open spec fn spec_strip_ci_prefix(s: Seq<u8>, prefix: Seq<u8>) -> Option<Seq<u8>> {
    if spec_ci_starts_with(s, prefix) {
        Some(spec_trim_start(s.skip(prefix.len() as int)))
    } else {
        None
    }
}

/// Remove a case-insensitive start of the line, and if that prefix is
/// present return the rest of the line.
pub fn strip_ci_prefix(s: &[u8], prefix: &[u8]) -> (r: Option<Vec<u8>>)
    ensures
        r is Some <==> spec_ci_starts_with(s@, prefix@),
        r is Some ==> Some(r->Some_0@) == spec_strip_ci_prefix(s@, prefix@),
{
    if ci_starts_with(s, prefix) {
        let rest = subrange_vec(s, prefix.len(), s.len());
        assert(rest@ =~= s@.skip(prefix@.len() as int));
        Some(trim_start(rest.as_slice()))
    } else {
        None
    }
}

/// What `strip_one_ci_prefix` returns: the result of `strip_ci_prefix` for
/// the first prefix in the list that matches.
pub open spec fn spec_strip_one_ci_prefix(s: Seq<u8>, prefixes: Seq<Seq<u8>>) -> Option<Seq<u8>>
    decreases prefixes.len(),
{
    if prefixes.len() == 0 {
        None
    } else if spec_ci_starts_with(s, prefixes[0]) {
        spec_strip_ci_prefix(s, prefixes[0])
    } else {
        spec_strip_one_ci_prefix(s, prefixes.drop_first())
    }
}

/// Remove a case-insensitive start of the line (given multiple options for
/// what that start is), and if such a prefix is present return the rest of
/// the line.
pub fn strip_one_ci_prefix(s: &[u8], prefixes: &Vec<Vec<u8>>) -> (r: Option<Vec<u8>>)
    ensures
        r is Some <==> spec_strip_one_ci_prefix(s@, prefixes.deep_view()) is Some,
        r is Some ==> Some(r->Some_0@) == spec_strip_one_ci_prefix(s@, prefixes.deep_view()),
{
    proof {
        assert(prefixes.deep_view().skip(0) =~= prefixes.deep_view());
    }
    let mut i: usize = 0;
    while i < prefixes.len()
        invariant
            0 <= i <= prefixes.deep_view().len(),
            prefixes.deep_view().len() == prefixes@.len(),
            spec_strip_one_ci_prefix(s@, prefixes.deep_view()) == spec_strip_one_ci_prefix(
                s@,
                prefixes.deep_view().skip(i as int),
            ),
        decreases prefixes.len() - i,
    {
        proof {
            assert(prefixes.deep_view()[i as int] == prefixes@[i as int]@);
            assert(prefixes.deep_view().skip(i as int).drop_first() =~= prefixes.deep_view().skip(
                i as int + 1,
            ));
            assert(prefixes.deep_view().skip(i as int)[0] == prefixes.deep_view()[i as int]);
        }
        match strip_ci_prefix(s, prefixes[i].as_slice()) {
            Some(r) => {
                return Some(r);
            },
            None => {
                i += 1;
            },
        }
    }
    None
}

} // verus!
