//! The decisions of the asynchronous comment task: which labels to remove,
//! how each sub-operation's outcome reads, how the outcomes fold into one
//! status line, and the line sequence the mock mode replays over chat.
//!
//! The network calls themselves live in the unverified shell; these
//! functions take their results as plain values.

use vstd::prelude::*;
use vstd::string::StrSliceExecFns;
use vstd::string::StringSliceAdditionalSpecFns;

verus! {

broadcast use vstd::string::group_string_axioms;

/// The status when the comment was posted.
pub open spec fn msg_commented(url: Seq<u8>) -> Seq<u8> {
    "Successfully commented on ".spec_bytes() + url
}

/// The status when posting the comment failed.
pub open spec fn msg_comment_failed(url: Seq<u8>, err: Seq<u8>) -> Seq<u8> {
    "UNABLE TO COMMENT on ".spec_bytes() + url + " due to error: ".spec_bytes() + err
}

/// The status when the labels could not even be listed.
pub open spec fn msg_labels_failed(url: Seq<u8>, err: Seq<u8>) -> Seq<u8> {
    "UNABLE TO RETRIEVE LABELS ON ".spec_bytes() + url + " due to error: ".spec_bytes() + err
}

/// The fragment appended for one successfully removed label.
pub open spec fn msg_label_removed(label: Seq<u8>) -> Seq<u8> {
    " and removed the \"".spec_bytes() + label + "\" label".spec_bytes()
}

/// The fragment appended for one label whose removal failed.
pub open spec fn msg_label_failed(label: Seq<u8>, err: Seq<u8>) -> Seq<u8> {
    " and UNABLE TO REMOVE LABEL \"".spec_bytes() + label + "\" due to error: ".spec_bytes() + err
}

/// The status when the comment was posted.
pub fn make_commented(url: &[u8]) -> (r: Vec<u8>)
    ensures
        r@ == msg_commented(url@),
{
    let mut r = "Successfully commented on ".as_bytes_vec();
    r.extend_from_slice(url);
    r
}

/// The status when posting the comment failed.
pub fn make_comment_failed(url: &[u8], err: &[u8]) -> (r: Vec<u8>)
    ensures
        r@ == msg_comment_failed(url@, err@),
{
    let mut r = "UNABLE TO COMMENT on ".as_bytes_vec();
    r.extend_from_slice(url);
    r.extend_from_slice(" due to error: ".as_bytes());
    r.extend_from_slice(err);
    r
}

/// The status when the labels could not be listed.
pub fn make_labels_failed(url: &[u8], err: &[u8]) -> (r: Vec<u8>)
    ensures
        r@ == msg_labels_failed(url@, err@),
{
    let mut r = "UNABLE TO RETRIEVE LABELS ON ".as_bytes_vec();
    r.extend_from_slice(url);
    r.extend_from_slice(" due to error: ".as_bytes());
    r.extend_from_slice(err);
    r
}

/// The fragment for one successfully removed label.
pub fn make_label_removed(label: &[u8]) -> (r: Vec<u8>)
    ensures
        r@ == msg_label_removed(label@),
{
    let mut r = " and removed the \"".as_bytes_vec();
    r.extend_from_slice(label);
    r.extend_from_slice("\" label".as_bytes());
    r
}

/// The fragment for one label whose removal failed.
pub fn make_label_failed(label: &[u8], err: &[u8]) -> (r: Vec<u8>)
    ensures
        r@ == msg_label_failed(label@, err@),
{
    let mut r = " and UNABLE TO REMOVE LABEL \"".as_bytes_vec();
    r.extend_from_slice(label);
    r.extend_from_slice("\" due to error: ".as_bytes());
    r.extend_from_slice(err);
    r
}

/// The labels the task removes: those whose name starts with `Agenda+`,
/// in the order the listing gave them.
pub open spec fn spec_agenda_labels(labels: Seq<Seq<u8>>) -> Seq<Seq<u8>>
    decreases labels.len(),
{
    if labels.len() == 0 {
        Seq::empty()
    } else {
        spec_agenda_labels(labels.drop_last()) + (if crate::text::spec_starts_with(
            labels.last(),
            "Agenda+".spec_bytes(),
        ) {
            seq![labels.last()]
        } else {
            Seq::<Seq<u8>>::empty()
        })
    }
}

/// Pick out the labels whose name starts with `Agenda+`.
pub fn agenda_labels(labels: &Vec<Vec<u8>>) -> (r: Vec<Vec<u8>>)
    ensures
        r.deep_view() == spec_agenda_labels(labels.deep_view()),
{
    let mut r: Vec<Vec<u8>> = Vec::new();
    let mut i: usize = 0;
    proof {
        assert(labels.deep_view().take(0) =~= Seq::<Seq<u8>>::empty());
        assert(r.deep_view() =~= spec_agenda_labels(labels.deep_view().take(0)));
    }
    while i < labels.len()
        invariant
            0 <= i <= labels@.len(),
            labels.deep_view().len() == labels@.len(),
            r.deep_view() == spec_agenda_labels(labels.deep_view().take(i as int)),
        decreases labels@.len() - i,
    {
        let ghost prev = r.deep_view();
        proof {
            assert(labels.deep_view()[i as int] == labels@[i as int]@);
            assert(labels.deep_view().take(i as int + 1).drop_last() =~= labels.deep_view().take(
                i as int,
            ));
            assert(labels.deep_view().take(i as int + 1).last() == labels.deep_view()[i as int]);
        }
        if crate::text::starts_with(labels[i].as_slice(), "Agenda+".as_bytes()) {
            r.push(crate::text::clone_bytes(&labels[i]));
            proof {
                assert(r.deep_view() =~~= prev.push(labels.deep_view()[i as int]));
                assert(r.deep_view() =~~= spec_agenda_labels(
                    labels.deep_view().take(i as int + 1),
                ));
            }
        } else {
            proof {
                assert(r.deep_view() =~~= spec_agenda_labels(
                    labels.deep_view().take(i as int + 1),
                ));
            }
        }
        i += 1;
    }
    proof {
        assert(labels.deep_view().take(labels@.len() as int) =~= labels.deep_view());
    }
    r
}

/// The fragments of a status line, concatenated in order.
pub open spec fn spec_concat_all(xs: Seq<Seq<u8>>) -> Seq<u8>
    decreases xs.len(),
{
    if xs.len() == 0 {
        Seq::empty()
    } else {
        spec_concat_all(xs.drop_last()) + xs.last()
    }
}

/// Fold the comment outcome and the per-label outcomes into the one status
/// line the channel sees.
pub fn assemble_status(comment_msg: &[u8], label_msgs: &Vec<Vec<u8>>) -> (r: Vec<u8>)
    ensures
        r@ == comment_msg@ + spec_concat_all(label_msgs.deep_view()),
{
    let mut r = crate::text::subrange_vec(comment_msg, 0, comment_msg.len());
    proof {
        assert(r@ =~= comment_msg@);
        assert(label_msgs.deep_view().take(0) =~= Seq::<Seq<u8>>::empty());
        assert(r@ =~= comment_msg@ + spec_concat_all(label_msgs.deep_view().take(0)));
    }
    let mut i: usize = 0;
    while i < label_msgs.len()
        invariant
            0 <= i <= label_msgs@.len(),
            label_msgs.deep_view().len() == label_msgs@.len(),
            r@ == comment_msg@ + spec_concat_all(label_msgs.deep_view().take(i as int)),
        decreases label_msgs@.len() - i,
    {
        proof {
            assert(label_msgs.deep_view()[i as int] == label_msgs@[i as int]@);
            assert(label_msgs.deep_view().take(i as int + 1).drop_last()
                =~= label_msgs.deep_view().take(i as int));
            assert(label_msgs.deep_view().take(i as int + 1).last() == label_msgs.deep_view()[
                i as int]);
        }
        r.extend_from_slice(label_msgs[i].as_slice());
        i += 1;
    }
    proof {
        assert(label_msgs.deep_view().take(label_msgs@.len() as int) =~= label_msgs.deep_view());
    }
    r
}

/// The comment text split at line breaks, as the mock mode replays it line
/// by line; a trailing line break yields a final empty line, as splitting
/// does.
pub open spec fn spec_split_lines(s: Seq<u8>) -> Seq<Seq<u8>>
    decreases s.len(),
{
    match crate::urls::spec_find_byte_from(s, 10u8, 0) {
        Some(i) => if 0 <= i < s.len() {
            seq![s.take(i)] + spec_split_lines(s.skip(i + 1))
        } else {
            seq![s]
        },
        None => seq![s],
    }
}

/// A found byte lies in range, at the byte looked for.
proof fn lemma_find_byte_bounds(s: Seq<u8>, b: u8, i: int)
    requires
        crate::urls::spec_find_byte_from(s, b, i) is Some,
    ensures
        i <= crate::urls::spec_find_byte_from(s, b, i)->Some_0 < s.len(),
        s[crate::urls::spec_find_byte_from(s, b, i)->Some_0] == b,
    decreases s.len() - i,
{
    if 0 <= i < s.len() && s[i] != b {
        lemma_find_byte_bounds(s, b, i + 1);
    }
}

/// Split the comment text at line breaks.
pub fn split_lines(s: &[u8]) -> (r: Vec<Vec<u8>>)
    ensures
        r.deep_view() == spec_split_lines(s@),
{
    let n = s.len();
    let mut r: Vec<Vec<u8>> = Vec::new();
    let mut pos: usize = 0;
    proof {
        assert(s@.skip(0) =~= s@);
        assert(r.deep_view() + spec_split_lines(s@) =~= spec_split_lines(s@));
    }
    loop
        invariant
            0 <= pos <= s@.len(),
            n == s@.len(),
            r.deep_view() + spec_split_lines(s@.skip(pos as int)) =~= spec_split_lines(s@),
        decreases s@.len() - pos,
    {
        let ghost rest = s@.skip(pos as int);
        let ghost prev = r.deep_view();
        match crate::urls::find_byte(s, 10, pos) {
            Some(i) => {
                proof {
                    lemma_find_byte_shift(s@, 10u8, pos as int, i as int);
                    assert(rest.take(i - pos) =~= s@.subrange(pos as int, i as int));
                    assert(rest.skip(i - pos + 1) =~= s@.skip(i as int + 1));
                }
                let piece = crate::text::subrange_vec(s, pos, i);
                r.push(piece);
                proof {
                    assert(r.deep_view() =~~= prev.push(rest.take(i - pos)));
                    assert(prev.push(rest.take(i - pos)) =~= prev + seq![rest.take(i - pos)]);
                    assert(r.deep_view() + spec_split_lines(s@.skip(i as int + 1))
                        =~= spec_split_lines(s@));
                }
                pos = i + 1;
            },
            None => {
                proof {
                    lemma_find_byte_shift_none(s@, 10u8, pos as int);
                    assert(rest =~= s@.subrange(pos as int, s@.len() as int));
                }
                let piece = crate::text::subrange_vec(s, pos, s.len());
                r.push(piece);
                proof {
                    assert(r.deep_view() =~~= prev.push(rest));
                    assert(prev.push(rest) =~= prev + seq![rest]);
                    assert(spec_split_lines(rest) == seq![rest]);
                }
                return r;
            },
        }
    }
}

/// A byte found at `i` in the whole text is found at `i - pos` in the
/// suffix starting at `pos`, with nothing earlier.
proof fn lemma_find_byte_shift(s: Seq<u8>, b: u8, pos: int, i: int)
    requires
        0 <= pos <= i < s.len(),
        crate::urls::spec_find_byte_from(s, b, pos) == Some(i),
    ensures
        crate::urls::spec_find_byte_from(s.skip(pos), b, 0) == Some(i - pos),
{
    lemma_find_byte_prefix_clear(s, b, pos, i);
    assert(s.skip(pos)[i - pos] == s[i]);
    crate::urls::lemma_find_byte_from_exact(s.skip(pos), b, 0, i - pos);
}

/// Up to the found position, nothing equals the byte.
proof fn lemma_find_byte_prefix_clear(s: Seq<u8>, b: u8, pos: int, i: int)
    requires
        0 <= pos <= i < s.len(),
        crate::urls::spec_find_byte_from(s, b, pos) == Some(i),
    ensures
        forall|j: int| pos <= j < i ==> s[j] != b,
        s[i] == b,
    decreases i - pos,
{
    if s[pos] == b {
    } else {
        lemma_find_byte_bounds(s, b, pos + 1);
        lemma_find_byte_prefix_clear(s, b, pos + 1, i);
    }
}

/// A byte absent from `pos` onward is absent from the suffix.
proof fn lemma_find_byte_shift_none(s: Seq<u8>, b: u8, pos: int)
    requires
        0 <= pos <= s.len(),
        crate::urls::spec_find_byte_from(s, b, pos) is None,
    ensures
        crate::urls::spec_find_byte_from(s.skip(pos), b, 0) is None,
{
    crate::urls::lemma_find_byte_none(s, b, pos);
    lemma_find_byte_none_all(s.skip(pos), b, 0);
}

proof fn lemma_find_byte_none_all(s: Seq<u8>, b: u8, i: int)
    requires
        0 <= i,
        forall|j: int| i <= j < s.len() ==> s[j] != b,
    ensures
        crate::urls::spec_find_byte_from(s, b, i) is None,
    decreases s.len() - i,
{
    if i < s.len() {
        lemma_find_byte_none_all(s, b, i + 1);
    }
}

/// The marker line before the mock-mode replay of a comment.
pub open spec fn msg_begin_comment(url: Seq<u8>) -> Seq<u8> {
    "!BEGIN GITHUB COMMENT IN ".spec_bytes() + url
}

/// The marker line after the mock-mode replay of a comment.
pub open spec fn msg_end_comment(url: Seq<u8>) -> Seq<u8> {
    "!END GITHUB COMMENT IN ".spec_bytes() + url
}

/// The lines the mock mode sends to the sentinel recipient: the begin
/// marker, the comment text line by line, and the end marker.
pub open spec fn spec_mock_comment_lines(url: Seq<u8>, comment_text: Seq<u8>) -> Seq<Seq<u8>> {
    seq![msg_begin_comment(url)] + spec_split_lines(comment_text) + seq![msg_end_comment(url)]
}

/// The lines the mock mode replays instead of posting to GitHub.
pub fn mock_comment_lines(url: &[u8], comment_text: &[u8]) -> (r: Vec<Vec<u8>>)
    ensures
        r.deep_view() == spec_mock_comment_lines(url@, comment_text@),
{
    let mut r: Vec<Vec<u8>> = Vec::new();
    let mut begin = "!BEGIN GITHUB COMMENT IN ".as_bytes_vec();
    begin.extend_from_slice(url);
    r.push(begin);
    let mut body = split_lines(comment_text);
    let ghost body_view = body.deep_view();
    let mut i: usize = 0;
    proof {
        assert(r.deep_view() =~~= seq![msg_begin_comment(url@)] + body_view.take(0));
    }
    while i < body.len()
        invariant
            0 <= i <= body@.len(),
            body.deep_view() == body_view,
            body_view.len() == body@.len(),
            r.deep_view() == seq![msg_begin_comment(url@)] + body_view.take(i as int),
        decreases body@.len() - i,
    {
        let ghost prev = r.deep_view();
        proof {
            assert(body.deep_view()[i as int] == body@[i as int]@);
        }
        r.push(crate::text::clone_bytes(&body[i]));
        proof {
            assert(r.deep_view() =~~= prev.push(body_view[i as int]));
            assert(r.deep_view() =~~= seq![msg_begin_comment(url@)] + body_view.take(i as int + 1));
        }
        i += 1;
    }
    proof {
        assert(body_view.take(body@.len() as int) =~= body_view);
    }
    let ghost prev = r.deep_view();
    let mut end = "!END GITHUB COMMENT IN ".as_bytes_vec();
    end.extend_from_slice(url);
    r.push(end);
    proof {
        assert(r.deep_view() =~~= prev.push(msg_end_comment(url@)));
        assert(r.deep_view() =~~= spec_mock_comment_lines(url@, comment_text@));
    }
    r
}

/// The confirmation sent once the title of a newly associated URL has been
/// fetched: it quotes the title, and names the previous association when
/// the new one replaced it.
pub open spec fn msg_title_confirmation(
    new_url: Seq<u8>,
    old_url: Option<Seq<u8>>,
    title: Seq<u8>,
) -> Seq<u8> {
    match old_url {
        None => "OK, I'll post this discussion to ".spec_bytes() + new_url + " (".spec_bytes()
            + title + ").".spec_bytes(),
        Some(old) => "OK, I'll post this discussion to ".spec_bytes() + new_url + " (".spec_bytes()
            + title + ") instead of ".spec_bytes() + old + " like you said before.".spec_bytes(),
    }
}

/// Build the title-fetch confirmation line.
pub fn title_confirmation(new_url: &[u8], old_url: Option<&Vec<u8>>, title: &[u8]) -> (r: Vec<u8>)
    ensures
        r@ == msg_title_confirmation(
            new_url@,
            match old_url {
                Some(u) => Some(u@),
                None => None,
            },
            title@,
        ),
{
    let mut r = "OK, I'll post this discussion to ".as_bytes_vec();
    r.extend_from_slice(new_url);
    r.extend_from_slice(" (".as_bytes());
    r.extend_from_slice(title);
    match old_url {
        None => {
            r.extend_from_slice(").".as_bytes());
        },
        Some(old) => {
            r.extend_from_slice(") instead of ".as_bytes());
            r.extend_from_slice(old.as_slice());
            r.extend_from_slice(" like you said before.".as_bytes());
        },
    }
    r
}

} // verus!
