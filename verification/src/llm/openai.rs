//! The streamed chat-completion reply: server-sent-event lines and the
//! `<think>…</think>` filter that separates the model's reasoning from the reply.
use vstd::prelude::*;
use vstd::string::*;
use super::{system_and_user, ChatMessage, LlmRequest, ROLE_SYSTEM, ROLE_USER};
use crate::text::{
    chars_of, contains, decode_utf8_lossy, find, find_from, find_from_exec, lemma_find, next_newline,
    next_newline_exec, occurs_at, starts_with, substring, trim, trim_str, utf8_lossy,
};

verus! {

/// `"<think>"`.
pub open spec fn open_tag() -> Seq<char> {
    seq!['<', 't', 'h', 'i', 'n', 'k', '>']
}

/// `"</think>"`.
pub open spec fn close_tag() -> Seq<char> {
    seq!['<', '/', 't', 'h', 'i', 'n', 'k', '>']
}

/// The tag that ends the current mode: `"</think>"` inside reasoning, `"<think>"` outside.
pub open spec fn tag_for(in_think: bool) -> Seq<char> {
    if in_think {
        close_tag()
    } else {
        open_tag()
    }
}

/// A piece of streamed text for the UI.
pub enum StreamMessage {
    /// Reasoning of the model, shown while it thinks.
    Thinking(String),
    /// Reply text.
    Content(String),
}

impl View for StreamMessage {
    /// Whether the piece is reasoning, and its text.
    type V = (bool, Seq<char>);

    open spec fn view(&self) -> (bool, Seq<char>) {
        match self {
            StreamMessage::Thinking(t) => (true, t@),
            StreamMessage::Content(t) => (false, t@),
        }
    }
}

pub open spec fn messages_view(v: Seq<StreamMessage>) -> Seq<(bool, Seq<char>)> {
    v.map_values(|m: StreamMessage| m@)
}

/// How `content` splits into reasoning and reply pieces when the stream is inside
/// reasoning (`in_think`) or not, and whether it is inside reasoning afterwards.
///
/// Outside reasoning, everything up to the next `"<think>"` is reply text; inside,
/// everything up to the next `"</think>"` is reasoning. The tags themselves are
/// dropped, and so are empty pieces.
pub open spec fn think_split(s: Seq<char>, in_think: bool) -> (Seq<(bool, Seq<char>)>, bool)
    decreases s.len(),
{
    if s.len() == 0 {
        (seq![], in_think)
    } else {
        let tag = tag_for(in_think);
        match find(s, tag) {
            Some(p) => {
                proof {
                    lemma_find(s, tag);
                }
                let rest = think_split(s.skip(p + tag.len()), !in_think);
                (
                    if p > 0 {
                        seq![(in_think, s.take(p))] + rest.0
                    } else {
                        rest.0
                    },
                    rest.1,
                )
            },
            None => (seq![(in_think, s)], in_think),
        }
    }
}

/// The text of the pieces of one kind (reasoning when `thinking`, else reply),
/// concatenated in order.
pub open spec fn kind_text(pieces: Seq<(bool, Seq<char>)>, thinking: bool) -> Seq<char>
    decreases pieces.len(),
{
    if pieces.len() == 0 {
        seq![]
    } else {
        let rest = kind_text(pieces.drop_first(), thinking);
        if pieces[0].0 == thinking {
            pieces[0].1 + rest
        } else {
            rest
        }
    }
}

/// The reply text among `pieces`, concatenated.
pub open spec fn reply_text(pieces: Seq<(bool, Seq<char>)>) -> Seq<char> {
    kind_text(pieces, false)
}

pub proof fn lemma_kind_text_append(
    a: Seq<(bool, Seq<char>)>,
    b: Seq<(bool, Seq<char>)>,
    thinking: bool,
)
    ensures
        kind_text(a + b, thinking) == kind_text(a, thinking) + kind_text(b, thinking),
    decreases a.len(),
{
    if a.len() == 0 {
        assert(a + b =~= b);
        assert(kind_text(a, thinking) + kind_text(b, thinking) =~= kind_text(b, thinking));
    } else {
        assert((a + b).drop_first() =~= a.drop_first() + b);
        lemma_kind_text_append(a.drop_first(), b, thinking);
        assert(kind_text(a, thinking) + kind_text(b, thinking) =~= (if a[0].0 == thinking {
            a[0].1 + kind_text(a.drop_first(), thinking)
        } else {
            kind_text(a.drop_first(), thinking)
        }) + kind_text(b, thinking));
    }
}

pub proof fn lemma_kind_text_single(x: (bool, Seq<char>), thinking: bool)
    ensures
        kind_text(seq![x], thinking) == (if x.0 == thinking {
            x.1
        } else {
            Seq::<char>::empty()
        }),
{
    let one = seq![x];
    assert(one.drop_first() =~= Seq::<(bool, Seq<char>)>::empty());
    assert(kind_text(one.drop_first(), thinking) == Seq::<char>::empty());
    assert(x.1 + Seq::<char>::empty() =~= x.1);
}

pub proof fn lemma_reply_text_append(a: Seq<(bool, Seq<char>)>, b: Seq<(bool, Seq<char>)>)
    ensures
        reply_text(a + b) == reply_text(a) + reply_text(b),
{
    lemma_kind_text_append(a, b, false);
}

pub proof fn lemma_reply_text_single(x: (bool, Seq<char>))
    ensures
        reply_text(seq![x]) == (if x.0 {
            Seq::<char>::empty()
        } else {
            x.1
        }),
{
    lemma_kind_text_single(x, false);
}

/// Every piece of `think_split` is non-empty; a reply piece never holds `"<think>"`
/// and a reasoning piece never holds `"</think>"`.
pub proof fn lemma_think_split_pieces(s: Seq<char>, in_think: bool)
    ensures
        forall|i: int|
            0 <= i < think_split(s, in_think).0.len() ==> {
                let piece = #[trigger] think_split(s, in_think).0[i];
                &&& piece.1.len() > 0
                &&& !contains(piece.1, tag_for(piece.0))
            },
    decreases s.len(),
{
    if s.len() > 0 {
        let tag = tag_for(in_think);
        lemma_find(s, tag);
        match find(s, tag) {
            Some(p) => {
                let rest = s.skip(p + tag.len());
                lemma_think_split_pieces(rest, !in_think);
                let tail = think_split(rest, !in_think).0;
                if p > 0 {
                    let head = s.take(p);
                    assert forall|j: int| !occurs_at(head, tag, j) by {
                        if occurs_at(head, tag, j) {
                            assert(s.subrange(j, j + tag.len()) =~= head.subrange(j, j + tag.len()));
                            assert(occurs_at(s, tag, j));
                        }
                    }
                    let whole = seq![(in_think, head)] + tail;
                    assert(think_split(s, in_think).0 == whole);
                    assert forall|i: int| 0 <= i < whole.len() implies {
                        let piece = #[trigger] whole[i];
                        &&& piece.1.len() > 0
                        &&& !contains(piece.1, tag_for(piece.0))
                    } by {
                        if i > 0 {
                            assert(whole[i] == tail[i - 1]);
                        }
                    }
                } else {
                    assert(think_split(s, in_think).0 == tail);
                }
            },
            None => {
                assert(think_split(s, in_think).0 == seq![(in_think, s)]);
            },
        }
    }
}

/// Text with no `"<think>"`, read outside reasoning, is all reply: one piece, unchanged.
pub proof fn lemma_think_split_plain(s: Seq<char>)
    requires
        !contains(s, open_tag()),
    ensures
        think_split(s, false).1 == false,
        reply_text(think_split(s, false).0) == s,
        think_split(s, false).0 == (if s.len() > 0 {
            seq![(false, s)]
        } else {
            Seq::<(bool, Seq<char>)>::empty()
        }),
{
    lemma_find(s, open_tag());
    if s.len() > 0 {
        lemma_reply_text_single((false, s));
    }
}

/// Text with no `"</think>"`, read inside reasoning, is all reasoning: it adds no reply text
/// and the stream stays inside reasoning.
pub proof fn lemma_think_split_unclosed(s: Seq<char>)
    requires
        !contains(s, close_tag()),
    ensures
        think_split(s, true).1 == true,
        reply_text(think_split(s, true).0) == Seq::<char>::empty(),
{
    lemma_find(s, close_tag());
    if s.len() > 0 {
        lemma_reply_text_single((true, s));
    }
}

/// An occurrence of `pat` in `s` begins before `cut` and ends after it.
pub open spec fn crosses(s: Seq<char>, pat: Seq<char>, cut: int) -> bool {
    exists|i: int| i < cut < i + pat.len() && #[trigger] occurs_at(s, pat, i)
}

/// No `"<think>"` or `"</think>"` of `c1 + c2` is cut in two between `c1` and `c2`.
pub open spec fn no_tag_crosses(c1: Seq<char>, c2: Seq<char>) -> bool {
    &&& !crosses(c1 + c2, open_tag(), c1.len() as int)
    &&& !crosses(c1 + c2, close_tag(), c1.len() as int)
}

proof fn lemma_occurs_skip(s: Seq<char>, pat: Seq<char>, d: int, i: int)
    requires
        0 <= d <= s.len(),
        0 <= i,
    ensures
        occurs_at(s.skip(d), pat, i) == occurs_at(s, pat, i + d),
{
    if i + pat.len() <= s.len() - d {
        assert(s.skip(d).subrange(i, i + pat.len()) =~= s.subrange(i + d, i + d + pat.len()));
    }
}

proof fn lemma_occurs_prefix(c1: Seq<char>, c2: Seq<char>, pat: Seq<char>, j: int)
    requires
        0 <= j,
        j + pat.len() <= c1.len(),
    ensures
        occurs_at(c1, pat, j) == occurs_at(c1 + c2, pat, j),
{
    assert((c1 + c2).subrange(j, j + pat.len()) =~= c1.subrange(j, j + pat.len()));
}

/// `find` gives `k` when `pat` occurs at `k` and nowhere before it.
proof fn lemma_find_is(s: Seq<char>, pat: Seq<char>, k: int)
    requires
        occurs_at(s, pat, k),
        forall|j: int| 0 <= j < k ==> !occurs_at(s, pat, j),
    ensures
        find(s, pat) == Some(k),
{
    lemma_find(s, pat);
    assert(contains(s, pat));
    let f = find(s, pat)->0;
    if f < k {
        assert(occurs_at(s, pat, f));
    } else if f > k {
        assert(!occurs_at(s, pat, k));
    }
}

/// Cutting `c1 + c2` after `d` characters of `c1` keeps tags from crossing the cut.
proof fn lemma_no_tag_crosses_skip(c1: Seq<char>, c2: Seq<char>, d: int)
    requires
        no_tag_crosses(c1, c2),
        0 <= d <= c1.len(),
    ensures
        no_tag_crosses(c1.skip(d), c2),
{
    let s = c1 + c2;
    let r = c1.skip(d);
    assert(s.skip(d) =~= r + c2);
    assert forall|i: int| i < r.len() < i + open_tag().len() implies !#[trigger] occurs_at(
        r + c2,
        open_tag(),
        i,
    ) by {
        if i >= 0 {
            lemma_occurs_skip(s, open_tag(), d, i);
        }
    }
    assert forall|i: int| i < r.len() < i + close_tag().len() implies !#[trigger] occurs_at(
        r + c2,
        close_tag(),
        i,
    ) by {
        if i >= 0 {
            lemma_occurs_skip(s, close_tag(), d, i);
        }
    }
}

/// Filtering reasoning tags is independent of how the text is cut into pieces, as long
/// as no tag is cut in two: splitting `c1`, then `c2` from the state `c1` left, ends in
/// the same state and gives, for each kind, the same concatenated text as splitting
/// `c1 + c2` at once. So two calls of `emit_content` on `c1` and `c2` leave the same
/// `in_think` and `full_content`, and send the same reasoning and reply text, as one
/// call on `c1 + c2`.
pub proof fn lemma_think_split_chunking(c1: Seq<char>, c2: Seq<char>, in_think: bool)
    requires
        no_tag_crosses(c1, c2),
    ensures
        think_split(c1 + c2, in_think).1 == think_split(c2, think_split(c1, in_think).1).1,
        forall|thinking: bool|
            #[trigger] kind_text(think_split(c1 + c2, in_think).0, thinking) == kind_text(
                think_split(c1, in_think).0,
                thinking,
            ) + kind_text(think_split(c2, think_split(c1, in_think).1).0, thinking),
    decreases c1.len(),
{
    let s = c1 + c2;
    let tag = tag_for(in_think);
    assert(tag.len() > 0);
    let first = think_split(c1, in_think);
    let whole = think_split(s, in_think);
    if c1.len() == 0 {
        assert(s =~= c2);
        assert forall|thinking: bool|
            #[trigger] kind_text(whole.0, thinking) == kind_text(first.0, thinking) + kind_text(
                think_split(c2, first.1).0,
                thinking,
            ) by {
            assert(kind_text(first.0, thinking) =~= Seq::<char>::empty());
            assert(Seq::<char>::empty() + kind_text(whole.0, thinking) =~= kind_text(
                whole.0,
                thinking,
            ));
        }
        return;
    }
    // An occurrence of the tag that starts in `c1` lies wholly in `c1`.
    assert forall|j: int| 0 <= j < c1.len() && occurs_at(s, tag, j) implies j + tag.len()
        <= c1.len() by {
        if j + tag.len() > c1.len() {
            if in_think {
                assert(crosses(s, close_tag(), c1.len() as int));
            } else {
                assert(crosses(s, open_tag(), c1.len() as int));
            }
        }
    }
    assert(s.skip(c1.len() as int) =~= c2);
    lemma_find(c1, tag);
    match find(c1, tag) {
        Some(p) => {
            lemma_occurs_prefix(c1, c2, tag, p);
            assert forall|j: int| 0 <= j < p implies !occurs_at(s, tag, j) by {
                if occurs_at(s, tag, j) {
                    lemma_occurs_prefix(c1, c2, tag, j);
                }
            }
            lemma_find_is(s, tag, p);
            let d = p + tag.len();
            let r1 = c1.skip(d);
            assert(s.skip(d) =~= r1 + c2);
            assert(s.take(p) =~= c1.take(p));
            lemma_no_tag_crosses_skip(c1, c2, d);
            lemma_think_split_chunking(r1, c2, !in_think);
            let head: Seq<(bool, Seq<char>)> = if p > 0 {
                seq![(in_think, c1.take(p))]
            } else {
                seq![]
            };
            let rest_whole = think_split(r1 + c2, !in_think);
            let rest_first = think_split(r1, !in_think);
            let second = think_split(c2, rest_first.1);
            assert(whole == (head + rest_whole.0, rest_whole.1));
            assert(first == (head + rest_first.0, rest_first.1));
            assert forall|thinking: bool|
                #[trigger] kind_text(whole.0, thinking) == kind_text(first.0, thinking) + kind_text(
                    second.0,
                    thinking,
                ) by {
                lemma_kind_text_append(head, rest_whole.0, thinking);
                lemma_kind_text_append(head, rest_first.0, thinking);
                assert(kind_text(rest_whole.0, thinking) == kind_text(rest_first.0, thinking)
                    + kind_text(second.0, thinking));
                assert(kind_text(head, thinking) + (kind_text(rest_first.0, thinking) + kind_text(
                    second.0,
                    thinking,
                )) =~= kind_text(head, thinking) + kind_text(rest_first.0, thinking) + kind_text(
                    second.0,
                    thinking,
                ));
            }
        },
        None => {
            assert(first == (seq![(in_think, c1)], in_think));
            // No occurrence starts in `c1`.
            assert forall|j: int| 0 <= j < c1.len() implies !occurs_at(s, tag, j) by {
                if occurs_at(s, tag, j) {
                    lemma_occurs_prefix(c1, c2, tag, j);
                    assert(occurs_at(c1, tag, j));
                }
            }
            lemma_find(c2, tag);
            let second = think_split(c2, in_think);
            match find(c2, tag) {
                Some(q) => {
                    let k = q + c1.len();
                    lemma_occurs_skip(s, tag, c1.len() as int, q);
                    assert forall|j: int| 0 <= j < k implies !occurs_at(s, tag, j) by {
                        if j >= c1.len() && occurs_at(s, tag, j) {
                            lemma_occurs_skip(s, tag, c1.len() as int, j - c1.len());
                        }
                    }
                    lemma_find_is(s, tag, k);
                    let d = k + tag.len();
                    let rest = c2.skip(q + tag.len());
                    assert(s.skip(d) =~= rest);
                    assert(s.take(k) =~= c1 + c2.take(q));
                    let tail = think_split(rest, !in_think);
                    let head2: Seq<(bool, Seq<char>)> = if q > 0 {
                        seq![(in_think, c2.take(q))]
                    } else {
                        seq![]
                    };
                    assert(whole == (seq![(in_think, c1 + c2.take(q))] + tail.0, tail.1));
                    assert(second == (head2 + tail.0, tail.1));
                    assert forall|thinking: bool|
                        #[trigger] kind_text(whole.0, thinking) == kind_text(first.0, thinking)
                            + kind_text(second.0, thinking) by {
                        lemma_kind_text_append(seq![(in_think, c1 + c2.take(q))], tail.0, thinking);
                        lemma_kind_text_append(head2, tail.0, thinking);
                        lemma_kind_text_single((in_think, c1 + c2.take(q)), thinking);
                        lemma_kind_text_single((in_think, c1), thinking);
                        if q > 0 {
                            lemma_kind_text_single((in_think, c2.take(q)), thinking);
                        } else {
                            assert(c2.take(q) =~= Seq::<char>::empty());
                            assert(kind_text(head2, thinking) =~= Seq::<char>::empty());
                        }
                        if in_think == thinking {
                            assert(kind_text(whole.0, thinking) =~= c1 + kind_text(
                                second.0,
                                thinking,
                            ));
                        } else {
                            assert(kind_text(whole.0, thinking) =~= Seq::<char>::empty()
                                + kind_text(second.0, thinking));
                        }
                    }
                },
                None => {
                    assert forall|j: int| 0 <= j implies !occurs_at(s, tag, j) by {
                        if j >= c1.len() && occurs_at(s, tag, j) {
                            lemma_occurs_skip(s, tag, c1.len() as int, j - c1.len());
                        }
                    }
                    lemma_find(s, tag);
                    assert(find(s, tag) is None);
                    assert(whole == (seq![(in_think, s)], in_think));
                    assert forall|thinking: bool|
                        #[trigger] kind_text(whole.0, thinking) == kind_text(first.0, thinking)
                            + kind_text(second.0, thinking) by {
                        lemma_kind_text_single((in_think, s), thinking);
                        lemma_kind_text_single((in_think, c1), thinking);
                        if c2.len() > 0 {
                            assert(second == (seq![(in_think, c2)], in_think));
                            lemma_kind_text_single((in_think, c2), thinking);
                        } else {
                            assert(s =~= c1);
                        }
                        assert(kind_text(first.0, thinking) + kind_text(second.0, thinking)
                            =~= kind_text(whole.0, thinking));
                    }
                },
            }
        },
    }
}

/// `find` in a suffix, counted from the start of the whole sequence.
pub proof fn lemma_find_from_skip(s: Seq<char>, pat: Seq<char>, pos: int, j: int)
    requires
        0 <= pos <= s.len(),
        0 <= j,
    ensures
        find_from(s, pat, pos + j) == (match find_from(s.skip(pos), pat, j) {
            Some(k) => Some(k + pos),
            None => None,
        }),
    decreases s.len() + 1 - (pos + j),
{
    let t = s.skip(pos);
    if pos + j + pat.len() > s.len() {
    } else {
        assert(s.subrange(pos + j, pos + j + pat.len()) =~= t.subrange(j, j + pat.len()));
        if !occurs_at(s, pat, pos + j) {
            lemma_find_from_skip(s, pat, pos, j + 1);
        }
    }
}

/// Splits `content` at its reasoning tags, starting inside reasoning or not.
/// Returns the pieces and whether the text ends inside reasoning.
pub fn split_think(content: &str, in_think: bool) -> (r: (Vec<StreamMessage>, bool))
    ensures
        (messages_view(r.0@), r.1) == think_split(content@, in_think),
{
    let v = chars_of(content);
    let open: Vec<char> = vec!['<', 't', 'h', 'i', 'n', 'k', '>'];
    let close: Vec<char> = vec!['<', '/', 't', 'h', 'i', 'n', 'k', '>'];
    assert(open@ =~= open_tag());
    assert(close@ =~= close_tag());
    let mut out: Vec<StreamMessage> = Vec::new();
    let mut state = in_think;
    let mut pos: usize = 0;
    proof {
        assert(v@.skip(0) =~= v@);
        assert(messages_view(out@) + think_split(v@, in_think).0 =~= think_split(v@, in_think).0);
    }
    while pos < v.len()
        invariant
            v@ == content@,
            open@ == open_tag(),
            close@ == close_tag(),
            pos <= v@.len(),
            think_split(content@, in_think) == (
                messages_view(out@) + think_split(v@.skip(pos as int), state).0,
                think_split(v@.skip(pos as int), state).1,
            ),
        decreases v@.len() - pos,
    {
        let ghost rem = v@.skip(pos as int);
        let ghost before = out@;
        let tag = if state {
            &close
        } else {
            &open
        };
        let found = find_from_exec(&v, tag, pos);
        proof {
            lemma_find_from_skip(v@, tag@, pos as int, 0);
            lemma_find(rem, tag@);
        }
        match found {
            Some(k) => {
                let p = k - pos;
                proof {
                    assert(find(rem, tag@) == Some(p as int));
                    assert(rem.skip(p + tag@.len()) =~= v@.skip(k + tag@.len()));
                }
                if p > 0 {
                    let piece = substring(content, pos, k);
                    assert(piece@ =~= rem.take(p as int));
                    if state {
                        out.push(StreamMessage::Thinking(piece));
                    } else {
                        out.push(StreamMessage::Content(piece));
                    }
                    proof {
                        assert(messages_view(out@) =~= messages_view(before) + seq![
                            (state, rem.take(p as int)),
                        ]);
                    }
                }
                pos = k + tag.len();
                state = !state;
            },
            None => {
                let piece = substring(content, pos, v.len());
                assert(piece@ =~= rem);
                if state {
                    out.push(StreamMessage::Thinking(piece));
                } else {
                    out.push(StreamMessage::Content(piece));
                }
                proof {
                    assert(messages_view(out@) =~= messages_view(before) + seq![(state, rem)]);
                    assert(v@.skip(v@.len() as int) =~= Seq::<char>::empty());
                }
                pos = v.len();
            },
        }
    }
    proof {
        assert(v@.skip(pos as int) =~= Seq::<char>::empty());
        assert(messages_view(out@) + Seq::<(bool, Seq<char>)>::empty() =~= messages_view(out@));
    }
    (out, state)
}

/// `"data: "`, the prefix of an event's data line.
pub open spec fn data_prefix() -> Seq<char> {
    seq!['d', 'a', 't', 'a', ':', ' ']
}

/// `"[DONE]"`, the data that ends the stream.
pub open spec fn done_marker() -> Seq<char> {
    seq!['[', 'D', 'O', 'N', 'E', ']']
}

/// One line of the event stream, after trimming.
pub enum SseLine {
    /// Not a data line: empty, a `':'` comment, or any other field. Nothing to do.
    Skip,
    /// `data: [DONE]`: the reply is complete.
    Done,
    /// The payload of a data line, a JSON chunk of the reply.
    Data(String),
}

/// The data line that `line` is, if it is one.
pub open spec fn is_data_line(line: Seq<char>) -> bool {
    starts_with(line, data_prefix())
}

/// The payload of a data line.
pub open spec fn data_payload(line: Seq<char>) -> Seq<char> {
    line.skip(6)
}

/// Classifies a trimmed line of the event stream.
pub fn classify_sse_line(line: &str) -> (r: SseLine)
    ensures
        (r is Skip) == !is_data_line(line@),
        (r is Done) == (is_data_line(line@) && trim(data_payload(line@)) == done_marker()),
        r matches SseLine::Data(d) ==> is_data_line(line@) && d@ == data_payload(line@) && trim(
            data_payload(line@),
        ) != done_marker(),
{
    let v = chars_of(line);
    let prefix: Vec<char> = vec!['d', 'a', 't', 'a', ':', ' '];
    assert(prefix@ =~= data_prefix());
    let is_data = crate::text::occurs_at_exec(&v, &prefix, 0);
    if !is_data {
        return SseLine::Skip;
    }
    let data = substring(line, 6, v.len());
    assert(data@ =~= data_payload(line@));
    let t = trim_str(data.as_str());
    let tv = chars_of(t.as_str());
    let done: Vec<char> = vec!['[', 'D', 'O', 'N', 'E', ']'];
    assert(done@ =~= done_marker());
    let same = tv.len() == 6 && crate::text::occurs_at_exec(&tv, &done, 0);
    proof {
        if tv@.len() == 6 {
            assert(tv@.subrange(0, 6) =~= tv@);
        }
    }
    if same {
        SseLine::Done
    } else {
        SseLine::Data(data)
    }
}

/// The state of one streamed reply: bytes received but not yet split into lines,
/// whether the model is inside `<think>`, and the reply text so far.
pub struct StreamState {
    pub buffer: String,
    pub in_think: bool,
    pub full_content: String,
}

impl StreamState {
    pub fn new() -> (st: StreamState)
        ensures
            st.buffer@ == Seq::<char>::empty(),
            !st.in_think,
            st.full_content@ == Seq::<char>::empty(),
    {
        StreamState { buffer: String::new(), in_think: false, full_content: String::new() }
    }

    /// Appends received text to the line buffer.
    pub fn push_text(&mut self, chunk: &str)
        ensures
            final(self).buffer@ == old(self).buffer@ + chunk@,
            final(self).in_think == old(self).in_think,
            final(self).full_content == old(self).full_content,
    {
        self.buffer.append(chunk);
    }

    /// Appends received bytes, decoded as `String::from_utf8_lossy` does.
    pub fn push_bytes(&mut self, chunk: &[u8])
        ensures
            final(self).buffer@ == old(self).buffer@ + utf8_lossy(chunk@),
            final(self).in_think == old(self).in_think,
            final(self).full_content == old(self).full_content,
    {
        let text = decode_utf8_lossy(chunk);
        self.buffer.append(text.as_str());
    }

    /// Takes the next complete line off the buffer and classifies it. Returns `None`,
    /// and leaves the buffer as it is, when the buffer holds no `'\n'`.
    pub fn next_line(&mut self) -> (r: Option<SseLine>)
        ensures
            final(self).in_think == old(self).in_think,
            final(self).full_content == old(self).full_content,
            r is None <==> next_newline(old(self).buffer@, 0) == old(self).buffer@.len(),
            r is None ==> final(self).buffer == old(self).buffer,
            r is Some ==> {
                let p = next_newline(old(self).buffer@, 0);
                let line = trim(old(self).buffer@.take(p));
                &&& final(self).buffer@ == old(self).buffer@.skip(p + 1)
                &&& (r == Some(SseLine::Skip)) == !is_data_line(line)
                &&& (r == Some(SseLine::Done)) == (is_data_line(line) && trim(data_payload(line))
                    == done_marker())
                &&& r matches Some(SseLine::Data(d)) ==> is_data_line(line) && d@ == data_payload(
                    line,
                ) && trim(data_payload(line)) != done_marker()
            },
    {
        let v = chars_of(self.buffer.as_str());
        let p = next_newline_exec(&v, 0);
        if p == v.len() {
            return None;
        }
        let raw = substring(self.buffer.as_str(), 0, p);
        let rest = substring(self.buffer.as_str(), p + 1, v.len());
        assert(raw@ =~= v@.take(p as int));
        assert(rest@ =~= v@.skip(p + 1));
        let line = trim_str(raw.as_str());
        self.buffer = rest;
        let kind = classify_sse_line(line.as_str());
        Some(kind)
    }

    /// Filters one piece of reply content: text inside `<think>…</think>` becomes
    /// reasoning, the rest is reply text and is added to `full_content`.
    pub fn emit_content(&mut self, content: &str) -> (msgs: Vec<StreamMessage>)
        ensures
            (messages_view(msgs@), final(self).in_think) == think_split(content@, old(self).in_think),
            final(self).full_content@ == old(self).full_content@ + reply_text(messages_view(msgs@)),
            final(self).buffer == old(self).buffer,
    {
        let (msgs, state) = split_think(content, self.in_think);
        self.in_think = state;
        let mut i: usize = 0;
        let ghost start = self.full_content@;
        let ghost buf = self.buffer;
        let ghost mv = messages_view(msgs@);
        proof {
            assert(mv.take(0) =~= Seq::<(bool, Seq<char>)>::empty());
            assert(start + reply_text(mv.take(0)) =~= start);
        }
        while i < msgs.len()
            invariant
                i <= msgs@.len(),
                mv == messages_view(msgs@),
                self.full_content@ == start + reply_text(mv.take(i as int)),
                self.in_think == state,
                self.buffer == buf,
            decreases msgs@.len() - i,
        {
            assert(mv[i as int] == msgs@[i as int]@);
            proof {
                assert(mv.take(i + 1) =~= mv.take(i as int) + seq![mv[i as int]]);
                lemma_reply_text_append(mv.take(i as int), seq![mv[i as int]]);
                lemma_reply_text_single(mv[i as int]);
            }
            match &msgs[i] {
                StreamMessage::Content(t) => {
                    self.full_content.append(t.as_str());
                },
                StreamMessage::Thinking(_) => {
                },
            }
            i = i + 1;
        }
        assert(mv.take(msgs@.len() as int) =~= mv);
        msgs
    }

    /// Handles the delta of one choice of a chunk: `reasoning_content` (as some
    /// providers send it) becomes reasoning, `content` goes through the `<think>` filter.
    /// Empty fields are ignored.
    pub fn apply_delta(&mut self, reasoning: Option<String>, content: Option<String>) -> (msgs:
        Vec<StreamMessage>)
        ensures
            final(self).buffer == old(self).buffer,
            ({
                let lead: Seq<(bool, Seq<char>)> = match reasoning {
                    Some(r) => if r@.len() > 0 {
                        seq![(true, r@)]
                    } else {
                        seq![]
                    },
                    None => seq![],
                };
                match content {
                    Some(c) => if c@.len() > 0 {
                        let split = think_split(c@, old(self).in_think);
                        &&& messages_view(msgs@) == lead + split.0
                        &&& final(self).in_think == split.1
                        &&& final(self).full_content@ == old(self).full_content@ + reply_text(
                            split.0,
                        )
                    } else {
                        &&& messages_view(msgs@) == lead
                        &&& final(self).in_think == old(self).in_think
                        &&& final(self).full_content == old(self).full_content
                    },
                    None => {
                        &&& messages_view(msgs@) == lead
                        &&& final(self).in_think == old(self).in_think
                        &&& final(self).full_content == old(self).full_content
                    },
                }
            }),
    {
        let mut out: Vec<StreamMessage> = Vec::new();
        match reasoning {
            Some(r) => {
                if !r.as_str().is_empty() {
                    out.push(StreamMessage::Thinking(r));
                }
            },
            None => {},
        }
        let ghost lead = messages_view(out@);
        match content {
            Some(c) => {
                if !c.as_str().is_empty() {
                    let mut more = self.emit_content(c.as_str());
                    let ghost mm = messages_view(more@);
                    out.append(&mut more);
                    assert(messages_view(out@) =~= lead + mm);
                }
            },
            None => {},
        }
        proof {
            if out@.len() == 0 {
                assert(messages_view(out@) =~= Seq::<(bool, Seq<char>)>::empty());
            }
        }
        out
    }

    /// The reply: the reply text with surrounding whitespace removed.
    pub fn finish(&self) -> (reply: String)
        ensures
            reply@ == trim(self.full_content@),
    {
        trim_str(self.full_content.as_str())
    }
}

/// Instructions for writing a reply on the user's behalf from the OCR text of a chat.
pub const SYSTEM_PROMPT_REPLY: &'static str = r#"你是一个聊天回复助手。用户提供聊天截屏的 OCR 文本，请代替用户生成一条回复。

OCR 文本格式说明：
- 每行前面有标记表示消息来自哪一侧：
  - "←" = 左侧消息 = 对方发的
  - "→" = 右侧消息 = 用户自己发的
  - "·" = 居中内容 = 时间戳或系统消息
- 需要忽略的内容（不是聊天消息）：
  - 底部工具栏：Send、New Line、Please enter a message、Watermark、Group Check 等
  - QQ群右侧面板：群聊成员、群主、管理员、成员昵称列表
  - 图标文字：emoji符号、◎、②、④ 等
  - All Read、Unread 等状态标记

你的任务：
- 只关注真实的聊天消息（←和→标记的有意义的文字）
- 根据标记判断谁是对方（←），谁是用户（→）
- 找到对方最近的消息，代替用户生成回复
- 如果提供了"用户说话风格画像"，严格模仿该风格（用词、语气、长度）
- 如果提供了"用户之前的回复风格参考"，参考其用词习惯
- 语言与聊天一致，简洁自然，1-2 句话
- 只输出回复内容本身，不要加任何前缀或解释"#;

/// What precedes the OCR text in the user's turn.
pub const REPLY_USER_PREFIX: &'static str = "以下是聊天截屏的 OCR 文本：\n\n";

/// The conversation sent to the model to draft a reply.
pub fn reply_messages(request: &LlmRequest) -> (msgs: Vec<ChatMessage>)
    ensures
        msgs@.len() == 2,
        msgs@[0].role@ == ROLE_SYSTEM@,
        msgs@[0].content@ == SYSTEM_PROMPT_REPLY@,
        msgs@[1].role@ == ROLE_USER@,
        msgs@[1].content@ == REPLY_USER_PREFIX@ + request.current_context@,
{
    let mut user = String::from_str(REPLY_USER_PREFIX);
    user.append(request.current_context.as_str());
    system_and_user(SYSTEM_PROMPT_REPLY, user)
}

/// The complete lines of a buffer, without their `'\n'`, and what is left after the
/// last `'\n'`.
pub open spec fn complete_lines(s: Seq<char>) -> (Seq<Seq<char>>, Seq<char>)
    decreases s.len(),
{
    let p = next_newline(s, 0);
    if p >= s.len() {
        (seq![], s)
    } else {
        proof {
            crate::text::lemma_next_newline(s, 0);
        }
        let rest = complete_lines(s.skip(p + 1));
        (seq![s.take(p)] + rest.0, rest.1)
    }
}

proof fn lemma_next_newline_concat(a: Seq<char>, b: Seq<char>, i: int)
    requires
        0 <= i,
        next_newline(a, i) < a.len(),
    ensures
        next_newline(a + b, i) == next_newline(a, i),
    decreases a.len() - i,
{
    if i < a.len() && a[i] != '\n' {
        assert((a + b)[i] == a[i]);
        lemma_next_newline_concat(a, b, i + 1);
    } else if i < a.len() {
        assert((a + b)[i] == a[i]);
    }
}

/// The lines of a stream do not depend on how it is cut into chunks: the lines of
/// `a + b` are the lines of `a`, then the lines of what `a` left over followed by `b`.
pub proof fn lemma_complete_lines_chunking(a: Seq<char>, b: Seq<char>)
    ensures
        complete_lines(a + b) == (
            complete_lines(a).0 + complete_lines(complete_lines(a).1 + b).0,
            complete_lines(complete_lines(a).1 + b).1,
        ),
    decreases a.len(),
{
    crate::text::lemma_next_newline(a, 0);
    let p = next_newline(a, 0);
    if p >= a.len() {
        assert(complete_lines(a) == (Seq::<Seq<char>>::empty(), a));
        assert(Seq::<Seq<char>>::empty() + complete_lines(a + b).0 =~= complete_lines(a + b).0);
    } else {
        lemma_next_newline_concat(a, b, 0);
        let a2 = a.skip(p + 1);
        assert((a + b).take(p) =~= a.take(p));
        assert((a + b).skip(p + 1) =~= a2 + b);
        lemma_complete_lines_chunking(a2, b);
        crate::text::lemma_next_newline(a + b, 0);
        assert(complete_lines(a + b) == (seq![a.take(p)] + complete_lines(a2 + b).0, complete_lines(
            a2 + b,
        ).1));
        assert(complete_lines(a) == (seq![a.take(p)] + complete_lines(a2).0, complete_lines(a2).1));
        assert(seq![a.take(p)] + complete_lines(a2).0 + complete_lines(complete_lines(a2).1 + b).0
            =~= seq![a.take(p)] + (complete_lines(a2).0 + complete_lines(complete_lines(a2).1
            + b).0));
    }
}

/// Taking a line off the buffer is the first step of `complete_lines`: the line is
/// the first complete line, and the buffer keeps the rest.
pub proof fn lemma_next_line_is_first_line(s: Seq<char>)
    requires
        next_newline(s, 0) < s.len(),
    ensures
        complete_lines(s).0.len() > 0,
        complete_lines(s).0[0] == s.take(next_newline(s, 0)),
        complete_lines(s).0.drop_first() == complete_lines(s.skip(next_newline(s, 0) + 1)).0,
        complete_lines(s).1 == complete_lines(s.skip(next_newline(s, 0) + 1)).1,
{
    let p = next_newline(s, 0);
    let rest = complete_lines(s.skip(p + 1));
    assert((seq![s.take(p)] + rest.0).drop_first() =~= rest.0);
}

} // verus!
