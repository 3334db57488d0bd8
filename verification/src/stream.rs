//! The streaming response pipeline: SSE data-line assembly, the thinking
//! filter that suppresses `<think>…</think>` spans (also across chunk
//! boundaries), the newline splitter, and per-line response emission with a
//! reply reference on the first line only.

use vstd::prelude::*;
use crate::event::{BotTurnCompletion, Platform, RawEvent, ResponseEvent, ResponseSource};
use crate::text::{trim_spec, trim_chars, str_to_chars, string_from_chars};

verus! {

/// The opening tag whose span is suppressed.
pub open spec fn open_tag() -> Seq<char> {
    seq!['<', 't', 'h', 'i', 'n', 'k', '>']
}

/// The closing tag that ends a suppressed span.
pub open spec fn close_tag() -> Seq<char> {
    seq!['<', '/', 't', 'h', 'i', 'n', 'k', '>']
}

/// The filter's state: whether we are inside a think span, and how many
/// characters of the candidate tag have been matched so far.
#[derive(Debug, Clone, Copy, PartialEq, Eq, Structural)]
pub struct FilterState {
    pub thinking: bool,
    pub partial: usize,
}

impl FilterState {
    /// The partial match never reaches the tag length.
    pub open spec fn wf(&self) -> bool {
        self.partial < (if self.thinking {
            close_tag().len()
        } else {
            open_tag().len()
        })
    }

    /// The initial state: outside a span, nothing matched.
    pub open spec fn spec_init() -> FilterState {
        FilterState { thinking: false, partial: 0 }
    }
}

/// One character through the filter: returns the next state and the text
/// made visible by this character. Inside a think span nothing is ever made
/// visible; outside, a partial tag match is withheld until it either
/// completes (and is dropped) or fails (and is flushed).
pub open spec fn filter_step(st: FilterState, c: char) -> (FilterState, Seq<char>) {
    if !st.thinking {
        let tag = open_tag();
        if c == tag[st.partial as int] {
            if st.partial + 1 == tag.len() {
                (FilterState { thinking: true, partial: 0 }, Seq::empty())
            } else {
                (FilterState { thinking: false, partial: (st.partial + 1) as usize }, Seq::empty())
            }
        } else if c == '<' {
            (FilterState { thinking: false, partial: 1 }, tag.take(st.partial as int))
        } else {
            (
                FilterState { thinking: false, partial: 0 },
                tag.take(st.partial as int) + seq![c],
            )
        }
    } else {
        let tag = close_tag();
        if c == tag[st.partial as int] {
            if st.partial + 1 == tag.len() {
                (FilterState { thinking: false, partial: 0 }, Seq::empty())
            } else {
                (FilterState { thinking: true, partial: (st.partial + 1) as usize }, Seq::empty())
            }
        } else if c == '<' {
            (FilterState { thinking: true, partial: 1 }, Seq::empty())
        } else {
            (FilterState { thinking: true, partial: 0 }, Seq::empty())
        }
    }
}

/// The filter over a whole string of input characters.
pub open spec fn filter_run(st: FilterState, s: Seq<char>) -> (FilterState, Seq<char>)
    decreases s.len(),
{
    if s.len() == 0 {
        (st, Seq::empty())
    } else {
        let first = filter_step(st, s[0]);
        let rest = filter_run(first.0, s.drop_first());
        (rest.0, first.1 + rest.1)
    }
}

/// What the filter still owes at end of stream: a failed partial tag match
/// outside a span is ordinary text; anything withheld inside a span stays
/// suppressed.
pub open spec fn filter_finish(st: FilterState) -> Seq<char> {
    if !st.thinking {
        open_tag().take(st.partial as int)
    } else {
        Seq::empty()
    }
}

/// Splitting the input anywhere between two chunks changes nothing: running
/// the filter over `a + b` equals running it over `a`, then over `b` from
/// the reached state. A `<think>…</think>` span crossing a chunk boundary is
/// therefore suppressed exactly as if it had arrived whole.
pub proof fn lemma_filter_chunking(st: FilterState, a: Seq<char>, b: Seq<char>)
    ensures
        filter_run(st, a + b).0 == filter_run(filter_run(st, a).0, b).0,
        filter_run(st, a + b).1 == filter_run(st, a).1 + filter_run(
            filter_run(st, a).0,
            b,
        ).1,
    decreases a.len(),
{
    if a.len() == 0 {
        assert(a + b =~= b);
        assert(filter_run(st, a).1 + filter_run(filter_run(st, a).0, b).1 =~= filter_run(
            st,
            b,
        ).1);
    } else {
        let first = filter_step(st, a[0]);
        assert((a + b).drop_first() =~= a.drop_first() + b);
        lemma_filter_chunking(first.0, a.drop_first(), b);
        assert(first.1 + (filter_run(first.0, a.drop_first()).1 + filter_run(
            filter_run(first.0, a.drop_first()).0,
            b,
        ).1) =~= (first.1 + filter_run(first.0, a.drop_first()).1) + filter_run(
            filter_run(first.0, a.drop_first()).0,
            b,
        ).1);
    }
}

/// While the filter is inside a think span it emits nothing, whatever
/// arrives, until the closing tag completes: a single step from a thinking
/// state is always silent.
pub proof fn lemma_thinking_is_silent(st: FilterState, c: char)
    requires
        st.thinking,
    ensures
        filter_step(st, c).1 == Seq::<char>::empty(),
{
}

proof fn lemma_open_tag_from_init()
    ensures
        filter_run(FilterState::spec_init(), open_tag()).0 == (FilterState {
            thinking: true,
            partial: 0,
        }),
        filter_run(FilterState::spec_init(), open_tag()).1 == Seq::<char>::empty(),
{
    let s0: Seq<char> = seq!['<', 't', 'h', 'i', 'n', 'k', '>'];
    let s1: Seq<char> = seq!['t', 'h', 'i', 'n', 'k', '>'];
    let s2: Seq<char> = seq!['h', 'i', 'n', 'k', '>'];
    let s3: Seq<char> = seq!['i', 'n', 'k', '>'];
    let s4: Seq<char> = seq!['n', 'k', '>'];
    let s5: Seq<char> = seq!['k', '>'];
    let s6: Seq<char> = seq!['>'];
    let s7: Seq<char> = Seq::<char>::empty();
    assert(s0 =~= open_tag());
    assert(s0.drop_first() =~= s1);
    assert(filter_step(FilterState { thinking: false, partial: 0 }, '<') == (FilterState { thinking: false, partial: 1 }, Seq::<char>::empty()));
    assert(s1.drop_first() =~= s2);
    assert(filter_step(FilterState { thinking: false, partial: 1 }, 't') == (FilterState { thinking: false, partial: 2 }, Seq::<char>::empty()));
    assert(s2.drop_first() =~= s3);
    assert(filter_step(FilterState { thinking: false, partial: 2 }, 'h') == (FilterState { thinking: false, partial: 3 }, Seq::<char>::empty()));
    assert(s3.drop_first() =~= s4);
    assert(filter_step(FilterState { thinking: false, partial: 3 }, 'i') == (FilterState { thinking: false, partial: 4 }, Seq::<char>::empty()));
    assert(s4.drop_first() =~= s5);
    assert(filter_step(FilterState { thinking: false, partial: 4 }, 'n') == (FilterState { thinking: false, partial: 5 }, Seq::<char>::empty()));
    assert(s5.drop_first() =~= s6);
    assert(filter_step(FilterState { thinking: false, partial: 5 }, 'k') == (FilterState { thinking: false, partial: 6 }, Seq::<char>::empty()));
    assert(s6.drop_first() =~= s7);
    assert(filter_step(FilterState { thinking: false, partial: 6 }, '>') == (FilterState { thinking: true, partial: 0 }, Seq::<char>::empty()));
    assert(filter_run(FilterState { thinking: true, partial: 0 }, s7).0 == FilterState { thinking: true, partial: 0 });
    assert(filter_run(FilterState { thinking: true, partial: 0 }, s7).1 =~= Seq::<char>::empty());
    assert(filter_run(FilterState { thinking: false, partial: 6 }, s6).0 == filter_run(FilterState { thinking: true, partial: 0 }, s7).0);
    assert(filter_run(FilterState { thinking: false, partial: 6 }, s6).1 =~= Seq::<char>::empty() + filter_run(FilterState { thinking: true, partial: 0 }, s7).1);
    assert(filter_run(FilterState { thinking: false, partial: 6 }, s6).1 =~= Seq::<char>::empty());
    assert(filter_run(FilterState { thinking: false, partial: 5 }, s5).0 == filter_run(FilterState { thinking: false, partial: 6 }, s6).0);
    assert(filter_run(FilterState { thinking: false, partial: 5 }, s5).1 =~= Seq::<char>::empty() + filter_run(FilterState { thinking: false, partial: 6 }, s6).1);
    assert(filter_run(FilterState { thinking: false, partial: 5 }, s5).1 =~= Seq::<char>::empty());
    assert(filter_run(FilterState { thinking: false, partial: 4 }, s4).0 == filter_run(FilterState { thinking: false, partial: 5 }, s5).0);
    assert(filter_run(FilterState { thinking: false, partial: 4 }, s4).1 =~= Seq::<char>::empty() + filter_run(FilterState { thinking: false, partial: 5 }, s5).1);
    assert(filter_run(FilterState { thinking: false, partial: 4 }, s4).1 =~= Seq::<char>::empty());
    assert(filter_run(FilterState { thinking: false, partial: 3 }, s3).0 == filter_run(FilterState { thinking: false, partial: 4 }, s4).0);
    assert(filter_run(FilterState { thinking: false, partial: 3 }, s3).1 =~= Seq::<char>::empty() + filter_run(FilterState { thinking: false, partial: 4 }, s4).1);
    assert(filter_run(FilterState { thinking: false, partial: 3 }, s3).1 =~= Seq::<char>::empty());
    assert(filter_run(FilterState { thinking: false, partial: 2 }, s2).0 == filter_run(FilterState { thinking: false, partial: 3 }, s3).0);
    assert(filter_run(FilterState { thinking: false, partial: 2 }, s2).1 =~= Seq::<char>::empty() + filter_run(FilterState { thinking: false, partial: 3 }, s3).1);
    assert(filter_run(FilterState { thinking: false, partial: 2 }, s2).1 =~= Seq::<char>::empty());
    assert(filter_run(FilterState { thinking: false, partial: 1 }, s1).0 == filter_run(FilterState { thinking: false, partial: 2 }, s2).0);
    assert(filter_run(FilterState { thinking: false, partial: 1 }, s1).1 =~= Seq::<char>::empty() + filter_run(FilterState { thinking: false, partial: 2 }, s2).1);
    assert(filter_run(FilterState { thinking: false, partial: 1 }, s1).1 =~= Seq::<char>::empty());
    assert(filter_run(FilterState { thinking: false, partial: 0 }, s0).0 == filter_run(FilterState { thinking: false, partial: 1 }, s1).0);
    assert(filter_run(FilterState { thinking: false, partial: 0 }, s0).1 =~= Seq::<char>::empty() + filter_run(FilterState { thinking: false, partial: 1 }, s1).1);
    assert(filter_run(FilterState { thinking: false, partial: 0 }, s0).1 =~= Seq::<char>::empty());
}

proof fn lemma_close_tag_from_inside()
    ensures
        filter_run(FilterState { thinking: true, partial: 0 }, close_tag()).0
            == FilterState::spec_init(),
        filter_run(FilterState { thinking: true, partial: 0 }, close_tag()).1 == Seq::<
            char,
        >::empty(),
{
    let s0: Seq<char> = seq!['<', '/', 't', 'h', 'i', 'n', 'k', '>'];
    let s1: Seq<char> = seq!['/', 't', 'h', 'i', 'n', 'k', '>'];
    let s2: Seq<char> = seq!['t', 'h', 'i', 'n', 'k', '>'];
    let s3: Seq<char> = seq!['h', 'i', 'n', 'k', '>'];
    let s4: Seq<char> = seq!['i', 'n', 'k', '>'];
    let s5: Seq<char> = seq!['n', 'k', '>'];
    let s6: Seq<char> = seq!['k', '>'];
    let s7: Seq<char> = seq!['>'];
    let s8: Seq<char> = Seq::<char>::empty();
    assert(s0 =~= close_tag());
    assert(s0.drop_first() =~= s1);
    assert(filter_step(FilterState { thinking: true, partial: 0 }, '<') == (FilterState { thinking: true, partial: 1 }, Seq::<char>::empty()));
    assert(s1.drop_first() =~= s2);
    assert(filter_step(FilterState { thinking: true, partial: 1 }, '/') == (FilterState { thinking: true, partial: 2 }, Seq::<char>::empty()));
    assert(s2.drop_first() =~= s3);
    assert(filter_step(FilterState { thinking: true, partial: 2 }, 't') == (FilterState { thinking: true, partial: 3 }, Seq::<char>::empty()));
    assert(s3.drop_first() =~= s4);
    assert(filter_step(FilterState { thinking: true, partial: 3 }, 'h') == (FilterState { thinking: true, partial: 4 }, Seq::<char>::empty()));
    assert(s4.drop_first() =~= s5);
    assert(filter_step(FilterState { thinking: true, partial: 4 }, 'i') == (FilterState { thinking: true, partial: 5 }, Seq::<char>::empty()));
    assert(s5.drop_first() =~= s6);
    assert(filter_step(FilterState { thinking: true, partial: 5 }, 'n') == (FilterState { thinking: true, partial: 6 }, Seq::<char>::empty()));
    assert(s6.drop_first() =~= s7);
    assert(filter_step(FilterState { thinking: true, partial: 6 }, 'k') == (FilterState { thinking: true, partial: 7 }, Seq::<char>::empty()));
    assert(s7.drop_first() =~= s8);
    assert(filter_step(FilterState { thinking: true, partial: 7 }, '>') == (FilterState { thinking: false, partial: 0 }, Seq::<char>::empty()));
    assert(filter_run(FilterState { thinking: false, partial: 0 }, s8).0 == FilterState { thinking: false, partial: 0 });
    assert(filter_run(FilterState { thinking: false, partial: 0 }, s8).1 =~= Seq::<char>::empty());
    assert(filter_run(FilterState { thinking: true, partial: 7 }, s7).0 == filter_run(FilterState { thinking: false, partial: 0 }, s8).0);
    assert(filter_run(FilterState { thinking: true, partial: 7 }, s7).1 =~= Seq::<char>::empty() + filter_run(FilterState { thinking: false, partial: 0 }, s8).1);
    assert(filter_run(FilterState { thinking: true, partial: 7 }, s7).1 =~= Seq::<char>::empty());
    assert(filter_run(FilterState { thinking: true, partial: 6 }, s6).0 == filter_run(FilterState { thinking: true, partial: 7 }, s7).0);
    assert(filter_run(FilterState { thinking: true, partial: 6 }, s6).1 =~= Seq::<char>::empty() + filter_run(FilterState { thinking: true, partial: 7 }, s7).1);
    assert(filter_run(FilterState { thinking: true, partial: 6 }, s6).1 =~= Seq::<char>::empty());
    assert(filter_run(FilterState { thinking: true, partial: 5 }, s5).0 == filter_run(FilterState { thinking: true, partial: 6 }, s6).0);
    assert(filter_run(FilterState { thinking: true, partial: 5 }, s5).1 =~= Seq::<char>::empty() + filter_run(FilterState { thinking: true, partial: 6 }, s6).1);
    assert(filter_run(FilterState { thinking: true, partial: 5 }, s5).1 =~= Seq::<char>::empty());
    assert(filter_run(FilterState { thinking: true, partial: 4 }, s4).0 == filter_run(FilterState { thinking: true, partial: 5 }, s5).0);
    assert(filter_run(FilterState { thinking: true, partial: 4 }, s4).1 =~= Seq::<char>::empty() + filter_run(FilterState { thinking: true, partial: 5 }, s5).1);
    assert(filter_run(FilterState { thinking: true, partial: 4 }, s4).1 =~= Seq::<char>::empty());
    assert(filter_run(FilterState { thinking: true, partial: 3 }, s3).0 == filter_run(FilterState { thinking: true, partial: 4 }, s4).0);
    assert(filter_run(FilterState { thinking: true, partial: 3 }, s3).1 =~= Seq::<char>::empty() + filter_run(FilterState { thinking: true, partial: 4 }, s4).1);
    assert(filter_run(FilterState { thinking: true, partial: 3 }, s3).1 =~= Seq::<char>::empty());
    assert(filter_run(FilterState { thinking: true, partial: 2 }, s2).0 == filter_run(FilterState { thinking: true, partial: 3 }, s3).0);
    assert(filter_run(FilterState { thinking: true, partial: 2 }, s2).1 =~= Seq::<char>::empty() + filter_run(FilterState { thinking: true, partial: 3 }, s3).1);
    assert(filter_run(FilterState { thinking: true, partial: 2 }, s2).1 =~= Seq::<char>::empty());
    assert(filter_run(FilterState { thinking: true, partial: 1 }, s1).0 == filter_run(FilterState { thinking: true, partial: 2 }, s2).0);
    assert(filter_run(FilterState { thinking: true, partial: 1 }, s1).1 =~= Seq::<char>::empty() + filter_run(FilterState { thinking: true, partial: 2 }, s2).1);
    assert(filter_run(FilterState { thinking: true, partial: 1 }, s1).1 =~= Seq::<char>::empty());
    assert(filter_run(FilterState { thinking: true, partial: 0 }, s0).0 == filter_run(FilterState { thinking: true, partial: 1 }, s1).0);
    assert(filter_run(FilterState { thinking: true, partial: 0 }, s0).1 =~= Seq::<char>::empty() + filter_run(FilterState { thinking: true, partial: 1 }, s1).1);
    assert(filter_run(FilterState { thinking: true, partial: 0 }, s0).1 =~= Seq::<char>::empty());
}

/// Whether the closing tag occurs nowhere in `s` as contiguous text: the
/// one hypothesis under which text counts as lying inside a think span.
pub open spec fn no_close_tag_in(s: Seq<char>) -> bool {
    forall|i: int|
        0 <= i <= s.len() - close_tag().len() ==> #[trigger] s.subrange(
            i,
            i + close_tag().len() as int,
        ) != close_tag()
}

/// Text without `<` cannot hold the closing tag, which starts with one.
pub proof fn lemma_no_angle_no_close(mid: Seq<char>)
    requires
        forall|i: int| 0 <= i < mid.len() ==> mid[i] != '<',
    ensures
        no_close_tag_in(mid),
{
    assert forall|i: int| 0 <= i <= mid.len() - close_tag().len() implies #[trigger] mid.subrange(
        i,
        i + close_tag().len() as int,
    ) != close_tag() by {
        assert(mid.subrange(i, i + close_tag().len() as int)[0] == mid[i]);
        assert(close_tag()[0] == '<');
        assert(mid[i] != '<');
    }
}

/// A suffix of closing-tag-free text is closing-tag-free.
proof fn lemma_no_close_suffix(s: Seq<char>, k: int)
    requires
        no_close_tag_in(s),
        0 <= k <= s.len(),
    ensures
        no_close_tag_in(s.subrange(k, s.len() as int)),
{
    let suf = s.subrange(k, s.len() as int);
    let tl = close_tag().len() as int;
    assert forall|i: int| 0 <= i <= suf.len() - close_tag().len() implies #[trigger] suf.subrange(
        i,
        i + tl,
    ) != close_tag() by {
        assert(suf.subrange(i, i + tl) =~= s.subrange(k + i, k + i + tl));
        assert(s.subrange(k + i, k + i + tl) != close_tag());
    }
}

/// The closing tag, read from inside a span with any partial match pending,
/// still closes the span and emits nothing: its first `<` restarts the
/// match whatever stood before.
proof fn lemma_close_tag_from_partial(p: usize)
    requires
        p < close_tag().len(),
    ensures
        filter_run(FilterState { thinking: true, partial: p }, close_tag()).0
            == FilterState::spec_init(),
        filter_run(FilterState { thinking: true, partial: p }, close_tag()).1 == Seq::<
            char,
        >::empty(),
{
    let tag = close_tag();
    let st = FilterState { thinking: true, partial: p };
    let zero = FilterState { thinking: true, partial: 0 };
    let one = FilterState { thinking: true, partial: 1 };
    lemma_close_tag_from_inside();
    assert(tag[0] == '<');
    // the run from a cleared partial factors through `one`, so the tail of
    // the tag from `one` closes silently
    assert(filter_step(zero, '<') == (one, Seq::<char>::empty()));
    assert(filter_run(zero, tag).0 == filter_run(one, tag.drop_first()).0);
    assert(filter_run(one, tag.drop_first()).0 == FilterState::spec_init());
    assert(filter_run(zero, tag).1 =~= Seq::<char>::empty() + filter_run(
        one,
        tag.drop_first(),
    ).1);
    assert(filter_run(one, tag.drop_first()).1 =~= Seq::<char>::empty());
    // the first `<` lands in `one` from every pending partial
    if p != 0 {
        assert(tag[p as int] != '<');
        assert(filter_step(st, '<') == (one, Seq::<char>::empty()));
    }
    assert(filter_run(st, tag).0 == filter_run(one, tag.drop_first()).0);
    assert(filter_run(st, tag).1 =~= Seq::<char>::empty() + filter_run(
        one,
        tag.drop_first(),
    ).1);
    assert(filter_run(st, tag).1 =~= Seq::<char>::empty());
}

/// While the closing tag has not occurred, the filter stays inside the span
/// and emits nothing — whatever the text holds, stray `<` included. The
/// pending partial match always mirrors real text, so the hypothesis is
/// carried as: the matched tag prefix glued to the remaining input holds no
/// closing tag.
proof fn lemma_run_silent_no_close(st: FilterState, mid: Seq<char>)
    requires
        st.thinking,
        st.wf(),
        no_close_tag_in(close_tag().take(st.partial as int) + mid),
    ensures
        filter_run(st, mid).0.thinking,
        filter_run(st, mid).0.wf(),
        filter_run(st, mid).1 == Seq::<char>::empty(),
    decreases mid.len(),
{
    let tag = close_tag();
    let p = st.partial as int;
    let stream = tag.take(p) + mid;
    if mid.len() == 0 {
        return ;
    }
    let c = mid[0];
    let next = filter_step(st, c);
    assert(next.1 =~= Seq::<char>::empty());
    let rest = mid.drop_first();
    if c == tag[p] {
        if p + 1 == tag.len() {
            // the whole closing tag would stand at the stream's start
            assert(stream.subrange(0, tag.len() as int) =~= tag) by {
                assert forall|t: int| 0 <= t < tag.len() implies stream.subrange(
                    0,
                    tag.len() as int,
                )[t] == tag[t] by {
                    if t < p {
                        assert(stream[t] == tag.take(p)[t]);
                    } else {
                        assert(stream[t] == mid[0]);
                    }
                }
            }
            assert(stream.len() - close_tag().len() >= 0);
            assert(stream.subrange(0, 0 + close_tag().len() as int) != close_tag());
            assert(false);
        } else {
            let st2 = FilterState { thinking: true, partial: (p + 1) as usize };
            assert(next.0 == st2);
            assert(tag.take(p + 1) + rest =~= stream) by {
                assert forall|t: int| 0 <= t < stream.len() implies (tag.take(p + 1)
                    + rest)[t] == stream[t] by {
                    if t < p {
                        assert((tag.take(p + 1) + rest)[t] == tag[t]);
                        assert(stream[t] == tag.take(p)[t]);
                    } else if t == p {
                        assert((tag.take(p + 1) + rest)[t] == tag[p]);
                        assert(stream[t] == mid[0]);
                    } else {
                        assert((tag.take(p + 1) + rest)[t] == rest[t - p - 1]);
                        assert(stream[t] == mid[t - p]);
                        assert(rest[t - p - 1] == mid[t - p]);
                    }
                }
            }
            lemma_run_silent_no_close(st2, rest);
        }
    } else if c == '<' {
        let st2 = FilterState { thinking: true, partial: 1 };
        assert(next.0 == st2);
        // the new virtual stream `<` + rest is the old one's suffix from `p`
        assert(tag.take(1) + rest =~= stream.subrange(p, stream.len() as int)) by {
            assert forall|t: int| 0 <= t < mid.len() implies (tag.take(1) + rest)[t]
                == stream.subrange(p, stream.len() as int)[t] by {
                assert(stream.subrange(p, stream.len() as int)[t] == mid[t]);
                if t == 0 {
                    assert((tag.take(1) + rest)[0] == tag[0]);
                } else {
                    assert((tag.take(1) + rest)[t] == rest[t - 1]);
                }
            }
        }
        lemma_no_close_suffix(stream, p);
        lemma_run_silent_no_close(st2, rest);
    } else {
        let st2 = FilterState { thinking: true, partial: 0 };
        assert(next.0 == st2);
        assert(tag.take(0) + rest =~= stream.subrange(p + 1, stream.len() as int)) by {
            assert forall|t: int| 0 <= t < rest.len() implies (tag.take(0) + rest)[t]
                == stream.subrange(p + 1, stream.len() as int)[t] by {
                assert((tag.take(0) + rest)[t] == rest[t]);
                assert(stream.subrange(p + 1, stream.len() as int)[t] == mid[t + 1]);
                assert(rest[t] == mid[t + 1]);
            }
        }
        lemma_no_close_suffix(stream, p + 1);
        lemma_run_silent_no_close(st2, rest);
    }
    assert(filter_run(st, mid).1 =~= next.1 + filter_run(next.0, rest).1);
    assert(filter_run(st, mid).1 =~= Seq::<char>::empty());
}

/// A whole `<think>…</think>` span starting outside any span is wholly
/// suppressed: the filter emits nothing for it and returns to the state it
/// started in. The span's inside may hold anything — stray `<` included —
/// as long as the closing tag itself does not occur in it.
pub proof fn lemma_think_span_suppressed(mid: Seq<char>)
    requires
        no_close_tag_in(mid),
    ensures
        filter_run(FilterState::spec_init(), open_tag() + mid + close_tag()).0
            == FilterState::spec_init(),
        filter_run(FilterState::spec_init(), open_tag() + mid + close_tag()).1 == Seq::<
            char,
        >::empty(),
{
    let init = FilterState::spec_init();
    let inside = FilterState { thinking: true, partial: 0 };
    lemma_open_tag_from_init();
    assert(close_tag().take(0) + mid =~= mid);
    lemma_run_silent_no_close(inside, mid);
    let stm = filter_run(inside, mid).0;
    lemma_close_tag_from_partial(stm.partial);
    lemma_filter_chunking(init, open_tag(), mid + close_tag());
    lemma_filter_chunking(inside, mid, close_tag());
    assert((open_tag() + mid) + close_tag() =~= open_tag() + (mid + close_tag()));
    assert(filter_run(init, open_tag() + mid + close_tag()).1 =~= Seq::<char>::empty());
}

/// Text without `<` passes the filter untouched: from the initial state it
/// is emitted verbatim and the state is unchanged — so it satisfies the
/// surrounding-text hypothesis of `lemma_span_invisible`.
pub proof fn lemma_plain_text_passes(s: Seq<char>)
    requires
        forall|i: int| 0 <= i < s.len() ==> s[i] != '<',
    ensures
        filter_run(FilterState::spec_init(), s).0 == FilterState::spec_init(),
        filter_run(FilterState::spec_init(), s).1 == s,
    decreases s.len(),
{
    let init = FilterState::spec_init();
    if s.len() > 0 {
        assert(s[0] != '<');
        assert(open_tag().take(0) =~= Seq::<char>::empty());
        assert(filter_step(init, s[0]).0 == init);
        assert(filter_step(init, s[0]).1 =~= seq![s[0]]);
        assert(forall|i: int|
            0 <= i < s.drop_first().len() ==> #[trigger] s.drop_first()[i] != '<');
        lemma_plain_text_passes(s.drop_first());
        assert(filter_run(init, s).1 =~= seq![s[0]] + s.drop_first());
        assert(seq![s[0]] + s.drop_first() =~= s);
    }
}

/// Text inside a `<think>…</think>` span never reaches the visible output:
/// whatever stands around the span — and however the input is cut into
/// chunks, by `lemma_filter_chunking` — the filter's output over
/// `pre + <think>mid</think> + post` equals its output over `pre + post`.
/// The span's inside may hold anything but the closing tag itself.
pub proof fn lemma_span_invisible(pre: Seq<char>, mid: Seq<char>, post: Seq<char>)
    requires
        filter_run(FilterState::spec_init(), pre).0 == FilterState::spec_init(),
        no_close_tag_in(mid),
    ensures
        filter_run(FilterState::spec_init(), pre + (open_tag() + mid + close_tag()) + post).1
            == filter_run(FilterState::spec_init(), pre + post).1,
{
    let init = FilterState::spec_init();
    let span = open_tag() + mid + close_tag();
    lemma_think_span_suppressed(mid);
    lemma_filter_chunking(init, pre, span + post);
    lemma_filter_chunking(init, span, post);
    lemma_filter_chunking(init, pre, post);
    assert(pre + span + post =~= pre + (span + post));
    assert(filter_run(init, pre + (span + post)).1 =~= filter_run(init, pre).1 + (
    Seq::<char>::empty() + filter_run(init, post).1));
    assert(filter_run(init, pre).1 + (Seq::<char>::empty() + filter_run(init, post).1)
        =~= filter_run(init, pre).1 + filter_run(init, post).1);
}

fn open_tag_char(i: usize) -> (r: char)
    requires
        i < 7,
    ensures
        r == open_tag()[i as int],
{
    match i {
        0 => '<',
        1 => 't',
        2 => 'h',
        3 => 'i',
        4 => 'n',
        5 => 'k',
        _ => '>',
    }
}

fn close_tag_char(i: usize) -> (r: char)
    requires
        i < 8,
    ensures
        r == close_tag()[i as int],
{
    match i {
        0 => '<',
        1 => '/',
        2 => 't',
        3 => 'h',
        4 => 'i',
        5 => 'n',
        6 => 'k',
        _ => '>',
    }
}

/// The executable thinking filter.
#[derive(Debug, Clone, Copy, PartialEq, Eq, Structural)]
pub struct ThinkFilter {
    pub state: FilterState,
}

impl ThinkFilter {
    /// Start outside any span.
    pub fn new() -> (r: Self)
        ensures
            r.state == FilterState::spec_init(),
            r.state.wf(),
    {
        ThinkFilter { state: FilterState { thinking: false, partial: 0 } }
    }

    /// Feed one character; visible text is appended to `out`.
    fn step_char(&mut self, c: char, out: &mut Vec<char>)
        requires
            old(self).state.wf(),
        ensures
            final(self).state == filter_step(old(self).state, c).0,
            final(out)@ == old(out)@ + filter_step(old(self).state, c).1,
            final(self).state.wf(),
    {
        let st = self.state;
        if !st.thinking {
            let expected = open_tag_char(st.partial);
            if c == expected {
                if st.partial + 1 == 7 {
                    self.state = FilterState { thinking: true, partial: 0 };
                } else {
                    self.state = FilterState { thinking: false, partial: st.partial + 1 };
                }
                proof {
                    assert(out@ =~= old(out)@ + filter_step(st, c).1);
                }
            } else {
                // flush the failed partial match as ordinary text
                let mut k: usize = 0;
                while k < st.partial
                    invariant
                        k <= st.partial,
                        st.partial < 7,
                        out@ == old(out)@ + open_tag().take(st.partial as int).take(
                            k as int,
                        ),
                    decreases st.partial - k,
                {
                    out.push(open_tag_char(k));
                    proof {
                        assert(open_tag().take(st.partial as int).take(k + 1)
                            =~= open_tag().take(st.partial as int).take(k as int).push(
                            open_tag()[k as int],
                        ));
                    }
                    k = k + 1;
                }
                proof {
                    assert(open_tag().take(st.partial as int).take(st.partial as int)
                        =~= open_tag().take(st.partial as int));
                }
                if c == '<' {
                    self.state = FilterState { thinking: false, partial: 1 };
                    proof {
                        assert(out@ =~= old(out)@ + filter_step(st, c).1);
                    }
                } else {
                    out.push(c);
                    self.state = FilterState { thinking: false, partial: 0 };
                    proof {
                        assert(out@ =~= old(out)@ + (open_tag().take(st.partial as int)
                            + seq![c]));
                    }
                }
            }
        } else {
            let expected = close_tag_char(st.partial);
            if c == expected {
                if st.partial + 1 == 8 {
                    self.state = FilterState { thinking: false, partial: 0 };
                } else {
                    self.state = FilterState { thinking: true, partial: st.partial + 1 };
                }
            } else if c == '<' {
                self.state = FilterState { thinking: true, partial: 1 };
            } else {
                self.state = FilterState { thinking: true, partial: 0 };
            }
            proof {
                assert(out@ =~= old(out)@ + filter_step(st, c).1);
            }
        }
    }

    /// Feed a chunk of characters; visible text is appended to `out`.
    pub fn feed(&mut self, chars: &Vec<char>, out: &mut Vec<char>)
        requires
            old(self).state.wf(),
        ensures
            final(self).state == filter_run(old(self).state, chars@).0,
            final(out)@ == old(out)@ + filter_run(old(self).state, chars@).1,
            final(self).state.wf(),
    {
        let n = chars.len();
        proof {
            assert(chars@.subrange(0, n as int) =~= chars@);
            assert(out@.skip(out@.len() as int) =~= Seq::<char>::empty());
            assert(Seq::<char>::empty() + filter_run(self.state, chars@).1 =~= filter_run(
                self.state,
                chars@,
            ).1);
            assert(out@.subrange(0, out@.len() as int) =~= out@);
        }
        let mut i: usize = 0;
        while i < n
            invariant
                i <= n,
                n == chars@.len(),
                self.state.wf(),
                filter_run(old(self).state, chars@).0 == filter_run(
                    self.state,
                    chars@.subrange(i as int, n as int),
                ).0,
                filter_run(old(self).state, chars@).1 == (out@.skip(old(out)@.len() as int))
                    + filter_run(self.state, chars@.subrange(i as int, n as int)).1,
                out@.len() >= old(out)@.len(),
                out@.subrange(0, old(out)@.len() as int) == old(out)@,
            decreases n - i,
        {
            let ghost pre_state = self.state;
            let ghost pre_out = out@;
            let ghost rest = chars@.subrange(i as int, n as int);
            proof {
                assert(rest[0] == chars@[i as int]);
                assert(rest.drop_first() =~= chars@.subrange(i + 1, n as int));
            }
            self.step_char(chars[i], out);
            proof {
                let stepped = filter_step(pre_state, chars@[i as int]);
                assert(filter_run(pre_state, rest).0 == filter_run(
                    stepped.0,
                    rest.drop_first(),
                ).0);
                assert(filter_run(pre_state, rest).1 == stepped.1 + filter_run(
                    stepped.0,
                    rest.drop_first(),
                ).1);
                assert(out@.skip(old(out)@.len() as int) =~= (pre_out.skip(old(out)@.len() as int))
                    + stepped.1);
                assert(((pre_out.skip(old(out)@.len() as int)) + stepped.1) + filter_run(
                    stepped.0,
                    rest.drop_first(),
                ).1 =~= (pre_out.skip(old(out)@.len() as int)) + (stepped.1 + filter_run(
                    stepped.0,
                    rest.drop_first(),
                ).1));
                assert(out@.subrange(0, old(out)@.len() as int) =~= old(out)@);
            }
            i = i + 1;
        }
        proof {
            assert(chars@.subrange(n as int, n as int) =~= Seq::<char>::empty());
            assert((out@.skip(old(out)@.len() as int)) + Seq::<char>::empty()
                =~= out@.skip(old(out)@.len() as int));
            assert(old(out)@ + (out@.skip(old(out)@.len() as int)) =~= out@);
        }
    }

    /// End of stream: a pending partial tag outside a span is ordinary text.
    pub fn finish(&mut self, out: &mut Vec<char>)
        requires
            old(self).state.wf(),
        ensures
            final(out)@ == old(out)@ + filter_finish(old(self).state),
            final(self).state == FilterState::spec_init(),
    {
        let st = self.state;
        if !st.thinking {
            let mut k: usize = 0;
            while k < st.partial
                invariant
                    k <= st.partial,
                    st.partial < 7,
                    out@ == old(out)@ + open_tag().take(st.partial as int).take(k as int),
                decreases st.partial - k,
            {
                out.push(open_tag_char(k));
                proof {
                    assert(open_tag().take(st.partial as int).take(k + 1) =~= open_tag().take(
                        st.partial as int,
                    ).take(k as int).push(open_tag()[k as int]));
                }
                k = k + 1;
            }
            proof {
                assert(open_tag().take(st.partial as int).take(st.partial as int)
                    =~= open_tag().take(st.partial as int));
            }
        } else {
            proof {
                assert(out@ =~= old(out)@ + filter_finish(st));
            }
        }
        self.state = FilterState { thinking: false, partial: 0 };
    }
}

/// One character through the line splitter: a newline completes the current
/// line (trimmed; empty lines vanish), anything else extends it.
pub open spec fn split_step(buf: Seq<char>, c: char) -> (Seq<char>, Option<Seq<char>>) {
    if c == '\n' {
        (Seq::empty(), if trim_spec(buf).len() > 0 {
            Some(trim_spec(buf))
        } else {
            None
        })
    } else {
        (buf.push(c), None)
    }
}

/// The splitter over a string: the remaining buffer and the completed lines.
pub open spec fn split_run(buf: Seq<char>, s: Seq<char>) -> (Seq<char>, Seq<Seq<char>>)
    decreases s.len(),
{
    if s.len() == 0 {
        (buf, Seq::empty())
    } else {
        let first = split_step(buf, s[0]);
        let rest = split_run(first.0, s.drop_first());
        (
            rest.0,
            (match first.1 {
                Some(line) => seq![line] + rest.1,
                None => rest.1,
            }),
        )
    }
}


/// Every line the splitter emits is non-empty (empty lines vanish at the
/// newline).
pub proof fn lemma_split_lines_nonempty(buf: Seq<char>, s: Seq<char>, k: int)
    requires
        0 <= k < split_run(buf, s).1.len(),
    ensures
        split_run(buf, s).1[k].len() > 0,
    decreases s.len(),
{
    if s.len() > 0 {
        let first = split_step(buf, s[0]);
        match first.1 {
            Some(line) => {
                if k > 0 {
                    lemma_split_lines_nonempty(first.0, s.drop_first(), k - 1);
                }
            },
            None => {
                lemma_split_lines_nonempty(first.0, s.drop_first(), k);
            },
        }
    }
}

/// The executable newline splitter.
pub struct LineSplitter {
    /// The current incomplete line.
    pub buf: Vec<char>,
}

impl LineSplitter {
    /// Start with an empty line buffer.
    pub fn new() -> (r: Self)
        ensures
            r.buf@ == Seq::<char>::empty(),
    {
        LineSplitter { buf: Vec::new() }
    }

    /// Feed filtered characters; completed trimmed non-empty lines come
    /// back, the unfinished tail stays buffered.
    pub fn feed(&mut self, chars: &Vec<char>) -> (r: Vec<String>)
        ensures
            final(self).buf@ == split_run(old(self).buf@, chars@).0,
            r@.len() == split_run(old(self).buf@, chars@).1.len(),
            forall|k: int|
                0 <= k < r@.len() ==> (#[trigger] r@[k])@ == split_run(
                    old(self).buf@,
                    chars@,
                ).1[k],
    {
        let n = chars.len();
        let mut r: Vec<String> = Vec::new();
        let ghost full = split_run(old(self).buf@, chars@);
        proof {
            assert(chars@.subrange(0, n as int) =~= chars@);
        }
        let mut i: usize = 0;
        while i < n
            invariant
                i <= n,
                n == chars@.len(),
                full == split_run(old(self).buf@, chars@),
                split_run(self.buf@, chars@.subrange(i as int, n as int)).0 == full.0,
                r@.len() + split_run(self.buf@, chars@.subrange(i as int, n as int)).1.len()
                    == full.1.len(),
                forall|k: int|
                    0 <= k < r@.len() ==> (#[trigger] r@[k])@ == full.1[k],
                forall|k: int|
                    0 <= k < split_run(
                        self.buf@,
                        chars@.subrange(i as int, n as int),
                    ).1.len() ==> split_run(
                        self.buf@,
                        chars@.subrange(i as int, n as int),
                    ).1[k] == full.1[r@.len() + k],
            decreases n - i,
        {
            let ghost rest = chars@.subrange(i as int, n as int);
            let ghost pre_buf = self.buf@;
            let ghost pre_len = r@.len() as int;
            proof {
                assert(rest[0] == chars@[i as int]);
                assert(rest.drop_first() =~= chars@.subrange(i + 1, n as int));
            }
            let c = chars[i];
            if c == '\n' {
                let t = trim_chars(&self.buf);
                if t.len() > 0 {
                    r.push(string_from_chars(&t));
                }
                self.buf = Vec::new();
                proof {
                    let stepped = split_step(pre_buf, '\n');
                    assert(stepped.0 =~= Seq::<char>::empty());
                    match stepped.1 {
                        Some(line) => {
                            assert(line == trim_spec(pre_buf));
                            assert(r@.len() == pre_len + 1);
                            assert(r@[pre_len]@ == line);
                            assert(split_run(pre_buf, rest).1 =~= seq![line]
                                + split_run(stepped.0, rest.drop_first()).1);
                            assert(split_run(pre_buf, rest).1[0] == line);
                            assert(line == full.1[pre_len]);
                            assert forall|k: int|
                                0 <= k < split_run(
                                    self.buf@,
                                    rest.drop_first(),
                                ).1.len() implies split_run(
                                self.buf@,
                                rest.drop_first(),
                            ).1[k] == full.1[r@.len() + k] by {
                                assert(split_run(pre_buf, rest).1[k + 1] == split_run(
                                    stepped.0,
                                    rest.drop_first(),
                                ).1[k]);
                            }
                        },
                        None => {
                            assert(r@.len() == pre_len);
                            assert(split_run(pre_buf, rest).1 =~= split_run(
                                stepped.0,
                                rest.drop_first(),
                            ).1);
                        },
                    }
                }
            } else {
                self.buf.push(c);
                proof {
                    let stepped = split_step(pre_buf, chars@[i as int]);
                    assert(stepped.1 is None);
                    assert(self.buf@ == stepped.0);
                    assert(split_run(pre_buf, rest).1 =~= split_run(
                        stepped.0,
                        rest.drop_first(),
                    ).1);
                }
            }
            i = i + 1;
        }
        proof {
            assert(chars@.subrange(n as int, n as int) =~= Seq::<char>::empty());
        }
        r
    }
}

/// The lines of a turn glued back together, each line followed by a
/// newline; the completion text is this, minus the trailing newline.
pub open spec fn lines_glued(ls: Seq<Seq<char>>) -> Seq<char>
    decreases ls.len(),
{
    if ls.len() == 0 {
        Seq::empty()
    } else {
        lines_glued(ls.drop_last()) + ls.last() + seq!['\n']
    }
}

/// What every emitted response line must look like for a turn addressed by
/// this stream: the platform routing of the source message, the line as
/// content, and a reply reference exactly on the first line of the turn in
/// a group channel — never in a DM, never on a later line.
pub open spec fn event_matches(
    e: ResponseEvent,
    t: TurnStream,
    k: int,
    line: Seq<char>,
) -> bool {
    &&& e.platform == t.platform
    &&& e.channel_id@ == t.channel_id@
    &&& e.is_dm == t.is_dm
    &&& e.content@ == line
    &&& e.source == ResponseSource::CloudLLM
    &&& (match e.reply_to_user {
        Some(u) => u@ == t.username@,
        None => false,
    })
    &&& (if !t.first_emitted && k == 0 && !t.is_dm {
        match e.reply_to_message_id {
            Some(m) => m@ == t.message_id@,
            None => false,
        }
    } else {
        e.reply_to_message_id is None
    })
}

/// Per-turn streaming state: the thinking filter, the line splitter, the
/// SSE line assembly buffer, and the reply-once latch.
pub struct TurnStream {
    pub platform: Platform,
    pub channel_id: String,
    pub message_id: String,
    pub username: String,
    pub is_dm: bool,
    pub filter: ThinkFilter,
    pub splitter: LineSplitter,
    /// Raw SSE bytes-as-text not yet terminated by a newline.
    pub inbound: Vec<char>,
    /// Whether a response line has been emitted this turn.
    pub first_emitted: bool,
    /// The emitted lines so far, each followed by a newline.
    pub full: Vec<char>,
    /// Whether the terminal `[DONE]` marker has been seen.
    pub done: bool,
}

impl TurnStream {
    /// The filter state is always well-formed.
    pub open spec fn wf(&self) -> bool {
        self.filter.state.wf()
    }

    /// A fresh stream for one turn answering `raw`.
    pub fn new(raw: &RawEvent) -> (r: Self)
        ensures
            r.platform == raw.platform,
            r.channel_id@ == raw.channel_id@,
            r.message_id@ == raw.message_id@,
            r.username@ == raw.username@,
            r.is_dm == raw.is_dm,
            r.filter.state == FilterState::spec_init(),
            r.splitter.buf@ == Seq::<char>::empty(),
            r.inbound@ == Seq::<char>::empty(),
            !r.first_emitted,
            r.full@ == Seq::<char>::empty(),
            !r.done,
            r.wf(),
    {
        TurnStream {
            platform: raw.platform,
            channel_id: raw.channel_id.clone(),
            message_id: raw.message_id.clone(),
            username: raw.username.clone(),
            is_dm: raw.is_dm,
            filter: ThinkFilter::new(),
            splitter: LineSplitter::new(),
            inbound: Vec::new(),
            first_emitted: false,
            full: Vec::new(),
            done: false,
        }
    }

    /// Those fields that a feed never changes.
    pub open spec fn same_meta(&self, other: &TurnStream) -> bool {
        &&& self.platform == other.platform
        &&& self.channel_id@ == other.channel_id@
        &&& self.message_id@ == other.message_id@
        &&& self.username@ == other.username@
        &&& self.is_dm == other.is_dm
    }

    /// Run one delta string through the thinking filter and the splitter,
    /// emitting one response event per completed non-empty line. The reply
    /// reference appears on the first line of the turn only, and only
    /// outside DMs.
    pub fn feed_content(&mut self, content: &str) -> (r: Vec<ResponseEvent>)
        requires
            old(self).wf(),
        ensures
            final(self).wf(),
            final(self).same_meta(old(self)),
            final(self).done == old(self).done,
            final(self).inbound@ == old(self).inbound@,
            ({
                let fr = filter_run(old(self).filter.state, content@);
                let sr = split_run(old(self).splitter.buf@, fr.1);
                &&& final(self).filter.state == fr.0
                &&& final(self).splitter.buf@ == sr.0
                &&& r@.len() == sr.1.len()
                &&& forall|k: int|
                    0 <= k < r@.len() ==> event_matches(
                        #[trigger] r@[k],
                        *old(self),
                        k,
                        sr.1[k],
                    )
                &&& final(self).first_emitted == (old(self).first_emitted || r@.len()
                    > 0)
                &&& final(self).full@ == old(self).full@ + lines_glued(sr.1)
            }),
            forall|k: int|
                0 <= k < r@.len() && (#[trigger] r@[k]).reply_to_message_id is Some
                    ==> k == 0 && !old(self).first_emitted && !old(self).is_dm,
    {
        let chars = str_to_chars(content);
        let mut filtered: Vec<char> = Vec::new();
        self.filter.feed(&chars, &mut filtered);
        let lines = self.splitter.feed(&filtered);
        let ghost fr = filter_run(old(self).filter.state, content@);
        let ghost sr = split_run(old(self).splitter.buf@, fr.1);
        let mut r: Vec<ResponseEvent> = Vec::new();
        let ghost filter_snap = self.filter;
        let ghost splitter_snap = self.splitter.buf@;
        let mut k: usize = 0;
        let nlines = lines.len();
        while k < nlines
            invariant
                k <= nlines,
                nlines == lines@.len(),
                lines@.len() == sr.1.len(),
                forall|k2: int|
                    0 <= k2 < lines@.len() ==> (#[trigger] lines@[k2])@ == sr.1[k2],
                r@.len() == k,
                forall|k2: int|
                    0 <= k2 < k ==> event_matches(
                        #[trigger] r@[k2],
                        *old(self),
                        k2,
                        sr.1[k2],
                    ),
                self.same_meta(old(self)),
                self.platform == old(self).platform,
                self.channel_id@ == old(self).channel_id@,
                self.message_id@ == old(self).message_id@,
                self.username@ == old(self).username@,
                self.is_dm == old(self).is_dm,
                self.first_emitted == (old(self).first_emitted || k > 0),
                self.full@ == old(self).full@ + lines_glued(sr.1.take(k as int)),
                self.filter == filter_snap,
                self.splitter.buf@ == splitter_snap,
                filter_snap.state == fr.0,
                splitter_snap == sr.0,
                self.done == old(self).done,
                self.inbound@ == old(self).inbound@,
                self.filter.state.wf(),
            decreases nlines - k,
        {
            let line = &lines[k];
            let reply = if !self.first_emitted && !self.is_dm {
                Some(self.message_id.clone())
            } else {
                None
            };
            let e = ResponseEvent {
                platform: self.platform,
                channel_id: self.channel_id.clone(),
                reply_to_message_id: reply,
                reply_to_user: Some(self.username.clone()),
                is_dm: self.is_dm,
                content: line.clone(),
                source: ResponseSource::CloudLLM,
            };
            r.push(e);
            let ghost full_before = self.full@;
            let mut line_chars = str_to_chars(line.as_str());
            self.full.append(&mut line_chars);
            self.full.push('\n');
            self.first_emitted = true;
            proof {
                assert(sr.1.take(k + 1).drop_last() =~= sr.1.take(k as int));
                assert(sr.1.take(k + 1).last() == sr.1[k as int]);
                assert(self.full@ =~= old(self).full@ + lines_glued(sr.1.take(k + 1)));
            }
            k = k + 1;
        }
        proof {
            assert(sr.1.take(sr.1.len() as int) =~= sr.1);
        }
        r
    }
}


/// The name of what the delta extractor returns: the text at
/// `choices[0].delta.content` of an SSE data payload, when the payload is
/// JSON of that shape. It depends on the payload alone.
pub uninterp spec fn sse_delta_content(s: Seq<char>) -> Option<Seq<char>>;

/// Relies on `serde_json::from_str` and `serde_json::Value`'s `get` /
/// `as_str` accessors: the streamed delta text at
/// `choices[0].delta.content`, or `None` when the payload does not parse or
/// has no such field.
#[verifier::external_body]
fn extract_delta_content(data: &str) -> (r: Option<String>)
    ensures
        r is Some <==> sse_delta_content(data@) is Some,
        r matches Some(s) ==> (sse_delta_content(data@) matches Some(v) && s@ == v),
{
    let v: serde_json::Value = serde_json::from_str(data).ok()?;
    let c = v.get("choices")?.get(0)?.get("delta")?.get("content")?.as_str()?;
    Some(c.to_string())
}

/// The `data: ` prefix of an SSE payload line.
pub open spec fn data_prefix() -> Seq<char> {
    seq!['d', 'a', 't', 'a', ':', ' ']
}

/// The terminal SSE marker.
pub open spec fn done_marker() -> Seq<char> {
    seq!['[', 'D', 'O', 'N', 'E', ']']
}

fn is_data_line(line: &Vec<char>) -> (r: bool)
    ensures
        r == (line@.len() >= 6 && line@.subrange(0, 6) == data_prefix()),
{
    if line.len() < 6 {
        return false;
    }
    let r = line[0] == 'd' && line[1] == 'a' && line[2] == 't' && line[3] == 'a'
        && line[4] == ':' && line[5] == ' ';
    proof {
        if r {
            assert(line@.subrange(0, 6) =~= data_prefix());
        } else {
            assert(line@.subrange(0, 6) != data_prefix()) by {
                if line@.subrange(0, 6) == data_prefix() {
                    assert(line@[0] == 'd' && line@[1] == 'a' && line@[2] == 't'
                        && line@[3] == 'a' && line@[4] == ':' && line@[5] == ' ');
                }
            }
        }
    }
    r
}

fn is_done_marker(s: &Vec<char>) -> (r: bool)
    ensures
        r == (s@ == done_marker()),
{
    let r = s.len() == 6 && s[0] == '[' && s[1] == 'D' && s[2] == 'O' && s[3] == 'N'
        && s[4] == 'E' && s[5] == ']';
    proof {
        if r {
            assert(s@ =~= done_marker());
        } else {
            assert(s@ != done_marker()) by {
                if s@ == done_marker() {
                    assert(s@.len() == 6 && s@[0] == '[' && s@[1] == 'D' && s@[2] == 'O'
                        && s@[3] == 'N' && s@[4] == 'E' && s@[5] == ']');
                }
            }
        }
    }
    r
}

/// The characters of `v` from `from` (inclusive) to `to` (exclusive).
fn vec_slice(v: &Vec<char>, from: usize, to: usize) -> (r: Vec<char>)
    requires
        from <= to <= v@.len(),
    ensures
        r@ == v@.subrange(from as int, to as int),
{
    let mut r: Vec<char> = Vec::new();
    let mut i: usize = from;
    while i < to
        invariant
            from <= i <= to <= v@.len(),
            r@ == v@.subrange(from as int, i as int),
        decreases to - i,
    {
        r.push(v[i]);
        proof {
            assert(r@ =~= v@.subrange(from as int, i + 1));
        }
        i = i + 1;
    }
    r
}

/// Whether a trimmed SSE line is a `data:` payload line.
pub open spec fn is_data_spec(line: Seq<char>) -> bool {
    line.len() >= 6 && line.subrange(0, 6) == data_prefix()
}

/// The SSE assembler over the pending bytes: pop complete lines; a
/// `data:` line before the terminal marker either sets the done flag
/// (`[DONE]`) or has its named delta content run through the thinking
/// filter and the line splitter. Returns the final done flag, filter
/// state and splitter buffer, the completed response lines in order, and
/// the unconsumed remainder.
pub open spec fn sse_drain(
    done: bool,
    fst: FilterState,
    buf: Seq<char>,
    pending: Seq<char>,
) -> (bool, FilterState, Seq<char>, Seq<Seq<char>>, Seq<char>)
    decreases pending.len(),
    via sse_drain_dec
{
    let i = crate::text::find_from(pending, 0, '\n');
    if i >= pending.len() {
        (done, fst, buf, Seq::empty(), pending)
    } else {
        let line = trim_spec(pending.take(i));
        let rest = pending.skip(i + 1);
        if !done && is_data_spec(line) {
            let data = line.skip(6);
            if data == done_marker() {
                sse_drain(true, fst, buf, rest)
            } else {
                match sse_delta_content(data) {
                    Some(content) => {
                        let fr = filter_run(fst, content);
                        let sr = split_run(buf, fr.1);
                        let tail = sse_drain(done, fr.0, sr.0, rest);
                        (tail.0, tail.1, tail.2, sr.1 + tail.3, tail.4)
                    },
                    None => sse_drain(done, fst, buf, rest),
                }
            }
        } else {
            sse_drain(done, fst, buf, rest)
        }
    }
}

#[via_fn]
proof fn sse_drain_dec(done: bool, fst: FilterState, buf: Seq<char>, pending: Seq<char>) {
    crate::text::lemma_find_from_bounds(pending, 0, '\n');
}

proof fn lemma_glued_append(a: Seq<Seq<char>>, b: Seq<Seq<char>>)
    ensures
        lines_glued(a + b) == lines_glued(a) + lines_glued(b),
    decreases b.len(),
{
    if b.len() == 0 {
        assert(a + b =~= a);
        assert(lines_glued(a) + lines_glued(b) =~= lines_glued(a));
    } else {
        assert((a + b).drop_last() =~= a + b.drop_last());
        assert((a + b).last() == b.last());
        lemma_glued_append(a, b.drop_last());
        assert((lines_glued(a) + lines_glued(b.drop_last())) + b.last() + seq!['\n']
            =~= lines_glued(a) + (lines_glued(b.drop_last()) + b.last() + seq!['\n']));
    }
}

impl TurnStream {
    /// Consume one raw SSE chunk: assemble `data:` lines from the carried
    /// remainder plus the chunk, stop at the `[DONE]` marker, and run each
    /// delta's named content through the filter and the splitter. The
    /// returned events are exactly the completed lines the model assigns
    /// to this chunk, and whatever the chunk boundaries, at most one event
    /// of the whole turn carries a reply reference — the first.
    pub fn feed_chunk(&mut self, chunk: &str) -> (r: Vec<ResponseEvent>)
        requires
            old(self).wf(),
        ensures
            final(self).wf(),
            final(self).same_meta(old(self)),
            ({
                let m = sse_drain(
                    old(self).done,
                    old(self).filter.state,
                    old(self).splitter.buf@,
                    old(self).inbound@ + chunk@,
                );
                &&& final(self).done == m.0
                &&& final(self).filter.state == m.1
                &&& final(self).splitter.buf@ == m.2
                &&& r@.len() == m.3.len()
                &&& (forall|k: int|
                    0 <= k < r@.len() ==> event_matches(
                        #[trigger] r@[k],
                        *old(self),
                        k,
                        m.3[k],
                    ))
                &&& final(self).inbound@ == m.4
                &&& final(self).full@ == old(self).full@ + lines_glued(m.3)
            }),
            old(self).done ==> final(self).done,
            final(self).first_emitted == (old(self).first_emitted || r@.len() > 0),
            forall|k: int|
                0 <= k < r@.len() && (#[trigger] r@[k]).reply_to_message_id is Some
                    ==> k == 0 && !old(self).first_emitted && !old(self).is_dm,
    {
        let mut chunk_chars = str_to_chars(chunk);
        self.inbound.append(&mut chunk_chars);
        let ghost m = sse_drain(
            old(self).done,
            old(self).filter.state,
            old(self).splitter.buf@,
            old(self).inbound@ + chunk@,
        );
        let ghost mut emitted: Seq<Seq<char>> = Seq::empty();
        let mut r: Vec<ResponseEvent> = Vec::new();
        proof {
            assert(Seq::<Seq<char>>::empty() + m.3 =~= m.3);
        }
        loop
            invariant
                self.wf(),
                self.same_meta(old(self)),
                old(self).done ==> self.done,
                self.first_emitted == (old(self).first_emitted || r@.len() > 0),
                self.full@ == old(self).full@ + lines_glued(emitted),
                r@.len() == emitted.len(),
                forall|k: int|
                    0 <= k < r@.len() ==> event_matches(
                        #[trigger] r@[k],
                        *old(self),
                        k,
                        emitted[k],
                    ),
                ({
                    let cur = sse_drain(
                        self.done,
                        self.filter.state,
                        self.splitter.buf@,
                        self.inbound@,
                    );
                    &&& m.0 == cur.0
                    &&& m.1 == cur.1
                    &&& m.2 == cur.2
                    &&& m.3 == emitted + cur.3
                    &&& m.4 == cur.4
                }),
            ensures
                self.wf(),
                self.same_meta(old(self)),
                old(self).done ==> self.done,
                self.first_emitted == (old(self).first_emitted || r@.len() > 0),
                self.full@ == old(self).full@ + lines_glued(emitted),
                r@.len() == emitted.len(),
                forall|k: int|
                    0 <= k < r@.len() ==> event_matches(
                        #[trigger] r@[k],
                        *old(self),
                        k,
                        emitted[k],
                    ),
                m.0 == self.done,
                m.1 == self.filter.state,
                m.2 == self.splitter.buf@,
                m.3 == emitted,
                m.4 == self.inbound@,
            decreases self.inbound@.len(),
        {
            let ghost pending = self.inbound@;
            let ghost cur_pre = sse_drain(
                self.done,
                self.filter.state,
                self.splitter.buf@,
                pending,
            );
            proof {
                crate::text::lemma_find_from_bounds(pending, 0, '\n');
            }
            let pos = crate::text::find_char_from(&self.inbound, 0, '\n');
            if pos >= self.inbound.len() {
                proof {
                    assert(cur_pre.3 =~= Seq::<Seq<char>>::empty());
                    assert(emitted + cur_pre.3 =~= emitted);
                }
                break;
            }
            let line_raw = vec_slice(&self.inbound, 0, pos);
            let line = trim_chars(&line_raw);
            let rest = vec_slice(&self.inbound, pos + 1, self.inbound.len());
            self.inbound = rest;
            let ghost spec_line = trim_spec(pending.take(pos as int));
            proof {
                assert(line_raw@ =~= pending.take(pos as int));
                assert(line@ == spec_line);
                assert(self.inbound@ =~= pending.skip(pos + 1));
            }
            if !self.done && is_data_line(&line) {
                let data = vec_slice(&line, 6, line.len());
                proof {
                    assert(data@ =~= spec_line.skip(6));
                }
                if is_done_marker(&data) {
                    self.done = true;
                } else {
                    let data_str = string_from_chars(&data);
                    match extract_delta_content(data_str.as_str()) {
                        Some(content) => {
                            let ghost state_at_call = *self;
                            let ghost r_before = r@;
                            let ghost fr = filter_run(
                                state_at_call.filter.state,
                                content@,
                            );
                            let ghost sr = split_run(
                                state_at_call.splitter.buf@,
                                fr.1,
                            );
                            proof {
                                assert(sse_delta_content(spec_line.skip(6))
                                    matches Some(v) && v == content@);
                            }
                            let ghost em_before = emitted;
                            let mut evs = self.feed_content(content.as_str());
                            let ghost evs_view = evs@;
                            r.append(&mut evs);
                            proof {
                                emitted = em_before + sr.1;
                                assert forall|k: int| 0 <= k < r@.len()
                                    implies event_matches(
                                    #[trigger] r@[k],
                                    *old(self),
                                    k,
                                    emitted[k],
                                ) by {
                                    if k < r_before.len() {
                                        assert(r@[k] == r_before[k]);
                                        assert(emitted[k] == em_before[k]);
                                    } else {
                                        let k2 = k - r_before.len();
                                        assert(r@[k] == evs_view[k2]);
                                        assert(emitted[k] == sr.1[k2]);
                                        assert(event_matches(
                                            evs_view[k2],
                                            state_at_call,
                                            k2,
                                            sr.1[k2],
                                        ));
                                        if r_before.len() > 0 {
                                            assert(state_at_call.first_emitted);
                                        }
                                    }
                                }
                                lemma_glued_append(em_before, sr.1);
                                assert((old(self).full@ + lines_glued(em_before))
                                    + lines_glued(sr.1) =~= old(self).full@ + (
                                lines_glued(em_before) + lines_glued(sr.1)));
                                assert(em_before + (sr.1 + sse_drain(
                                    self.done,
                                    self.filter.state,
                                    self.splitter.buf@,
                                    self.inbound@,
                                ).3) =~= emitted + sse_drain(
                                    self.done,
                                    self.filter.state,
                                    self.splitter.buf@,
                                    self.inbound@,
                                ).3);
                            }
                        },
                        None => {},
                    }
                }
            }
        }
        r
    }

    /// End of stream: flush the remainder as a final line (if any text is
    /// left) and produce the turn completion carrying the concatenated full
    /// response, or nothing when the whole turn produced no text.
    pub fn finish(&mut self) -> (r: (Vec<ResponseEvent>, Option<BotTurnCompletion>))
        requires
            old(self).wf(),
        ensures
            final(self).wf(),
            final(self).same_meta(old(self)),
            r.0@.len() <= 1,
            ({
                let tail = trim_spec(
                    old(self).splitter.buf@ + filter_finish(old(self).filter.state),
                );
                &&& (tail.len() > 0 ==> r.0@.len() == 1 && event_matches(
                    r.0@[0],
                    *old(self),
                    0,
                    tail,
                ))
                &&& (tail.len() == 0 ==> r.0@.len() == 0)
            }),
            ({
                let tail = trim_spec(
                    old(self).splitter.buf@ + filter_finish(old(self).filter.state),
                );
                let full2 = if tail.len() > 0 {
                    old(self).full@ + tail + seq!['\n']
                } else {
                    old(self).full@
                };
                let content = trim_spec(full2);
                match r.1 {
                    Some(c) => {
                        &&& content.len() > 0
                        &&& c.content@ == content
                        &&& c.platform == old(self).platform
                        &&& c.channel_id@ == old(self).channel_id@
                        &&& (match c.reply_to_message_id {
                            Some(m) => m@ == old(self).message_id@,
                            None => false,
                        })
                        &&& (match c.reply_to_user {
                            Some(u) => u@ == old(self).username@,
                            None => false,
                        })
                    },
                    None => content.len() == 0,
                }
            }),
    {
        let mut tail_chars: Vec<char> = Vec::new();
        self.filter.finish(&mut tail_chars);
        self.splitter.buf.append(&mut tail_chars);
        let t = trim_chars(&self.splitter.buf);
        let mut events: Vec<ResponseEvent> = Vec::new();
        if t.len() > 0 {
            let reply = if !self.first_emitted && !self.is_dm {
                Some(self.message_id.clone())
            } else {
                None
            };
            let line = string_from_chars(&t);
            let e = ResponseEvent {
                platform: self.platform,
                channel_id: self.channel_id.clone(),
                reply_to_message_id: reply,
                reply_to_user: Some(self.username.clone()),
                is_dm: self.is_dm,
                content: line,
                source: ResponseSource::CloudLLM,
            };
            events.push(e);
            let mut line_chars = trim_chars(&self.splitter.buf);
            self.full.append(&mut line_chars);
            self.full.push('\n');
            self.first_emitted = true;
        }
        self.splitter.buf = Vec::new();
        proof {
            let tail = trim_spec(
                old(self).splitter.buf@ + filter_finish(old(self).filter.state),
            );
            if tail.len() > 0 {
                assert(self.full@ =~= old(self).full@ + tail + seq!['\n']);
            }
        }
        let full_trimmed = trim_chars(&self.full);
        let completion = if full_trimmed.len() > 0 {
            Some(
                BotTurnCompletion {
                    platform: self.platform,
                    channel_id: self.channel_id.clone(),
                    reply_to_message_id: Some(self.message_id.clone()),
                    reply_to_user: Some(self.username.clone()),
                    content: string_from_chars(&full_trimmed),
                },
            )
        } else {
            None
        };
        (events, completion)
    }
}

} // verus!
