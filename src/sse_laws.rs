//! Laws of the event-stream decoder.
use vstd::prelude::*;
use crate::sse::{
    FrameView, PendingView, apply_lines, block_frame, block_frames, boundary_at, data_key, drain, event_key, feed,
    first_boundary_from, held_cr, hold_cr, lemma_first_boundary, line_text, normalize_newlines,
    split_at_newlines,
};
use crate::text::{is_space, trim};

verus! {

/// The concatenation of `cs`, in order.
pub open spec fn flatten(cs: Seq<Seq<char>>) -> Seq<char>
    decreases cs.len(),
{
    if cs.len() == 0 {
        Seq::empty()
    } else {
        cs[0] + flatten(cs.skip(1))
    }
}

/// Feeding the fragments `cs` one after another to a decoder in state `pending`: all
/// frames out, in order, and the state at the end. By the contract of
/// `SseDecoder::ingest`, this is what a run of `ingest` calls returns and leaves.
pub open spec fn feed_all(pending: PendingView, cs: Seq<Seq<char>>) -> (Seq<FrameView>, PendingView)
    decreases cs.len(),
{
    if cs.len() == 0 {
        (Seq::empty(), pending)
    } else {
        let f = feed(pending, cs[0]);
        let g = feed_all(f.1, cs.skip(1));
        (f.0 + g.0, g.1)
    }
}

/// Normalizing two pieces apart equals normalizing them together, unless a CR LF pair
/// is cut between them.
pub proof fn lemma_normalize_concat(a: Seq<char>, b: Seq<char>)
    requires
        !(a.len() > 0 && a.last() == '\r' && b.len() > 0 && b[0] == '\n'),
    ensures
        normalize_newlines(a + b) == normalize_newlines(a) + normalize_newlines(b),
    decreases a.len(),
{
    if a.len() == 0 {
        assert(a + b =~= b);
        assert(normalize_newlines(a) + normalize_newlines(b) =~= normalize_newlines(b));
    } else if a.len() >= 2 && a[0] == '\r' && a[1] == '\n' {
        assert((a + b).skip(2) =~= a.skip(2) + b);
        lemma_normalize_concat(a.skip(2), b);
        assert(seq!['\n'] + (normalize_newlines(a.skip(2)) + normalize_newlines(b)) =~= (seq!['\n']
            + normalize_newlines(a.skip(2))) + normalize_newlines(b));
    } else {
        assert((a + b).skip(1) =~= a.skip(1) + b);
        lemma_normalize_concat(a.skip(1), b);
        assert(seq![a[0]] + (normalize_newlines(a.skip(1)) + normalize_newlines(b)) =~= (seq![a[0]]
            + normalize_newlines(a.skip(1))) + normalize_newlines(b));
    }
}

/// Text appended after a blank line does not move the first blank line.
pub proof fn lemma_first_boundary_concat(s: Seq<char>, t: Seq<char>, i: int)
    requires
        first_boundary_from(s, 0) == Some(i),
    ensures
        first_boundary_from(s + t, 0) == Some(i),
{
    lemma_first_boundary(s, 0);
    lemma_first_boundary(s + t, 0);
    assert(boundary_at(s + t, i));
    match first_boundary_from(s + t, 0) {
        Some(j) => {
            if j < i {
                assert(boundary_at(s, j));
            }
        },
        None => {},
    }
}

/// Draining `s + t` is draining `s`, then draining what it kept followed by `t`.
pub proof fn lemma_drain_concat(s: Seq<char>, t: Seq<char>)
    ensures
        drain(s + t) == (drain(s).0 + drain(drain(s).1 + t).0, drain(drain(s).1 + t).1),
    decreases s.len(),
{
    lemma_first_boundary(s, 0);
    match first_boundary_from(s, 0) {
        Some(i) => {
            lemma_first_boundary_concat(s, t, i);
            assert((s + t).take(i) =~= s.take(i));
            assert((s + t).skip(i + 2) =~= s.skip(i + 2) + t);
            lemma_drain_concat(s.skip(i + 2), t);
        },
        None => {
            assert(Seq::<FrameView>::empty() + drain(s + t).0 =~= drain(s + t).0);
        },
    }
}

/// What `drain` keeps never holds a blank line.
pub proof fn lemma_drain_rest_clean(s: Seq<char>)
    ensures
        first_boundary_from(drain(s).1, 0) is None,
    decreases s.len(),
{
    lemma_first_boundary(s, 0);
    if let Some(i) = first_boundary_from(s, 0) {
        lemma_drain_rest_clean(s.skip(i + 2));
    }
}

/// Holding back a final CR lets the pieces of a text be normalized apart: the text
/// of `a` and then of `b`, after the CR held back by `a`, reads as `a + b` at once.
pub proof fn lemma_hold_concat(cr: bool, a: Seq<char>, b: Seq<char>)
    ensures
        ({
            let h1 = hold_cr(held_cr(cr) + a);
            let h2 = hold_cr(held_cr(h1.1) + b);
            let w = hold_cr(held_cr(cr) + (a + b));
            &&& normalize_newlines(h1.0) + normalize_newlines(h2.0) == normalize_newlines(w.0)
            &&& h2.1 == w.1
        }),
{
    let x = held_cr(cr) + a;
    let h1 = hold_cr(x);
    assert(held_cr(cr) + (a + b) =~= x + b);
    if h1.1 {
        let y = h1.0;
        let z = seq!['\r'] + b;
        assert(held_cr(true) =~= seq!['\r']);
        assert(x + b =~= y + z);
        let hz = hold_cr(z);
        if z.len() == 1 {
            assert(hz.0 =~= Seq::<char>::empty());
        }
        assert(hold_cr(y + z).0 =~= y + hz.0);
        lemma_normalize_concat(y, hz.0);
    } else {
        assert(held_cr(false) + b =~= b);
        if b.len() == 0 {
            assert(x + b =~= x);
            assert(normalize_newlines(hold_cr(b).0) =~= Seq::<char>::empty());
            assert(normalize_newlines(x) + Seq::<char>::empty() =~= normalize_newlines(x));
        } else {
            assert(hold_cr(x + b).0 =~= x + hold_cr(b).0);
            lemma_normalize_concat(x, hold_cr(b).0);
        }
    }
}

/// Split invariance: feeding fragments one at a time gives the same frames, and leaves
/// the same state, as feeding their concatenation at once, however the text is cut.
pub proof fn lemma_split_invariance(pending: PendingView, cs: Seq<Seq<char>>)
    requires
        first_boundary_from(pending.0, 0) is None,
    ensures
        feed_all(pending, cs) == feed(pending, flatten(cs)),
    decreases cs.len(),
{
    if cs.len() == 0 {
        let h = hold_cr(held_cr(pending.1) + flatten(cs));
        if pending.1 {
            assert(held_cr(true) + flatten(cs) =~= seq!['\r']);
            assert(h.0 =~= Seq::<char>::empty());
        } else {
            assert(held_cr(false) + flatten(cs) =~= Seq::<char>::empty());
        }
        assert(normalize_newlines(h.0) =~= Seq::<char>::empty());
        assert(pending.0 + normalize_newlines(h.0) =~= pending.0);
    } else {
        let f = feed(pending, cs[0]);
        let rest = flatten(cs.skip(1));
        let h1 = hold_cr(held_cr(pending.1) + cs[0]);
        let s = pending.0 + normalize_newlines(h1.0);
        lemma_drain_rest_clean(s);
        lemma_split_invariance(f.1, cs.skip(1));
        lemma_hold_concat(pending.1, cs[0], rest);
        let h2 = hold_cr(held_cr(h1.1) + rest);
        let t = normalize_newlines(h2.0);
        assert(pending.0 + normalize_newlines(hold_cr(held_cr(pending.1) + flatten(cs)).0) =~= s
            + t);
        lemma_drain_concat(s, t);
    }
}

/// A line that is empty, a comment, or whitespace alone.
pub open spec fn is_blank_or_comment(line: Seq<char>) -> bool {
    line.len() == 0 || line[0] == ':' || forall|k: int| 0 <= k < line.len() ==> is_space(line[k])
}

proof fn lemma_all_space_trims_empty(s: Seq<char>)
    requires
        forall|k: int| 0 <= k < s.len() ==> is_space(s[k]),
    ensures
        trim(s).len() == 0,
    decreases s.len(),
{
    if s.len() > 0 {
        lemma_all_space_trims_empty(s.skip(1));
    }
}

proof fn lemma_blank_lines_collect_nothing(segs: Seq<Seq<char>>, n: int)
    requires
        n <= segs.len(),
        forall|j: int| 0 <= j < segs.len() ==> is_blank_or_comment(#[trigger] line_text(segs, j)),
    ensures
        apply_lines(segs, n) == (None::<Seq<char>>, Seq::<Seq<char>>::empty()),
    decreases n,
{
    if n > 0 {
        lemma_blank_lines_collect_nothing(segs, n - 1);
        let line = line_text(segs, n - 1);
        if !(line.len() == 0 || line[0] == ':') {
            crate::text::lemma_index_of_from(line, ':', 0);
            assert(crate::text::index_of_from(line, ':', 0) is None);
            lemma_all_space_trims_empty(line);
            assert(event_key().len() == 5);
            assert(data_key().len() == 4);
        }
    }
}

/// A block whose lines are all empty, comments or whitespace yields no frame.
pub proof fn lemma_comment_block_no_frame(b: Seq<char>)
    requires
        forall|j: int|
            0 <= j < split_at_newlines(b).len() ==> is_blank_or_comment(
                #[trigger] line_text(split_at_newlines(b), j),
            ),
    ensures
        block_frame(b) is None,
{
    let segs = split_at_newlines(b);
    lemma_blank_lines_collect_nothing(segs, segs.len() as int);
}

/// A block of comment, blank or whitespace lines, closed by a blank line, yields no
/// frame and leaves nothing behind: a fresh decoder stays as fresh as it was, so what
/// follows decodes as if the block had never come. `b` is the block as sent; read
/// with CR LF as LF it holds no blank line and does not end with a line break.
pub proof fn lemma_comment_block_leaves_nothing(b: Seq<char>)
    requires
        !(b.len() > 0 && b.last() == '\r'),
        first_boundary_from(normalize_newlines(b), 0) is None,
        !(normalize_newlines(b).len() > 0 && normalize_newlines(b).last() == '\n'),
        forall|j: int|
            0 <= j < split_at_newlines(normalize_newlines(b)).len() ==> is_blank_or_comment(
                #[trigger] line_text(split_at_newlines(normalize_newlines(b)), j),
            ),
    ensures
        feed((Seq::<char>::empty(), false), b + seq!['\n', '\n']) == (
            Seq::<FrameView>::empty(),
            (Seq::<char>::empty(), false),
        ),
{
    let nb = normalize_newlines(b);
    let nl = seq!['\n', '\n'];
    let w = b + nl;
    assert(held_cr(false) + w =~= w);
    assert(w.last() == '\n');
    assert(nl.skip(1) =~= seq!['\n']);
    assert(seq!['\n'].skip(1) =~= Seq::<char>::empty());
    assert(normalize_newlines(Seq::<char>::empty()) =~= Seq::<char>::empty());
    assert(seq!['\n'] + Seq::<char>::empty() =~= seq!['\n']);
    assert(normalize_newlines(seq!['\n']) =~= seq!['\n']);
    assert(seq!['\n'] + seq!['\n'] =~= nl);
    assert(normalize_newlines(nl) =~= nl);
    lemma_normalize_concat(b, nl);
    let t = nb + nl;
    assert(Seq::<char>::empty() + normalize_newlines(w) =~= t);
    let l = nb.len() as int;
    lemma_first_boundary(nb, 0);
    lemma_first_boundary(t, 0);
    assert(boundary_at(t, l));
    match first_boundary_from(t, 0) {
        Some(j) => {
            if j < l {
                if j + 1 < l {
                    assert(boundary_at(nb, j));
                } else {
                    assert(t[j] == nb.last());
                }
            }
        },
        None => {},
    }
    assert(t.take(l) =~= nb);
    assert(t.skip(l + 2) =~= Seq::<char>::empty());
    assert(drain(Seq::<char>::empty()) == (Seq::<FrameView>::empty(), Seq::<char>::empty()));
    lemma_comment_block_no_frame(nb);
    assert(block_frames(nb) =~= Seq::<FrameView>::empty());
    assert(Seq::<FrameView>::empty() + Seq::<FrameView>::empty() =~= Seq::<FrameView>::empty());
}

/// A block as sent whose lines, read with CR LF as LF, are all empty, comments or
/// whitespace: it holds no blank line, does not end with a line break, and does not
/// end with a CR.
pub open spec fn comment_block(b: Seq<char>) -> bool {
    &&& !(b.len() > 0 && b.last() == '\r')
    &&& first_boundary_from(normalize_newlines(b), 0) is None
    &&& !(normalize_newlines(b).len() > 0 && normalize_newlines(b).last() == '\n')
    &&& forall|j: int|
        0 <= j < split_at_newlines(normalize_newlines(b)).len() ==> is_blank_or_comment(
            #[trigger] line_text(split_at_newlines(normalize_newlines(b)), j),
        )
}

/// The blocks `bs`, each closed by a blank line.
pub open spec fn closed_blocks(bs: Seq<Seq<char>>) -> Seq<Seq<char>> {
    Seq::new(bs.len(), |k: int| bs[k] + seq!['\n', '\n'])
}

proof fn lemma_comment_blocks_feed_all(bs: Seq<Seq<char>>)
    requires
        forall|k: int| 0 <= k < bs.len() ==> comment_block(#[trigger] bs[k]),
    ensures
        feed_all((Seq::<char>::empty(), false), closed_blocks(bs)) == (
            Seq::<FrameView>::empty(),
            (Seq::<char>::empty(), false),
        ),
    decreases bs.len(),
{
    if bs.len() > 0 {
        let cbs = closed_blocks(bs);
        assert(comment_block(bs[0]));
        lemma_comment_block_leaves_nothing(bs[0]);
        assert(cbs.skip(1) =~= closed_blocks(bs.skip(1)));
        assert forall|k: int| 0 <= k < bs.skip(1).len() implies comment_block(
            #[trigger] bs.skip(1)[k],
        ) by {
            assert(bs.skip(1)[k] == bs[k + 1]);
        }
        lemma_comment_blocks_feed_all(bs.skip(1));
        assert(Seq::<FrameView>::empty() + Seq::<FrameView>::empty() =~= Seq::<FrameView>::empty());
    }
}

/// Comment blocks yield no frame: text made of blocks whose lines are all empty,
/// comments or whitespace, each closed by a blank line, yields no frame and leaves a
/// fresh decoder as fresh as it was, however it is cut into fragments. Blank lines
/// inside such text only split it into more such blocks (an empty block among them).
pub proof fn lemma_comment_blocks_leave_nothing(bs: Seq<Seq<char>>, cs: Seq<Seq<char>>)
    requires
        forall|k: int| 0 <= k < bs.len() ==> comment_block(#[trigger] bs[k]),
        flatten(cs) == flatten(closed_blocks(bs)),
    ensures
        feed_all((Seq::<char>::empty(), false), cs) == (
            Seq::<FrameView>::empty(),
            (Seq::<char>::empty(), false),
        ),
{
    let fresh = (Seq::<char>::empty(), false);
    lemma_split_invariance(fresh, cs);
    lemma_split_invariance(fresh, closed_blocks(bs));
    lemma_comment_blocks_feed_all(bs);
}

} // verus!
