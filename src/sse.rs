//! Incremental decoder for server-sent events.
//!
//! Raw text arrives in arbitrary fragments; the decoder buffers it and hands
//! out one frame for each blank-line-terminated block that carries an event
//! name or data.
use vstd::prelude::*;
use crate::text::{chars_of, copy_range, find_char, index_of_from, string_of, trim, trim_chars};

verus! {

/// What a frame is made of: its event name, if any, and its data.
pub type FrameView = (Option<Seq<char>>, Seq<char>);

/// One decoded frame.
pub struct SseEvent {
    pub event: Option<String>,
    pub data: String,
}

impl View for SseEvent {
    type V = FrameView;

    open spec fn view(&self) -> FrameView {
        (
            match self.event {
                Some(e) => Some(e@),
                None => None,
            },
            self.data@,
        )
    }
}

pub open spec fn frames_view(v: Seq<SseEvent>) -> Seq<FrameView> {
    v.map_values(|e: SseEvent| e@)
}

/// `s` with every CR LF pair replaced by a single LF, read from left to right.
pub open spec fn normalize_newlines(s: Seq<char>) -> Seq<char>
    decreases s.len(),
{
    if s.len() == 0 {
        s
    } else if s.len() >= 2 && s[0] == '\r' && s[1] == '\n' {
        seq!['\n'] + normalize_newlines(s.skip(2))
    } else {
        seq![s[0]] + normalize_newlines(s.skip(1))
    }
}

/// A blank line (two consecutive LFs) starts at `i`.
pub open spec fn boundary_at(s: Seq<char>, i: int) -> bool {
    0 <= i && i + 1 < s.len() && s[i] == '\n' && s[i + 1] == '\n'
}

/// The leftmost blank-line boundary at or after `k`.
pub open spec fn first_boundary_from(s: Seq<char>, k: int) -> Option<int>
    decreases s.len() - k,
{
    if k < 0 || k + 1 >= s.len() {
        None
    } else if boundary_at(s, k) {
        Some(k)
    } else {
        first_boundary_from(s, k + 1)
    }
}

/// The pieces of `b` between its LFs (one more piece than there are LFs).
pub open spec fn split_at_newlines(b: Seq<char>) -> Seq<Seq<char>>
    decreases b.len(),
{
    if b.len() == 0 {
        seq![Seq::empty()]
    } else {
        let r = split_at_newlines(b.drop_last());
        if b.last() == '\n' {
            r.push(Seq::empty())
        } else {
            r.update(r.len() - 1, r.last().push(b.last()))
        }
    }
}

/// Line `j` of the pieces `segs`: a CR right before an LF belongs to the line ending.
pub open spec fn line_text(segs: Seq<Seq<char>>, j: int) -> Seq<char> {
    let seg = segs[j];
    if j < segs.len() - 1 && seg.len() > 0 && seg.last() == '\r' {
        seg.drop_last()
    } else {
        seg
    }
}

/// `v` without one leading space, if it has one.
pub open spec fn strip_one_space(v: Seq<char>) -> Seq<char> {
    if v.len() > 0 && v[0] == ' ' {
        v.skip(1)
    } else {
        v
    }
}

/// Key and value of a field line: split at the first colon; the key is trimmed,
/// the value loses one leading space. A line without a colon is a key alone.
pub open spec fn field_of(line: Seq<char>) -> (Seq<char>, Seq<char>) {
    match index_of_from(line, ':', 0) {
        Some(i) => (trim(line.take(i)), strip_one_space(line.skip(i + 1))),
        None => (trim(line), Seq::empty()),
    }
}

pub open spec fn event_key() -> Seq<char> {
    seq!['e', 'v', 'e', 'n', 't']
}

pub open spec fn data_key() -> Seq<char> {
    seq!['d', 'a', 't', 'a']
}

/// Event name and data lines collected so far within one block.
pub type FieldState = (Option<Seq<char>>, Seq<Seq<char>>);

/// How one line changes the collected fields. Empty lines and comments change nothing;
/// a non-empty `event` value replaces the name; a `data` value is appended.
pub open spec fn apply_line(st: FieldState, line: Seq<char>) -> FieldState {
    if line.len() == 0 || line[0] == ':' {
        st
    } else {
        let (k, v) = field_of(line);
        if k == event_key() && v.len() > 0 {
            (Some(v), st.1)
        } else if k == data_key() {
            (st.0, st.1.push(v))
        } else {
            st
        }
    }
}

/// The fields collected from the first `n` lines of `segs`.
pub open spec fn apply_lines(segs: Seq<Seq<char>>, n: int) -> FieldState
    decreases n,
{
    if n <= 0 {
        (None, Seq::empty())
    } else {
        apply_line(apply_lines(segs, n - 1), line_text(segs, n - 1))
    }
}

/// `ls` joined with LF between consecutive items.
pub open spec fn join_lines(ls: Seq<Seq<char>>) -> Seq<char>
    decreases ls.len(),
{
    if ls.len() == 0 {
        Seq::empty()
    } else if ls.len() == 1 {
        ls[0]
    } else {
        join_lines(ls.drop_last()) + seq!['\n'] + ls.last()
    }
}

/// The frame a block yields: none when it has neither an event name nor a data line.
pub open spec fn block_frame(b: Seq<char>) -> Option<FrameView> {
    let segs = split_at_newlines(b);
    let st = apply_lines(segs, segs.len() as int);
    if st.0 is None && st.1.len() == 0 {
        None
    } else {
        Some((st.0, join_lines(st.1)))
    }
}

pub open spec fn block_frames(b: Seq<char>) -> Seq<FrameView> {
    match block_frame(b) {
        Some(f) => seq![f],
        None => Seq::empty(),
    }
}

/// Cuts complete blocks off the front of `s`: the frames they yield, in order,
/// and the text that is left after the last blank line.
pub open spec fn drain(s: Seq<char>) -> (Seq<FrameView>, Seq<char>)
    decreases s.len(),
{
    match first_boundary_from(s, 0) {
        Some(i) => if 0 <= i && i + 2 <= s.len() {
            let d = drain(s.skip(i + 2));
            (block_frames(s.take(i)) + d.0, d.1)
        } else {
            (Seq::empty(), s)
        },
        None => (Seq::empty(), s),
    }
}

/// Feeding `chunk` to a decoder in state `pending`: the frames out and the new state.
/// A CR held back from the last chunk comes first; a CR that ends the text is held back.
pub open spec fn feed(pending: PendingView, chunk: Seq<char>) -> (Seq<FrameView>, PendingView) {
    let h = hold_cr(held_cr(pending.1) + chunk);
    let d = drain(pending.0 + normalize_newlines(h.0));
    (d.0, (d.1, h.1))
}

/// A decoder's state as plain data: the text, CR LF already read as LF, that is not
/// yet part of a complete block; and whether a CR that ended the last chunk is held
/// back, since the next chunk may start with its LF.
pub type PendingView = (Seq<char>, bool);

/// The CR held back, if any.
pub open spec fn held_cr(cr: bool) -> Seq<char> {
    if cr {
        seq!['\r']
    } else {
        Seq::empty()
    }
}

/// `x` without a final CR, and whether there was one.
pub open spec fn hold_cr(x: Seq<char>) -> (Seq<char>, bool) {
    if x.len() > 0 && x.last() == '\r' {
        (x.drop_last(), true)
    } else {
        (x, false)
    }
}

/// The boundary found is a blank line with none before it; where none is found there is none.
pub proof fn lemma_first_boundary(s: Seq<char>, k: int)
    requires
        0 <= k,
    ensures
        match first_boundary_from(s, k) {
            Some(i) => k <= i && boundary_at(s, i) && forall|j: int|
                k <= j < i ==> !boundary_at(s, j),
            None => forall|j: int| k <= j ==> !boundary_at(s, j),
        },
    decreases s.len() - k,
{
    if k + 1 < s.len() && !boundary_at(s, k) {
        lemma_first_boundary(s, k + 1);
    }
}

/// `c` with its CR LF pairs replaced by LF.
fn normalize_chunk(c: &[char]) -> (r: Vec<char>)
    ensures
        r@ == normalize_newlines(c@),
{
    let mut out: Vec<char> = Vec::new();
    let mut i: usize = 0;
    proof {
        assert(c@.subrange(0, c@.len() as int) =~= c@);
    }
    while i < c.len()
        invariant
            i <= c@.len(),
            normalize_newlines(c@) == out@ + normalize_newlines(
                c@.subrange(i as int, c@.len() as int),
            ),
        decreases c@.len() - i,
    {
        let ghost t = c@.subrange(i as int, c@.len() as int);
        if i + 1 < c.len() && c[i] == '\r' && c[i + 1] == '\n' {
            proof {
                assert(t.skip(2) =~= c@.subrange(i + 2, c@.len() as int));
                assert(out@ + (seq!['\n'] + t.skip(2)) =~= out@.push('\n') + t.skip(2));
            }
            out.push('\n');
            i += 2;
        } else {
            proof {
                assert(t.skip(1) =~= c@.subrange(i + 1, c@.len() as int));
                assert(out@ + (seq![t[0]] + t.skip(1)) =~= out@.push(t[0]) + t.skip(1));
            }
            out.push(c[i]);
            i += 1;
        }
    }
    proof {
        assert(out@ + normalize_newlines(c@.subrange(i as int, c@.len() as int)) =~= out@);
    }
    out
}

/// The leftmost blank-line boundary of `s`.
fn find_boundary(s: &[char]) -> (r: Option<usize>)
    ensures
        match r {
            Some(i) => first_boundary_from(s@, 0) == Some(i as int),
            None => first_boundary_from(s@, 0) is None,
        },
{
    let mut k: usize = 0;
    while k < s.len() && k < s.len() - 1
        invariant
            k <= s@.len(),
            first_boundary_from(s@, 0) == first_boundary_from(s@, k as int),
        decreases s@.len() - k,
    {
        if s[k] == '\n' && s[k + 1] == '\n' {
            return Some(k);
        }
        k += 1;
    }
    None
}

pub open spec fn views(v: Seq<Vec<char>>) -> Seq<Seq<char>> {
    v.map_values(|x: Vec<char>| x@)
}

/// The pieces of `b` between its LFs.
fn split_pieces(b: &[char]) -> (r: Vec<Vec<char>>)
    ensures
        views(r@) == split_at_newlines(b@),
{
    let mut done: Vec<Vec<char>> = Vec::new();
    let mut cur: Vec<char> = Vec::new();
    let mut i: usize = 0;
    proof {
        assert(b@.take(0) =~= Seq::<char>::empty());
        assert(views(done@).push(cur@) =~= seq![Seq::<char>::empty()]);
    }
    while i < b.len()
        invariant
            i <= b@.len(),
            views(done@).push(cur@) == split_at_newlines(b@.take(i as int)),
        decreases b@.len() - i,
    {
        let c = b[i];
        proof {
            assert(b@.take(i + 1).drop_last() =~= b@.take(i as int));
            assert(b@.take(i + 1).last() == c);
        }
        if c == '\n' {
            proof {
                assert(views(done@.push(cur)).push(Seq::<char>::empty()) =~= views(done@).push(
                    cur@,
                ).push(Seq::<char>::empty()));
            }
            done.push(cur);
            cur = Vec::new();
        } else {
            let ghost r = views(done@).push(cur@);
            cur.push(c);
            proof {
                assert(views(done@).push(cur@) =~= r.update(r.len() - 1, r.last().push(c)));
            }
        }
        i += 1;
    }
    proof {
        assert(b@.take(b@.len() as int) =~= b@);
    }
    let ghost before = views(done@).push(cur@);
    done.push(cur);
    proof {
        assert(views(done@) =~= before);
    }
    done
}

/// Line `j` of `segs` without a CR that precedes its LF.
fn line_at(segs: &Vec<Vec<char>>, j: usize) -> (r: Vec<char>)
    requires
        j < segs@.len(),
    ensures
        r@ == line_text(views(segs@), j as int),
{
    let seg = &segs[j];
    if j < segs.len() - 1 && seg.len() > 0 && seg[seg.len() - 1] == '\r' {
        let r = copy_range(seg, 0, seg.len() - 1);
        proof {
            assert(r@ =~= seg@.drop_last());
        }
        r
    } else {
        let r = copy_range(seg, 0, seg.len());
        proof {
            assert(r@ =~= seg@);
        }
        r
    }
}

/// Key and value of a field line.
fn split_field(line: &[char]) -> (r: (Vec<char>, Vec<char>))
    ensures
        (r.0@, r.1@) == field_of(line@),
{
    match find_char(line, ':') {
        Some(i) => {
            proof {
                crate::text::lemma_index_of_from(line@, ':', 0);
            }
            let head = copy_range(line, 0, i);
            let key = trim_chars(&head);
            let mut start = i;
            if start < line.len() {
                start = start + 1;
            }
            if start < line.len() && line[start] == ' ' {
                start = start + 1;
            }
            let value = copy_range(line, start, line.len());
            proof {
                assert(head@ =~= line@.take(i as int));
                let v = line@.skip(i + 1);
                if v.len() > 0 && v[0] == ' ' {
                    assert(value@ =~= v.skip(1));
                } else {
                    assert(value@ =~= v);
                }
            }
            (key, value)
        },
        None => {
            let key = trim_chars(line);
            (key, Vec::new())
        },
    }
}

/// Applies one line to the collected event name and data lines.
fn apply_field_line(
    event: &mut Option<Vec<char>>,
    data: &mut Vec<Vec<char>>,
    line: &[char],
)
    ensures
        ({
            let st = apply_line(
                (
                    match *old(event) {
                        Some(e) => Some(e@),
                        None => None,
                    },
                    views(old(data)@),
                ),
                line@,
            );
            &&& st.0 == match *final(event) {
                Some(e) => Some(e@),
                None => None,
            }
            &&& st.1 == views(final(data)@)
        }),
{
    if line.len() == 0 || line[0] == ':' {
        return;
    }
    let (key, value) = split_field(line);
    let event_word: Vec<char> = vec!['e', 'v', 'e', 'n', 't'];
    let data_word: Vec<char> = vec!['d', 'a', 't', 'a'];
    proof {
        assert(event_word@ =~= event_key());
        assert(data_word@ =~= data_key());
    }
    if crate::text::chars_eq(&key, &event_word) && value.len() > 0 {
        *event = Some(value);
    } else if crate::text::chars_eq(&key, &data_word) {
        let ghost before = views(data@);
        data.push(value);
        proof {
            assert(views(data@) =~= before.push(value@));
        }
    }
}

/// `ls` joined with LF.
fn join_with_newlines(ls: &Vec<Vec<char>>) -> (r: Vec<char>)
    ensures
        r@ == join_lines(views(ls@)),
{
    let mut out: Vec<char> = Vec::new();
    let mut j: usize = 0;
    while j < ls.len()
        invariant
            j <= ls@.len(),
            out@ == join_lines(views(ls@).take(j as int)),
        decreases ls@.len() - j,
    {
        let ghost prev = out@;
        let line = &ls[j];
        if j > 0 {
            out.push('\n');
        }
        let mut k: usize = 0;
        let ghost base = out@;
        while k < line.len()
            invariant
                k <= line@.len(),
                out@ == base + line@.take(k as int),
            decreases line@.len() - k,
        {
            out.push(line[k]);
            k += 1;
            proof {
                assert(out@ =~= base + line@.take(k as int));
            }
        }
        proof {
            let t = views(ls@).take(j + 1);
            assert(t.drop_last() =~= views(ls@).take(j as int));
            assert(line@.take(line@.len() as int) =~= line@);
            if j == 0 {
                assert(out@ =~= t[0]);
            } else {
                assert(out@ =~= prev + seq!['\n'] + t.last());
            }
        }
        j += 1;
    }
    proof {
        assert(views(ls@).take(ls@.len() as int) =~= views(ls@));
    }
    out
}

/// Parses one block (the text before a blank line) into a frame.
pub fn parse_block(block: &[char]) -> (r: Option<SseEvent>)
    ensures
        match r {
            Some(e) => block_frame(block@) == Some(e@),
            None => block_frame(block@) is None,
        },
{
    let segs = split_pieces(block);
    let mut event: Option<Vec<char>> = None;
    let mut data: Vec<Vec<char>> = Vec::new();
    let mut j: usize = 0;
    while j < segs.len()
        invariant
            j <= segs@.len(),
            views(segs@) == split_at_newlines(block@),
            apply_lines(views(segs@), j as int) == (
                match event {
                    Some(e) => Some(e@),
                    None => None,
                },
                views(data@),
            ),
        decreases segs@.len() - j,
    {
        let line = line_at(&segs, j);
        apply_field_line(&mut event, &mut data, &line);
        j += 1;
    }
    if event.is_none() && data.len() == 0 {
        return None;
    }
    let joined = join_with_newlines(&data);
    let text = string_of(&joined);
    let name = match event {
        Some(e) => Some(string_of(&e)),
        None => None,
    };
    Some(SseEvent { event: name, data: text })
}

/// Buffers raw text and cuts it into frames at blank lines.
pub struct SseDecoder {
    buffer: Vec<char>,
    pending_cr: bool,
}

impl View for SseDecoder {
    type V = PendingView;

    /// The text received but not yet part of a complete block, and the CR held back.
    closed spec fn view(&self) -> PendingView {
        (self.buffer@, self.pending_cr)
    }
}

impl Default for SseDecoder {
    fn default() -> (r: Self)
        ensures
            r@ == (Seq::<char>::empty(), false),
    {
        SseDecoder { buffer: Vec::new(), pending_cr: false }
    }
}

impl SseDecoder {
    /// Adds `chunk` (with CR LF read as LF, also where the pair is cut between chunks)
    /// to the pending text and returns, in order, the frames of every block that is
    /// now complete.
    pub fn ingest(&mut self, chunk: &str) -> (r: Vec<SseEvent>)
        ensures
            frames_view(r@) == feed(old(self)@, chunk@).0,
            final(self)@ == feed(old(self)@, chunk@).1,
            first_boundary_from(final(self)@.0, 0) is None,
    {
        let mut raw: Vec<char> = if self.pending_cr {
            vec!['\r']
        } else {
            Vec::new()
        };
        proof {
            assert(raw@ =~= held_cr(old(self)@.1));
        }
        let cs = chars_of(chunk);
        crate::text::append_chars(&mut raw, &cs);
        let ghost h = hold_cr(held_cr(old(self)@.1) + chunk@);
        let held = raw.len() > 0 && raw[raw.len() - 1] == '\r';
        if held {
            raw.pop();
        }
        proof {
            assert(raw@ =~= h.0);
            crate::sse_laws::lemma_drain_rest_clean(old(self)@.0 + normalize_newlines(h.0));
        }
        let norm = normalize_chunk(&raw);
        let mut buf: Vec<char> = Vec::new();
        std::mem::swap(&mut buf, &mut self.buffer);
        let mut k: usize = 0;
        while k < norm.len()
            invariant
                k <= norm@.len(),
                buf@ == old(self)@.0 + norm@.take(k as int),
            decreases norm@.len() - k,
        {
            buf.push(norm[k]);
            k += 1;
            proof {
                assert(buf@ =~= old(self)@.0 + norm@.take(k as int));
            }
        }
        proof {
            assert(norm@.take(norm@.len() as int) =~= norm@);
        }
        let mut events: Vec<SseEvent> = Vec::new();
        loop
            invariant
                drain(old(self)@.0 + normalize_newlines(h.0)) == (
                    frames_view(events@) + drain(buf@).0,
                    drain(buf@).1,
                ),
            ensures
                drain(buf@) == (Seq::<FrameView>::empty(), buf@),
            decreases buf@.len(),
        {
            match find_boundary(&buf) {
                None => {
                    proof {
                        assert(drain(buf@) == (Seq::<FrameView>::empty(), buf@));
                        assert(frames_view(events@) + Seq::<FrameView>::empty() =~= frames_view(
                            events@,
                        ));
                    }
                    break;
                },
                Some(i) => {
                    proof {
                        lemma_first_boundary(buf@, 0);
                    }
                    let block = copy_range(&buf, 0, i);
                    let n = buf.len();
                    let rest = copy_range(&buf, i + 2, n);
                    proof {
                        assert(block@ =~= buf@.take(i as int));
                        assert(rest@ =~= buf@.skip(i + 2));
                    }
                    let ghost before = frames_view(events@);
                    match parse_block(&block) {
                        Some(e) => {
                            events.push(e);
                            proof {
                                assert(frames_view(events@) =~= before + block_frames(block@));
                            }
                        },
                        None => {
                            proof {
                                assert(before =~= before + block_frames(block@));
                            }
                        },
                    }
                    proof {
                        let d = drain(rest@);
                        assert(before + (block_frames(block@) + d.0) =~= (before + block_frames(
                            block@,
                        )) + d.0);
                    }
                    buf = rest;
                },
            }
        }
        proof {
            assert(frames_view(events@) + Seq::<FrameView>::empty() =~= frames_view(events@));
        }
        self.buffer = buf;
        self.pending_cr = held;
        events
    }
}

} // verus!
