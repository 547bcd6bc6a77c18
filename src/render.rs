//! Incremental repaint of a growing Markdown answer.
//!
//! Every update restyles the whole text; only the lines after the part shared with
//! the previous render are written again.
use vstd::prelude::*;
use crate::config::has_content;
use crate::text::{chars_of, is_space, string_of, trim_chars, trim_end, trim_start};

verus! {

#[verifier::external_type_specification]
#[verifier::external_body]
pub struct ExMadSkin(termimad::MadSkin);

/// Relies on `termimad::MadSkin::term_text`: the Markdown styled for the terminal,
/// wrapped to the terminal's current width.
#[verifier::external_body]
fn styled_markdown(skin: &termimad::MadSkin, markdown: &str) -> String {
    format!("{}", skin.term_text(markdown))
}

/// `t` with a final LF, added where it has none.
pub open spec fn with_newline(t: Seq<char>) -> Seq<char> {
    if t.len() > 0 && t.last() == '\n' {
        t
    } else {
        t.push('\n')
    }
}

/// `t` cut after each LF; each line keeps its LF, a last line without one stays as it is.
pub open spec fn split_inclusive(t: Seq<char>) -> Seq<Seq<char>>
    decreases t.len(),
{
    if t.len() == 0 {
        Seq::empty()
    } else {
        let r = split_inclusive(t.drop_last());
        if r.len() > 0 && r.last().len() > 0 && r.last().last() != '\n' {
            r.update(r.len() - 1, r.last().push(t.last()))
        } else {
            r.push(seq![t.last()])
        }
    }
}

/// The display lines of a rendered text.
pub open spec fn display_lines(rendered: Seq<char>) -> Seq<Seq<char>> {
    split_inclusive(with_newline(rendered))
}

/// Length of the longest run of equal lines at the start of `a` and `b`.
pub open spec fn common_prefix_len(a: Seq<Seq<char>>, b: Seq<Seq<char>>) -> nat
    decreases a.len(),
{
    if a.len() == 0 || b.len() == 0 || a[0] != b[0] {
        0
    } else {
        1 + common_prefix_len(a.skip(1), b.skip(1))
    }
}

pub open spec fn string_views(v: Seq<String>) -> Seq<Seq<char>> {
    v.map_values(|s: String| s@)
}

/// What to do on the terminal: move up `clear_lines` lines and clear below (where it
/// is not zero), then write `lines`.
pub struct RepaintPlan {
    pub clear_lines: usize,
    pub lines: Vec<String>,
}

/// The plan for going from the lines `old` to the lines `new`, as plain data.
pub open spec fn plan_for(old: Seq<Seq<char>>, new: Seq<Seq<char>>) -> (int, Seq<Seq<char>>) {
    let c = common_prefix_len(old, new);
    (old.len() - c, new.skip(c as int))
}

/// Repaints the terminal as a Markdown answer grows.
pub struct ResponseRenderer {
    skin: termimad::MadSkin,
    rendered_lines: Vec<String>,
}

impl View for ResponseRenderer {
    type V = Seq<Seq<char>>;

    /// The lines on screen from the last render.
    closed spec fn view(&self) -> Seq<Seq<char>> {
        string_views(self.rendered_lines@)
    }
}

/// The shared run is no longer than either side, its lines agree, and it ends at the
/// first disagreement.
pub proof fn lemma_common_prefix_bounds(a: Seq<Seq<char>>, b: Seq<Seq<char>>)
    ensures
        common_prefix_len(a, b) <= a.len(),
        common_prefix_len(a, b) <= b.len(),
        forall|i: int| 0 <= i < common_prefix_len(a, b) ==> a[i] == b[i],
        common_prefix_len(a, b) < a.len() && common_prefix_len(a, b) < b.len() ==> a[common_prefix_len(a, b) as int]
            != b[common_prefix_len(a, b) as int],
    decreases a.len(),
{
    if !(a.len() == 0 || b.len() == 0 || a[0] != b[0]) {
        lemma_common_prefix_bounds(a.skip(1), b.skip(1));
        let c = common_prefix_len(a, b);
        assert forall|i: int| 0 <= i < c implies a[i] == b[i] by {
            if i > 0 {
                assert(a.skip(1)[i - 1] == b.skip(1)[i - 1]);
            }
        }
    }
}

/// Number of equal lines at the start of `a` and `b`.
pub fn count_common_prefix(a: &[String], b: &[String]) -> (r: usize)
    ensures
        r == common_prefix_len(string_views(a@), string_views(b@)),
{
    let ghost va = string_views(a@);
    let ghost vb = string_views(b@);
    let mut i: usize = 0;
    proof {
        assert(va.skip(0) =~= va);
        assert(vb.skip(0) =~= vb);
    }
    while i < a.len() && i < b.len() && a[i] == b[i]
        invariant
            i <= a@.len(),
            i <= b@.len(),
            va == string_views(a@),
            vb == string_views(b@),
            common_prefix_len(va, vb) == i + common_prefix_len(va.skip(i as int), vb.skip(i as int)),
        decreases a@.len() - i,
    {
        proof {
            assert(va.skip(i as int).skip(1) =~= va.skip(i + 1));
            assert(vb.skip(i as int).skip(1) =~= vb.skip(i + 1));
        }
        i += 1;
    }
    i
}

/// The display lines of `rendered`, each with its LF.
pub fn split_display_lines(rendered: &str) -> (r: Vec<String>)
    ensures
        string_views(r@) == display_lines(rendered@),
{
    let mut t = chars_of(rendered);
    if t.len() == 0 || t[t.len() - 1] != '\n' {
        t.push('\n');
    }
    let mut lines: Vec<String> = Vec::new();
    let mut cur: Vec<char> = Vec::new();
    let mut i: usize = 0;
    while i < t.len()
        invariant
            i <= t@.len(),
            t@ == with_newline(rendered@),
            cur@.len() == 0 || cur@.last() != '\n',
            cur@.len() == 0 <==> (i == 0 || t@[i - 1] == '\n'),
            split_inclusive(t@.take(i as int)) == if cur@.len() == 0 {
                string_views(lines@)
            } else {
                string_views(lines@).push(cur@)
            },
            forall|j: int| 0 <= j < lines@.len() ==> (#[trigger] lines@[j])@.len() > 0 && lines@[j]@.last() == '\n',
        decreases t@.len() - i,
    {
        let c = t[i];
        let ghost before = string_views(lines@);
        let ghost old_cur = cur@;
        let ghost r = split_inclusive(t@.take(i as int));
        proof {
            assert(t@.take(i + 1).drop_last() =~= t@.take(i as int));
            assert(t@.take(i + 1).last() == c);
            if old_cur.len() == 0 {
                if before.len() > 0 {
                    assert(before.last() == lines@[lines@.len() - 1]@);
                }
                assert(split_inclusive(t@.take(i + 1)) == before.push(seq![c]));
                assert(old_cur.push(c) =~= seq![c]);
            } else {
                assert(r.last() == old_cur);
                assert(split_inclusive(t@.take(i + 1)) =~= before.push(old_cur.push(c)));
            }
        }
        cur.push(c);
        if c == '\n' {
            let s = string_of(&cur);
            lines.push(s);
            cur = Vec::new();
            proof {
                assert(string_views(lines@) =~= before.push(s@));
            }
        }
        i += 1;
    }
    proof {
        assert(t@.take(t@.len() as int) =~= t@);
    }
    lines
}

impl ResponseRenderer {
    /// A renderer that styles with `skin` and has drawn nothing yet.
    pub fn new(skin: termimad::MadSkin) -> (r: Self)
        ensures
            r@ == Seq::<Seq<char>>::empty(),
    {
        let r = ResponseRenderer { skin, rendered_lines: Vec::new() };
        proof {
            assert(string_views(r.rendered_lines@) =~= Seq::<Seq<char>>::empty());
        }
        r
    }

    /// Takes a new rendering of the whole answer: the plan repaints the lines after
    /// the part it shares with the previous one, and these lines become the screen.
    pub fn repaint(&mut self, rendered: &str) -> (r: RepaintPlan)
        ensures
            final(self)@ == display_lines(rendered@),
            r.clear_lines as int == plan_for(old(self)@, display_lines(rendered@)).0,
            string_views(r.lines@) == plan_for(old(self)@, display_lines(rendered@)).1,
    {
        let new_lines = split_display_lines(rendered);
        let common = count_common_prefix(&self.rendered_lines, &new_lines);
        proof {
            lemma_common_prefix_bounds(self@, display_lines(rendered@));
        }
        let clear_lines = self.rendered_lines.len() - common;
        let mut out: Vec<String> = Vec::new();
        let mut k: usize = common;
        while k < new_lines.len()
            invariant
                common <= k <= new_lines@.len(),
                string_views(out@) == string_views(new_lines@).subrange(common as int, k as int),
            decreases new_lines@.len() - k,
        {
            let ghost before = string_views(out@);
            let line = new_lines[k].clone();
            proof {
                assert(line@ == string_views(new_lines@)[k as int]);
            }
            out.push(line);
            k += 1;
            proof {
                assert(string_views(out@) =~= before.push(line@));
                assert(string_views(out@) =~= string_views(new_lines@).subrange(
                    common as int,
                    k as int,
                ));
            }
        }
        proof {
            assert(string_views(new_lines@).subrange(common as int, new_lines@.len() as int)
                =~= string_views(new_lines@).skip(common as int));
        }
        self.rendered_lines = new_lines;
        RepaintPlan { clear_lines, lines: out }
    }

    /// Styles the whole answer so far and plans its repaint; nothing happens where
    /// the answer is whitespace alone.
    pub fn render(&mut self, markdown: &str) -> (r: Option<RepaintPlan>)
        ensures
            render_step(old(self)@, markdown@, final(self)@),
            !has_content(markdown@) ==> r is None && final(self)@ == old(self)@,
            has_content(markdown@) ==> r is Some && final(self)@.len() > 0 && exists|t: Seq<char>|
                #![auto]
                final(self)@ == display_lines(t) && r->Some_0.clear_lines as int == plan_for(
                    old(self)@,
                    final(self)@,
                ).0 && string_views(r->Some_0.lines@) == plan_for(old(self)@, final(self)@).1,
    {
        let md = chars_of(markdown);
        let trimmed = trim_chars(&md);
        if trimmed.len() == 0 {
            return None;
        }
        let styled = styled_markdown(&self.skin, markdown);
        let plan = self.repaint(styled.as_str());
        proof {
            lemma_display_lines_nonempty(styled@);
        }
        Some(plan)
    }

    /// Ends the answer: the next render starts on a fresh screen.
    pub fn finish(&mut self)
        ensures
            final(self)@ == Seq::<Seq<char>>::empty(),
    {
        self.rendered_lines = Vec::new();
        proof {
            assert(string_views(self.rendered_lines@) =~= Seq::<Seq<char>>::empty());
        }
    }

    /// Whether anything has been drawn since the start or the last `finish`.
    pub fn has_output(&self) -> (r: bool)
        ensures
            r == (self@.len() > 0),
    {
        self.rendered_lines.len() > 0
    }
}

/// A non-empty text has at least one line.
pub proof fn lemma_split_inclusive_nonempty(t: Seq<char>)
    requires
        t.len() > 0,
    ensures
        split_inclusive(t).len() > 0,
{
}

/// A rendering always has at least one display line.
pub proof fn lemma_display_lines_nonempty(t: Seq<char>)
    ensures
        display_lines(t).len() > 0,
{
    lemma_split_inclusive_nonempty(with_newline(t));
}

proof fn lemma_common_prefix_self(a: Seq<Seq<char>>)
    ensures
        common_prefix_len(a, a) == a.len(),
    decreases a.len(),
{
    if a.len() > 0 {
        lemma_common_prefix_self(a.skip(1));
    }
}

/// Idempotence: once a rendering has been taken, taking the same rendering again
/// clears nothing and writes nothing, and the screen stays as it is.
pub proof fn lemma_repaint_idempotent(t: Seq<char>)
    ensures
        plan_for(display_lines(t), display_lines(t)).0 == 0,
        plan_for(display_lines(t), display_lines(t)).1.len() == 0,
{
    lemma_common_prefix_self(display_lines(t));
}

proof fn lemma_trim_start_skip(s: Seq<char>) -> (k: int)
    ensures
        0 <= k <= s.len(),
        trim_start(s) == s.skip(k),
        forall|j: int| 0 <= j < k ==> is_space(s[j]),
        k < s.len() ==> !is_space(s[k]),
    decreases s.len(),
{
    if s.len() > 0 && is_space(s[0]) {
        let k1 = lemma_trim_start_skip(s.skip(1));
        assert(s.skip(1).skip(k1) =~= s.skip(k1 + 1));
        assert forall|j: int| 0 <= j < k1 + 1 implies is_space(s[j]) by {
            if j > 0 {
                assert(s[j] == s.skip(1)[j - 1]);
            }
        }
        k1 + 1
    } else {
        assert(s.skip(0) =~= s);
        0
    }
}

proof fn lemma_trim_end_take(s: Seq<char>) -> (m: int)
    ensures
        0 <= m <= s.len(),
        trim_end(s) == s.take(m),
        forall|j: int| m <= j < s.len() ==> is_space(s[j]),
        m > 0 ==> !is_space(s[m - 1]),
    decreases s.len(),
{
    if s.len() > 0 && is_space(s.last()) {
        let m1 = lemma_trim_end_take(s.drop_last());
        assert(s.drop_last().take(m1) =~= s.take(m1));
        assert forall|j: int| m1 <= j < s.len() implies is_space(s[j]) by {
            if j < s.len() - 1 {
                assert(s[j] == s.drop_last()[j]);
            }
        }
        m1
    } else {
        assert(s.take(s.len() as int) =~= s);
        s.len() as int
    }
}

proof fn lemma_content_has_non_space(s: Seq<char>, i: int)
    requires
        0 <= i < s.len(),
        !is_space(s[i]),
    ensures
        has_content(s),
{
    let k = lemma_trim_start_skip(s);
    let u = s.skip(k);
    let m = lemma_trim_end_take(u);
    if m == 0 {
        assert(!is_space(u[0]));
    }
}

/// Monotonicity of output: text that is more than whitespace stays so when more text
/// is appended. By the contract of `render`, once a render of a growing answer has
/// drawn output, `has_output` holds after every later render until `finish`.
pub proof fn lemma_growing_text_keeps_content(a: Seq<char>, s: Seq<char>)
    requires
        has_content(a),
    ensures
        has_content(a + s),
{
    let k = lemma_trim_start_skip(a);
    let u = a.skip(k);
    let m = lemma_trim_end_take(u);
    assert(u[m - 1] == a[k + m - 1]);
    assert((a + s)[k + m - 1] == a[k + m - 1]);
    lemma_content_has_non_space(a + s, k + m - 1);
}

/// The screen `after` is one that rendering `markdown` may leave from the screen
/// `before`: a rendering of some styled text where the markdown is more than
/// whitespace, else `before` unchanged.
pub open spec fn render_step(before: Seq<Seq<char>>, markdown: Seq<char>, after: Seq<Seq<char>>) -> bool {
    if has_content(markdown) {
        exists|t: Seq<char>| after == #[trigger] display_lines(t)
    } else {
        after == before
    }
}

/// Monotonicity of output over a whole answer: when the first text rendered is more
/// than whitespace and every later text extends the one before, the screen holds
/// output after the first render and after every later one, until `finish`.
pub proof fn lemma_output_persists(screens: Seq<Seq<Seq<char>>>, texts: Seq<Seq<char>>)
    requires
        texts.len() > 0,
        screens.len() == texts.len() + 1,
        has_content(texts[0]),
        forall|i: int|
            0 <= i < texts.len() ==> render_step(#[trigger] screens[i], texts[i], screens[i + 1]),
        forall|i: int| 0 <= i < texts.len() - 1 ==> (#[trigger] texts[i]).is_prefix_of(texts[i + 1]),
    ensures
        forall|i: int| 1 <= i <= texts.len() ==> (#[trigger] screens[i]).len() > 0,
{
    assert forall|i: int| 0 <= i < texts.len() implies has_content(#[trigger] texts[i]) by {
        lemma_prefix_content(texts, i);
    }
    assert forall|i: int| 1 <= i <= texts.len() implies (#[trigger] screens[i]).len() > 0 by {
        assert(has_content(texts[i - 1]));
        assert(render_step(screens[i - 1], texts[i - 1], screens[i]));
        let t = choose|t: Seq<char>| screens[i] == #[trigger] display_lines(t);
        lemma_display_lines_nonempty(t);
    }
}

proof fn lemma_prefix_content(texts: Seq<Seq<char>>, i: int)
    requires
        0 <= i < texts.len(),
        has_content(texts[0]),
        forall|j: int| 0 <= j < texts.len() - 1 ==> (#[trigger] texts[j]).is_prefix_of(texts[j + 1]),
    ensures
        has_content(texts[i]),
    decreases i,
{
    if i > 0 {
        lemma_prefix_content(texts, i - 1);
        let a = texts[i - 1];
        let b = texts[i];
        assert(a.is_prefix_of(b));
        assert(b =~= a + b.skip(a.len() as int));
        lemma_growing_text_keeps_content(a, b.skip(a.len() as int));
    }
}

} // verus!
