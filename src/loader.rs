//! The progress indicator's text: elapsed time and the spinner's frames.
use vstd::prelude::*;
use crate::text::{append_chars, append_str, decimal, join_with, push_decimal, string_of};

verus! {

/// The whole seconds of a duration.
pub uninterp spec fn duration_secs(d: std::time::Duration) -> nat;

/// The milliseconds of a duration beyond its whole seconds.
pub uninterp spec fn duration_millis(d: std::time::Duration) -> nat;

/// Relies on `Duration::as_secs`: the whole seconds of the duration.
#[verifier::external_body]
fn whole_seconds(d: &std::time::Duration) -> (r: u64)
    ensures
        r as nat == duration_secs(*d),
{
    d.as_secs()
}

/// Relies on `Duration::subsec_millis`: the fractional part in milliseconds, which
/// its documentation bounds below one thousand.
#[verifier::external_body]
fn fraction_millis(d: &std::time::Duration) -> (r: u32)
    ensures
        r < 1000,
        r as nat == duration_millis(*d),
{
    d.subsec_millis()
}

/// The parts of an elapsed time of at least one second: hours, minutes and seconds
/// that are not zero, and the seconds where both others are zero.
pub open spec fn elapsed_parts(secs: nat) -> Seq<Seq<char>> {
    let h = secs / 3600;
    let m = (secs % 3600) / 60;
    let s = secs % 60;
    (if h > 0 {
        seq![decimal(h) + "h"@]
    } else {
        Seq::empty()
    }) + (if m > 0 {
        seq![decimal(m) + "m"@]
    } else {
        Seq::empty()
    }) + (if s > 0 || (h == 0 && m == 0) {
        seq![decimal(s) + "s"@]
    } else {
        Seq::empty()
    })
}

/// An elapsed time as text: milliseconds below one second (`450ms`), else its parts
/// joined by spaces (`2m 5s`, `3h 42m 9s`).
pub open spec fn elapsed_text(secs: nat, millis: nat) -> Seq<char> {
    if secs == 0 {
        decimal(millis) + "ms"@
    } else {
        join_with(elapsed_parts(secs), ' ')
    }
}

fn unit_part(n: u64, unit: &str) -> (r: Vec<char>)
    ensures
        r@ == decimal(n as nat) + unit@,
{
    let mut out: Vec<char> = Vec::new();
    push_decimal(&mut out, n);
    append_str(&mut out, unit);
    proof {
        assert(Seq::<char>::empty() + decimal(n as nat) =~= decimal(n as nat));
    }
    out
}

/// Formats an elapsed time given as whole seconds and the milliseconds beyond them.
pub fn format_elapsed_parts(total_secs: u64, millis: u32) -> (r: String)
    ensures
        r@ == elapsed_text(total_secs as nat, millis as nat),
{
    if total_secs == 0 {
        let out = unit_part(millis as u64, "ms");
        return string_of(&out);
    }
    let hours = total_secs / 3600;
    let minutes = (total_secs % 3600) / 60;
    let seconds = total_secs % 60;
    let mut parts: Vec<Vec<char>> = Vec::new();
    let ghost mut expect: Seq<Seq<char>> = Seq::empty();
    if hours > 0 {
        parts.push(unit_part(hours, "h"));
        proof {
            expect = expect.push(decimal(hours as nat) + "h"@);
        }
    }
    if minutes > 0 {
        parts.push(unit_part(minutes, "m"));
        proof {
            expect = expect.push(decimal(minutes as nat) + "m"@);
        }
    }
    if seconds > 0 || parts.len() == 0 {
        parts.push(unit_part(seconds, "s"));
        proof {
            expect = expect.push(decimal(seconds as nat) + "s"@);
        }
    }
    proof {
        assert(crate::sse::views(parts@) =~= expect);
        assert(expect =~= elapsed_parts(total_secs as nat));
    }
    let joined = join_spaces(&parts);
    string_of(&joined)
}

fn join_spaces(ls: &Vec<Vec<char>>) -> (r: Vec<char>)
    ensures
        r@ == join_with(crate::sse::views(ls@), ' '),
{
    let ghost v = crate::sse::views(ls@);
    let mut out: Vec<char> = Vec::new();
    let mut j: usize = 0;
    while j < ls.len()
        invariant
            j <= ls@.len(),
            v == crate::sse::views(ls@),
            out@ == join_with(v.take(j as int), ' '),
        decreases ls@.len() - j,
    {
        let ghost prev = out@;
        if j > 0 {
            out.push(' ');
        }
        let ghost mid = out@;
        append_chars(&mut out, &ls[j]);
        proof {
            let t = v.take(j + 1);
            assert(t.drop_last() =~= v.take(j as int));
            assert(t.last() == ls@[j as int]@);
            if j == 0 {
                assert(out@ =~= t[0]);
            } else {
                assert(out@ =~= prev + seq![' '] + t.last());
            }
        }
        j += 1;
    }
    proof {
        assert(v.take(ls@.len() as int) =~= v);
    }
    out
}

/// Formats an elapsed time for display.
pub fn format_elapsed(duration: std::time::Duration) -> (r: String)
    ensures
        r@ == elapsed_text(duration_secs(duration), duration_millis(duration)),
{
    let secs = whole_seconds(&duration);
    let millis = fraction_millis(&duration);
    format_elapsed_parts(secs, millis)
}

/// The spinner's glyphs, shown in turn.
pub open spec fn spinner_frames() -> Seq<char> {
    seq!['⡿', '⣟', '⣯', '⣷', '⣾', '⣽', '⣻', '⢿']
}

/// The glyph for frame `index`, and the index of the frame after it.
pub fn spinner_step(index: usize) -> (r: (char, usize))
    ensures
        r.0 == spinner_frames()[(index % 8) as int],
        r.1 == (index % 8 + 1) % 8,
{
    let frames: Vec<char> = vec!['⡿', '⣟', '⣯', '⣷', '⣾', '⣽', '⣻', '⢿'];
    proof {
        assert(frames@ =~= spinner_frames());
    }
    let i = index % 8;
    (frames[i], (i + 1) % 8)
}

/// The label the indicator shows.
pub struct ShimmerLoader {
    pub text: String,
}

impl ShimmerLoader {
    pub fn new(text: String) -> (r: Self)
        ensures
            r.text@ == text@,
    {
        ShimmerLoader { text }
    }

    /// An indicator with an empty label draws nothing.
    pub fn is_visible(&self) -> (r: bool)
        ensures
            r == (self.text@.len() > 0),
    {
        !self.text.as_str().is_empty()
    }

    /// One frame of the indicator: carriage return, glyph, label and elapsed time.
    pub fn frame_line(&self, glyph: char, elapsed: &str) -> (r: String)
        ensures
            r@ == seq!['\r', glyph, ' '] + self.text@ + " ("@ + elapsed@ + ")   "@,
    {
        let mut out: Vec<char> = vec!['\r', glyph, ' '];
        append_str(&mut out, self.text.as_str());
        append_str(&mut out, " (");
        append_str(&mut out, elapsed);
        append_str(&mut out, ")   ");
        proof {
            assert(out@ =~= seq!['\r', glyph, ' '] + self.text@ + " ("@ + elapsed@ + ")   "@);
        }
        string_of(&out)
    }
}

} // verus!
