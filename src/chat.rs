//! One question's answer: the decisions of the foreground flow, the system prompt
//! and the header printed above the answer.
use vstd::prelude::*;
use crate::config::has_content;
use crate::render::{RepaintPlan, ResponseRenderer, display_lines, plan_for, string_views};
use crate::text::{append_chars, append_str, chars_of, string_of, trim_chars, trim};

verus! {

/// What the terminal side does after a piece of text has arrived.
pub struct DeltaActions {
    /// Stop the progress indicator (the first text of the answer).
    pub stop_loader: bool,
    /// Print the header above the answer (the first text of the answer).
    pub print_header: bool,
    /// The repaint of the answer so far, where it is more than whitespace.
    pub repaint: Option<RepaintPlan>,
}

/// The state of one answer: the text so far, whether the header is out, and the screen.
pub struct ChatSession {
    renderer: ResponseRenderer,
    accumulated: Vec<char>,
    header_printed: bool,
}

impl ChatSession {
    /// The answer's text so far.
    pub closed spec fn text(&self) -> Seq<char> {
        self.accumulated@
    }

    /// Whether the header has been printed.
    pub closed spec fn header_shown(&self) -> bool {
        self.header_printed
    }

    /// The lines on screen.
    pub closed spec fn screen(&self) -> Seq<Seq<char>> {
        self.renderer@
    }

    pub fn new(renderer: ResponseRenderer) -> (r: Self)
        ensures
            r.text() == Seq::<char>::empty(),
            !r.header_shown(),
            r.screen() == renderer@,
    {
        ChatSession { renderer, accumulated: Vec::new(), header_printed: false }
    }

    /// A piece of text arrived: it is appended to the answer; the first one stops the
    /// indicator and brings the header; the whole answer is rendered again.
    pub fn on_text(&mut self, text: &str) -> (r: DeltaActions)
        ensures
            final(self).text() == old(self).text() + text@,
            final(self).header_shown(),
            r.stop_loader == !old(self).header_shown(),
            r.print_header == !old(self).header_shown(),
            r.repaint is Some <==> has_content(final(self).text()),
            has_content(final(self).text()) ==> final(self).screen().len() > 0 && exists|t: Seq<char>|
                final(self).screen() == #[trigger] display_lines(t),
            r.repaint matches Some(p) ==> p.clear_lines as int == plan_for(
                old(self).screen(),
                final(self).screen(),
            ).0 && string_views(p.lines@) == plan_for(old(self).screen(), final(self).screen()).1,
            !has_content(final(self).text()) ==> final(self).screen() == old(self).screen(),
    {
        append_str(&mut self.accumulated, text);
        let first = !self.header_printed;
        self.header_printed = true;
        let whole = string_of(&self.accumulated);
        let repaint = self.renderer.render(whole.as_str());
        DeltaActions { stop_loader: first, print_header: first, repaint }
    }

    /// A failure arrived: the screen state is dropped; the caller stops the indicator
    /// and ends the answer with the failure.
    pub fn on_failure(&mut self)
        ensures
            final(self).screen() == Seq::<Seq<char>>::empty(),
            final(self).text() == old(self).text(),
    {
        self.renderer.finish();
    }

    /// The stream ended: whether anything was drawn (else the caller reports an empty
    /// answer); the screen state is dropped either way.
    pub fn on_end(&mut self) -> (r: bool)
        ensures
            r == (old(self).screen().len() > 0),
            final(self).screen() == Seq::<Seq<char>>::empty(),
    {
        let drawn = self.renderer.has_output();
        self.renderer.finish();
        drawn
    }
}

pub open spec fn prompt_intro() -> Seq<char> {
    "You are the command line assistant `tt-cli`. You translate natural-language requests into shell commands.\n\nEnvironment:\n- OS: "@
}

pub open spec fn prompt_rules() -> Seq<char> {
    "\n\nRules:\n- Output commands with minimal prose.\n- Use one command per line.\n- No placeholders. Quote paths and variables safely.\n- Prefer non-destructive forms and --dry-run/-n when available."@
}

/// The system prompt for a question, naming the operating system, the shell and the model.
pub open spec fn system_prompt(model: Seq<char>, os: Seq<char>, shell: Seq<char>) -> Seq<char> {
    prompt_intro() + os + "\n- Shell: "@ + shell + "\n- Model: "@ + model + prompt_rules()
}

pub fn build_system_prompt(model_name: &str, os_name: &str, shell_name: &str) -> (r: String)
    ensures
        r@ == system_prompt(model_name@, os_name@, shell_name@),
{
    let mut out = chars_of(
        "You are the command line assistant `tt-cli`. You translate natural-language requests into shell commands.\n\nEnvironment:\n- OS: ",
    );
    append_str(&mut out, os_name);
    append_str(&mut out, "\n- Shell: ");
    append_str(&mut out, shell_name);
    append_str(&mut out, "\n- Model: ");
    append_str(&mut out, model_name);
    append_str(
        &mut out,
        "\n\nRules:\n- Output commands with minimal prose.\n- Use one command per line.\n- No placeholders. Quote paths and variables safely.\n- Prefer non-destructive forms and --dry-run/-n when available.",
    );
    string_of(&out)
}

pub open spec fn os_display(os: Seq<char>) -> Seq<char> {
    if os == "macos"@ {
        "macOS"@
    } else if os == "linux"@ {
        "Linux"@
    } else if os == "windows"@ {
        "Windows"@
    } else if os == "freebsd"@ {
        "FreeBSD"@
    } else {
        os
    }
}

/// How an operating system identifier (as `std::env::consts::OS` gives it) is shown.
pub fn current_os_display_name(os: &str) -> (r: String)
    ensures
        r@ == os_display(os@),
{
    let name = if crate::text::str_is(os, "macos") {
        "macOS"
    } else if crate::text::str_is(os, "linux") {
        "Linux"
    } else if crate::text::str_is(os, "windows") {
        "Windows"
    } else if crate::text::str_is(os, "freebsd") {
        "FreeBSD"
    } else {
        os
    };
    name.to_owned()
}

/// The shell's name: the `SHELL` value, else the `COMSPEC` value where `SHELL` is not
/// set, trimmed; `unknown` where that leaves nothing.
pub open spec fn shell_display(shell: Option<Seq<char>>, comspec: Option<Seq<char>>) -> Seq<char> {
    let v = match shell {
        Some(s) => Some(s),
        None => comspec,
    };
    match v {
        Some(s) => if trim(s).len() > 0 {
            trim(s)
        } else {
            "unknown"@
        },
        None => "unknown"@,
    }
}

pub fn current_shell_display_name(shell: Option<&str>, comspec: Option<&str>) -> (r: String)
    ensures
        r@ == shell_display(
            match shell {
                Some(s) => Some(s@),
                None => None,
            },
            match comspec {
                Some(s) => Some(s@),
                None => None,
            },
        ),
{
    let v = match shell {
        Some(s) => Some(s),
        None => comspec,
    };
    match v {
        Some(s) => {
            let cs = chars_of(s);
            let t = trim_chars(&cs);
            if t.len() > 0 {
                string_of(&t)
            } else {
                "unknown".to_owned()
            }
        },
        None => "unknown".to_owned(),
    }
}

/// `n` copies of `c`.
pub open spec fn repeat(c: char, n: nat) -> Seq<char> {
    Seq::new(n, |i: int| c)
}

pub(crate) fn push_repeat(out: &mut Vec<char>, c: char, n: usize)
    ensures
        final(out)@ == old(out)@ + repeat(c, n as nat),
{
    let mut k: usize = 0;
    while k < n
        invariant
            k <= n,
            out@ == old(out)@ + repeat(c, k as nat),
        decreases n - k,
    {
        out.push(c);
        k += 1;
        proof {
            assert(out@ =~= old(out)@ + repeat(c, k as nat));
        }
    }
}

/// The rule above an answer, `width` columns wide (at least twenty): the time taken on
/// the left, the model on the right, where both fit.
pub open spec fn header_line(width: nat, elapsed: Seq<char>, model: Seq<char>) -> Seq<char> {
    let desired = if width < 20 {
        20
    } else {
        width
    };
    let left = "─ Thought for "@ + elapsed + " "@;
    let model_label = " "@ + model + " "@;
    let sep = desired - (left.len() + model_label.len() + 1);
    if sep > 0 {
        left + repeat('─', sep as nat) + model_label + "─"@
    } else {
        let remaining = desired - left.len();
        if remaining > 0 {
            left + repeat('─', remaining as nat)
        } else {
            left
        }
    }
}

pub fn response_header_line(width: u16, elapsed: &str, model: &str) -> (r: String)
    ensures
        r@ == header_line(width as nat, elapsed@, model@),
{
    let desired: usize = if width < 20 {
        20
    } else {
        width as usize
    };
    let mut line = chars_of("─ Thought for ");
    append_str(&mut line, elapsed);
    append_str(&mut line, " ");
    let mut model_label = chars_of(" ");
    append_str(&mut model_label, model);
    append_str(&mut model_label, " ");
    let left_len = line.len();
    let model_len = model_label.len();
    let used = left_len.saturating_add(model_len).saturating_add(1);
    let sep = desired.saturating_sub(used);
    if sep > 0 {
        push_repeat(&mut line, '─', sep);
        append_chars(&mut line, &model_label);
        append_str(&mut line, "─");
    } else {
        let remaining = desired.saturating_sub(left_len);
        if remaining > 0 {
            push_repeat(&mut line, '─', remaining);
        }
    }
    string_of(&line)
}

} // verus!
