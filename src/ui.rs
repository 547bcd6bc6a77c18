//! Layout of the boxed cards that show settings and model changes.
use vstd::prelude::*;
use crate::chat::{push_repeat, repeat};
use crate::config::{Config, ProviderKind, default_api_base_of, display_name_of, has_content, key_preview};
use crate::render::string_views;
use crate::request::pairs_view;
use crate::text::{append_str, chars_of, string_of};

verus! {

/// The columns `s` takes on a terminal, as unicode-width counts them.
pub uninterp spec fn text_width(s: Seq<char>) -> nat;

/// Relies on `unicode_width::UnicodeWidthStr::width`: the displayed width of the text
/// in columns, which depends on the text alone.
#[verifier::external_body]
fn display_width(s: &str) -> (r: usize)
    ensures
        r as nat == text_width(s@),
{
    unicode_width::UnicodeWidthStr::width(s)
}

/// `x`, or the largest `usize` where `x` is larger.
pub open spec fn sat(x: int) -> int {
    if x > usize::MAX {
        usize::MAX as int
    } else {
        x
    }
}

pub open spec fn gap(x: int) -> nat {
    if x > 0 {
        x as nat
    } else {
        0
    }
}

pub open spec fn imax(a: int, b: int) -> int {
    if a >= b {
        a
    } else {
        b
    }
}

/// The widest label of the first `n` rows, in characters.
pub open spec fn label_width(rows: Seq<(Seq<char>, Seq<char>)>, n: int) -> int
    decreases n,
{
    if n <= 0 {
        0
    } else {
        imax(label_width(rows, n - 1), rows[n - 1].0.len() as int)
    }
}

/// A row: its label padded with spaces to `lw` characters, ` : `, its value.
pub open spec fn row_text(label: Seq<char>, value: Seq<char>, lw: int) -> Seq<char> {
    label + repeat(' ', gap(lw - label.len())) + " : "@ + value
}

/// The widest of the first `n` lines, in columns.
pub open spec fn lines_width(lines: Seq<Seq<char>>, n: int) -> int
    decreases n,
{
    if n <= 0 {
        0
    } else {
        imax(lines_width(lines, n - 1), text_width(lines[n - 1]) as int)
    }
}

/// The top border, `total` columns wide, with the title in it.
pub open spec fn card_top(title: Seq<char>, total: int) -> Seq<char> {
    let prefix = "╭─ "@ + title + " "@;
    prefix + repeat('─', gap(total - sat(text_width(prefix) as int + 1))) + "╮"@
}

/// The lines of a card: a top border with the title, one boxed line per row, a bottom
/// border; no lines where there are no rows.
pub open spec fn card(title: Seq<char>, rows: Seq<(Seq<char>, Seq<char>)>) -> Seq<Seq<char>> {
    if rows.len() == 0 {
        Seq::empty()
    } else {
        let lw = label_width(rows, rows.len() as int);
        let lines = Seq::new(rows.len(), |i: int| row_text(rows[i].0, rows[i].1, lw));
        let inner = imax(lines_width(lines, lines.len() as int), sat(text_width(title) as int + 2));
        let total = sat(inner + 4);
        seq![card_top(title, total)] + Seq::new(
            lines.len(),
            |i: int| "│ "@ + lines[i] + repeat(' ', gap(inner - text_width(lines[i]))) + " │"@,
        ) + seq!["╰"@ + repeat('─', gap(total - 2)) + "╯"@]
    }
}

/// The top border of a card `total` columns wide.
pub fn card_top_line(title: &str, total_width: usize) -> (r: String)
    ensures
        r@ == card_top(title@, total_width as int),
{
    let mut line = chars_of("╭─ ");
    append_str(&mut line, title);
    append_str(&mut line, " ");
    let prefix = string_of(&line);
    let prefix_width = display_width(prefix.as_str());
    let remaining = total_width.saturating_sub(prefix_width.saturating_add(1));
    push_repeat(&mut line, '─', remaining);
    append_str(&mut line, "╮");
    string_of(&line)
}

/// Lays out a card with `title` and the (label, value) `rows`.
pub fn card_lines(title: &str, rows: &Vec<(String, String)>) -> (r: Vec<String>)
    ensures
        string_views(r@) == card(title@, pairs_view(rows@)),
{
    let ghost pr = pairs_view(rows@);
    if rows.len() == 0 {
        let r: Vec<String> = Vec::new();
        proof {
            assert(string_views(r@) =~= Seq::<Seq<char>>::empty());
        }
        return r;
    }
    let mut lw: usize = 0;
    let mut i: usize = 0;
    while i < rows.len()
        invariant
            i <= rows@.len(),
            pr == pairs_view(rows@),
            lw as int == label_width(pr, i as int),
        decreases rows@.len() - i,
    {
        let n = chars_of(rows[i].0.as_str()).len();
        proof {
            assert(pr[i as int].0 == rows@[i as int].0@);
        }
        if n > lw {
            lw = n;
        }
        i += 1;
    }
    let ghost lines_spec = Seq::new(pr.len(), |j: int| row_text(pr[j].0, pr[j].1, lw as int));
    let mut lines: Vec<String> = Vec::new();
    let mut widths: Vec<usize> = Vec::new();
    let mut widest: usize = 0;
    let mut k: usize = 0;
    while k < rows.len()
        invariant
            k <= rows@.len(),
            pr == pairs_view(rows@),
            lines_spec == Seq::new(pr.len(), |j: int| row_text(pr[j].0, pr[j].1, lw as int)),
            lines@.len() == k,
            widths@.len() == k,
            forall|j: int| 0 <= j < k ==> (#[trigger] lines@[j])@ == lines_spec[j],
            forall|j: int| 0 <= j < k ==> (#[trigger] widths@[j]) as nat == text_width(lines_spec[j]),
            widest as int == lines_width(lines_spec, k as int),
        decreases rows@.len() - k,
    {
        let label = &rows[k].0;
        let value = &rows[k].1;
        proof {
            assert(pr[k as int].0 == label@);
            assert(pr[k as int].1 == value@);
        }
        let mut t = chars_of(label.as_str());
        let count = t.len();
        let pad = if lw > count {
            lw - count
        } else {
            0
        };
        push_repeat(&mut t, ' ', pad);
        append_str(&mut t, " : ");
        append_str(&mut t, value.as_str());
        let s = string_of(&t);
        let w = display_width(s.as_str());
        proof {
            assert(s@ == lines_spec[k as int]);
        }
        if w > widest {
            widest = w;
        }
        lines.push(s);
        widths.push(w);
        k += 1;
    }
    let title_width = display_width(title).saturating_add(2);
    let inner = if widest >= title_width {
        widest
    } else {
        title_width
    };
    let total = inner.saturating_add(4);
    let mut out: Vec<String> = Vec::new();
    out.push(card_top_line(title, total));
    let mut m: usize = 0;
    while m < lines.len()
        invariant
            m <= lines@.len(),
            lines@.len() == pr.len(),
            widths@.len() == pr.len(),
            lines_spec.len() == pr.len(),
            forall|j: int| 0 <= j < pr.len() ==> (#[trigger] lines@[j])@ == lines_spec[j],
            forall|j: int| 0 <= j < pr.len() ==> (#[trigger] widths@[j]) as nat == text_width(lines_spec[j]),
            out@.len() == m + 1,
            string_views(out@)[0] == card_top(title@, total as int),
            forall|j: int|
                1 <= j <= m ==> (#[trigger] out@[j])@ == "│ "@ + lines_spec[j - 1] + repeat(
                    ' ',
                    gap(inner - text_width(lines_spec[j - 1])),
                ) + " │"@,
        decreases lines@.len() - m,
    {
        let mut t = chars_of("│ ");
        append_str(&mut t, lines[m].as_str());
        let w = widths[m];
        let pad = if inner > w {
            inner - w
        } else {
            0
        };
        push_repeat(&mut t, ' ', pad);
        append_str(&mut t, " │");
        out.push(string_of(&t));
        m += 1;
    }
    let mut bottom = chars_of("╰");
    push_repeat(&mut bottom, '─', total.saturating_sub(2));
    append_str(&mut bottom, "╯");
    out.push(string_of(&bottom));
    proof {
        let expect = card(title@, pr);
        let lw_spec = label_width(pr, pr.len() as int);
        assert(lines_spec =~= Seq::new(pr.len(), |i: int| row_text(pr[i].0, pr[i].1, lw_spec)));
        assert(expect.len() == out@.len());
        assert forall|j: int| 0 <= j < out@.len() implies string_views(out@)[j] == expect[j] by {
            assert(string_views(out@)[j] == out@[j]@);
        }
        assert(string_views(out@) =~= expect);
    }
    out
}

pub open spec fn configured(c: Config) -> bool {
    has_content(c.default_model@) && (c.provider != ProviderKind::LmStudio ==> match c.api_key {
        Some(k) => has_content(k@),
        None => false,
    })
}

/// The rows of the settings card: status, provider, endpoint base, model, key (masked)
/// and settings file, and a hint where setup is not finished.
pub open spec fn settings_rows(c: Config, file: Seq<char>) -> Seq<(Seq<char>, Seq<char>)> {
    let ready = configured(c);
    seq![
        ("Status"@, if ready { "Ready"@ } else { "Not configured"@ }),
        ("Provider"@, display_name_of(c.provider)),
        ("API Base"@, match c.api_base_override {
            Some(b) => b@,
            None => default_api_base_of(c.provider),
        }),
        ("Default Model"@, if has_content(c.default_model@) { c.default_model@ } else { "<not set>"@ }),
        ("API Key"@, if c.provider != ProviderKind::LmStudio {
            match c.api_key {
                Some(k) => match key_preview(k@) {
                    Some(p) => p,
                    None => "<not configured>"@,
                },
                None => "<not configured>"@,
            }
        } else {
            "n/a (local provider)"@
        }),
        ("Config File"@, file),
    ] + if ready {
        Seq::empty()
    } else {
        seq![("Next Step"@, "Run tt setup to finish configuring"@)]
    }
}

/// The rows that show the settings `config`, read from the file `config_file`.
pub fn settings_card_rows(config: &Config, config_file: &str) -> (r: Vec<(String, String)>)
    ensures
        pairs_view(r@) == settings_rows(*config, config_file@),
{
    let ready = config.is_configured();
    let mut rows: Vec<(String, String)> = Vec::new();
    rows.push(("Status".to_owned(), if ready { "Ready" } else { "Not configured" }.to_owned()));
    rows.push(("Provider".to_owned(), config.provider.display_name().to_owned()));
    rows.push(("API Base".to_owned(), config.api_base()));
    let model_chars = chars_of(config.default_model.as_str());
    let model = if crate::text::trim_chars(&model_chars).len() > 0 {
        config.default_model.clone()
    } else {
        "<not set>".to_owned()
    };
    rows.push(("Default Model".to_owned(), model));
    let key = if config.provider.requires_api_key() {
        match config.api_key_preview() {
            Some(p) => p,
            None => "<not configured>".to_owned(),
        }
    } else {
        "n/a (local provider)".to_owned()
    };
    rows.push(("API Key".to_owned(), key));
    rows.push(("Config File".to_owned(), config_file.to_owned()));
    if !ready {
        rows.push(("Next Step".to_owned(), "Run tt setup to finish configuring".to_owned()));
    }
    proof {
        assert(pairs_view(rows@) =~= settings_rows(*config, config_file@));
    }
    rows
}

/// The card shown after a model change: its title and rows.
pub open spec fn model_change_card(provider: Seq<char>, previous: Seq<char>, now: Seq<char>) -> (
    Seq<char>,
    Seq<(Seq<char>, Seq<char>)>,
) {
    if previous == now {
        ("Model Unchanged"@, seq![("Provider"@, provider), ("Default"@, now)])
    } else {
        ("Model Updated"@, seq![("Provider"@, provider), ("Previous"@, previous), ("Now"@, now)])
    }
}

pub fn model_change_rows(provider: &str, previous: &str, now: &str) -> (r: (String, Vec<(String, String)>))
    ensures
        (r.0@, pairs_view(r.1@)) == model_change_card(provider@, previous@, now@),
{
    let mut rows: Vec<(String, String)> = Vec::new();
    rows.push(("Provider".to_owned(), provider.to_owned()));
    if crate::text::str_is(previous, now) {
        rows.push(("Default".to_owned(), now.to_owned()));
        proof {
            assert(pairs_view(rows@) =~= seq![("Provider"@, provider@), ("Default"@, now@)]);
        }
        ("Model Unchanged".to_owned(), rows)
    } else {
        rows.push(("Previous".to_owned(), previous.to_owned()));
        rows.push(("Now".to_owned(), now.to_owned()));
        proof {
            assert(pairs_view(rows@) =~= seq![
                ("Provider"@, provider@),
                ("Previous"@, previous@),
                ("Now"@, now@),
            ]);
        }
        ("Model Updated".to_owned(), rows)
    }
}

} // verus!
