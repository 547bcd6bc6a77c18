//! The list of model identifiers a provider offers.
use vstd::prelude::*;
use crate::config::ProviderKind;
use crate::render::string_views;
use crate::text::chars_of;

verus! {

/// `c` in lower case where it is an ASCII capital.
pub open spec fn ascii_lower(c: char) -> char {
    if 'A' <= c && c <= 'Z' {
        (((c as u8) + 32) as u8) as char
    } else {
        c
    }
}

/// `s` with its ASCII capitals in lower case.
pub open spec fn lower_ascii(s: Seq<char>) -> Seq<char> {
    s.map_values(|c: char| ascii_lower(c))
}

pub open spec fn starts_with(s: Seq<char>, p: Seq<char>) -> bool {
    s.len() >= p.len() && s.take(p.len() as int) == p
}

pub open spec fn contains_at(s: Seq<char>, p: Seq<char>, i: int) -> bool {
    0 <= i && i + p.len() <= s.len() && s.subrange(i, i + p.len()) == p
}

pub open spec fn contains(s: Seq<char>, p: Seq<char>) -> bool {
    exists|i: int| contains_at(s, p, i)
}

/// A chat model: its identifier, ignoring ASCII case, holds `gpt` or `omni`, or
/// starts with `o1` or `o3`.
pub open spec fn is_chat_model(id: Seq<char>) -> bool {
    let l = lower_ascii(id);
    contains(l, "gpt"@) || starts_with(l, "o1"@) || starts_with(l, "o3"@) || contains(l, "omni"@)
}

/// Strict lexicographic order by code point, the order of `String`.
pub open spec fn lex_lt(a: Seq<char>, b: Seq<char>) -> bool
    decreases a.len(),
{
    if a.len() == 0 {
        b.len() > 0
    } else if b.len() == 0 {
        false
    } else if a[0] != b[0] {
        a[0] < b[0]
    } else {
        lex_lt(a.skip(1), b.skip(1))
    }
}

/// `x` is one of the items of `v`.
pub open spec fn listed(v: Seq<Seq<char>>, x: Seq<char>) -> bool {
    exists|i: int| 0 <= i < v.len() && #[trigger] v[i] == x
}

pub open spec fn strictly_sorted(v: Seq<Seq<char>>) -> bool {
    forall|i: int, j: int| 0 <= i < j < v.len() ==> lex_lt(#[trigger] v[i], #[trigger] v[j])
}

/// Whether `id` stays in the list of `provider`.
pub open spec fn keeps(provider: ProviderKind, id: Seq<char>) -> bool {
    provider != ProviderKind::OpenAi || is_chat_model(id)
}

fn lower_ascii_exec(s: &[char]) -> (r: Vec<char>)
    ensures
        r@ == lower_ascii(s@),
{
    let mut out: Vec<char> = Vec::new();
    let mut i: usize = 0;
    while i < s.len()
        invariant
            i <= s@.len(),
            out@ == lower_ascii(s@.take(i as int)),
        decreases s@.len() - i,
    {
        let c = s[i];
        let l = if 'A' <= c && c <= 'Z' {
            ((c as u8) + 32) as char
        } else {
            c
        };
        out.push(l);
        i += 1;
        proof {
            assert(out@ =~= lower_ascii(s@.take(i as int)));
        }
    }
    proof {
        assert(s@.take(s@.len() as int) =~= s@);
    }
    out
}

fn starts_with_exec(s: &[char], p: &[char]) -> (r: bool)
    ensures
        r == starts_with(s@, p@),
{
    if s.len() < p.len() {
        return false;
    }
    let mut i: usize = 0;
    while i < p.len()
        invariant
            p@.len() <= s@.len(),
            i <= p@.len(),
            forall|j: int| 0 <= j < i ==> s@[j] == p@[j],
        decreases p@.len() - i,
    {
        if s[i] != p[i] {
            proof {
                assert(s@.take(p@.len() as int)[i as int] != p@[i as int]);
            }
            return false;
        }
        i += 1;
    }
    proof {
        assert(s@.take(p@.len() as int) =~= p@);
    }
    true
}

fn matches_at(s: &[char], p: &[char], at: usize) -> (r: bool)
    requires
        at + p@.len() <= s@.len(),
    ensures
        r == contains_at(s@, p@, at as int),
{
    let n = s.len();
    let mut i: usize = 0;
    while i < p.len()
        invariant
            n == s@.len(),
            at + p@.len() <= s@.len(),
            i <= p@.len(),
            forall|j: int| 0 <= j < i ==> s@[at + j] == p@[j],
        decreases p@.len() - i,
    {
        if s[at + i] != p[i] {
            proof {
                assert(s@.subrange(at as int, at + p@.len())[i as int] != p@[i as int]);
            }
            return false;
        }
        i += 1;
    }
    proof {
        assert(s@.subrange(at as int, at + p@.len()) =~= p@);
    }
    true
}

fn contains_exec(s: &[char], p: &[char]) -> (r: bool)
    ensures
        r == contains(s@, p@),
{
    if p.len() > s.len() {
        return false;
    }
    if p.len() == 0 {
        proof {
            assert(s@.subrange(0, 0) =~= p@);
            assert(contains_at(s@, p@, 0));
        }
        return true;
    }
    let last = s.len() - p.len();
    let mut at: usize = 0;
    while at <= last
        invariant
            last + p@.len() == s@.len(),
            p@.len() > 0,
            last < usize::MAX,
            at <= last + 1,
            forall|j: int| 0 <= j < at ==> !contains_at(s@, p@, j),
        decreases last + 1 - at,
    {
        if matches_at(s, p, at) {
            return true;
        }
        at += 1;
    }
    proof {
        assert forall|j: int| !contains_at(s@, p@, j) by {
            if 0 <= j && j + p@.len() <= s@.len() {
                assert(j <= last);
            }
        }
    }
    false
}

/// Whether `id` names a chat model.
pub fn is_chat_model_id(id: &str) -> (r: bool)
    ensures
        r == is_chat_model(id@),
{
    let raw = chars_of(id);
    let l = lower_ascii_exec(&raw);
    let gpt = chars_of("gpt");
    let o1 = chars_of("o1");
    let o3 = chars_of("o3");
    let omni = chars_of("omni");
    contains_exec(&l, &gpt) || starts_with_exec(&l, &o1) || starts_with_exec(&l, &o3)
        || contains_exec(&l, &omni)
}

/// No text comes before itself.
pub proof fn lemma_lex_irreflexive(a: Seq<char>)
    ensures
        !lex_lt(a, a),
    decreases a.len(),
{
    if a.len() > 0 {
        lemma_lex_irreflexive(a.skip(1));
    }
}

/// Of two different texts, one comes first.
pub proof fn lemma_lex_total(a: Seq<char>, b: Seq<char>)
    ensures
        a == b || lex_lt(a, b) || lex_lt(b, a),
    decreases a.len(),
{
    if a.len() == 0 {
        if b.len() == 0 {
            assert(a =~= b);
        }
    } else if b.len() > 0 && a[0] == b[0] {
        lemma_lex_total(a.skip(1), b.skip(1));
        if a.skip(1) == b.skip(1) {
            assert(a.skip(1).len() == b.skip(1).len());
            assert(a.len() == b.len());
            assert(a =~= b) by {
                assert forall|i: int| 0 <= i < a.len() implies a[i] == b[i] by {
                    if i > 0 {
                        assert(a[i] == a.skip(1)[i - 1]);
                        assert(b[i] == b.skip(1)[i - 1]);
                    }
                }
            }
        }
    }
}

/// The order is transitive.
pub proof fn lemma_lex_transitive(a: Seq<char>, b: Seq<char>, c: Seq<char>)
    requires
        lex_lt(a, b),
        lex_lt(b, c),
    ensures
        lex_lt(a, c),
    decreases a.len(),
{
    if a.len() > 0 && b.len() > 0 && c.len() > 0 && a[0] == b[0] && b[0] == c[0] {
        lemma_lex_transitive(a.skip(1), b.skip(1), c.skip(1));
    }
}

fn lex_less(a: &[char], b: &[char]) -> (r: bool)
    ensures
        r == lex_lt(a@, b@),
{
    let mut i: usize = 0;
    proof {
        assert(a@.skip(0) =~= a@);
        assert(b@.skip(0) =~= b@);
    }
    while i < a.len() && i < b.len() && a[i] == b[i]
        invariant
            i <= a@.len(),
            i <= b@.len(),
            lex_lt(a@, b@) == lex_lt(a@.skip(i as int), b@.skip(i as int)),
        decreases a@.len() - i,
    {
        proof {
            assert(a@.skip(i as int).skip(1) =~= a@.skip(i + 1));
            assert(b@.skip(i as int).skip(1) =~= b@.skip(i + 1));
        }
        i += 1;
    }
    if i == a.len() {
        i < b.len()
    } else if i == b.len() {
        false
    } else {
        a[i] < b[i]
    }
}

/// The identifiers of `models` that `provider` keeps, in lexicographic order, each
/// once.
pub fn normalize_models(models: Vec<String>, provider: ProviderKind) -> (r: Vec<String>)
    ensures
        strictly_sorted(string_views(r@)),
        forall|x: Seq<char>|
            #[trigger] listed(string_views(r@), x) <==> (listed(string_views(models@), x) && keeps(
                provider,
                x,
            )),
{
    let ghost input = string_views(models@);
    let mut out: Vec<String> = Vec::new();
    let mut k: usize = 0;
    while k < models.len()
        invariant
            k <= models@.len(),
            input == string_views(models@),
            strictly_sorted(string_views(out@)),
            forall|x: Seq<char>|
                #[trigger] listed(string_views(out@), x) <==> (listed(input.take(k as int), x) && keeps(
                    provider,
                    x,
                )),
        decreases models@.len() - k,
    {
        let m = &models[k];
        let ghost x = m@;
        proof {
            assert(input[k as int] == x);
            assert(input.take(k + 1) =~= input.take(k as int).push(x));
        }
        let keep = match provider {
            ProviderKind::OpenAi => is_chat_model_id(m.as_str()),
            _ => true,
        };
        let ghost cur = string_views(out@);
        if keep {
            let mc = chars_of(m.as_str());
            let mut p: usize = 0;
            while p < out.len() && lex_less(&chars_of(out[p].as_str()), &mc)
                invariant
                    p <= out@.len(),
                    cur == string_views(out@),
                    mc@ == x,
                    forall|i: int| 0 <= i < p ==> lex_lt(cur[i], x),
                    k < models@.len(),
                    input == string_views(models@),
                    input[k as int] == x,
                    input.take(k + 1) == input.take(k as int).push(x),
                    strictly_sorted(cur),
                    forall|y: Seq<char>|
                        #[trigger] listed(cur, y) <==> (listed(input.take(k as int), y) && keeps(provider, y)),
                decreases out@.len() - p,
            {
                p += 1;
            }
            let dup = p < out.len() && crate::text::str_is(out[p].as_str(), m.as_str());
            if !dup {
                proof {
                    if p < out@.len() {
                        lemma_lex_total(cur[p as int], x);
                    }
                    assert forall|j: int| p <= j < cur.len() implies lex_lt(x, cur[j]) by {
                        if j > p {
                            lemma_lex_transitive(x, cur[p as int], cur[j]);
                        }
                    }
                }
                out.insert(p, m.clone());
                proof {
                    let new = string_views(out@);
                    assert(new =~= cur.insert(p as int, x));
                    assert forall|i: int, j: int| 0 <= i < j < new.len() implies lex_lt(
                        #[trigger] new[i],
                        #[trigger] new[j],
                    ) by {
                        if i < p && j < p {
                            assert(new[i] == cur[i]);
                            assert(new[j] == cur[j]);
                        } else if i < p && j == p {
                        } else if i < p && j > p {
                            assert(new[j] == cur[j - 1]);
                        } else if i == p {
                            assert(new[j] == cur[j - 1]);
                        } else {
                            assert(new[i] == cur[i - 1]);
                            assert(new[j] == cur[j - 1]);
                        }
                    }
                    assert forall|y: Seq<char>| listed(new, y) <==> (listed(cur, y) || y == x) by {
                        if listed(new, y) {
                            let i = choose|i: int| 0 <= i < new.len() && #[trigger] new[i] == y;
                            if i < p {
                                assert(cur[i] == y);
                            } else if i > p {
                                assert(cur[i - 1] == y);
                            }
                        }
                        if listed(cur, y) {
                            let i = choose|i: int| 0 <= i < cur.len() && #[trigger] cur[i] == y;
                            if i < p {
                                assert(new[i] == y);
                            } else {
                                assert(new[i + 1] == y);
                            }
                        }
                        if y == x {
                            assert(new[p as int] == y);
                        }
                    }
                }
            } else {
                proof {
                    assert(cur[p as int] == x);
                    assert(string_views(out@) == cur);
                    assert(listed(cur, x));
                }
            }
        }
        proof {
            let new = string_views(out@);
            assert(keep == keeps(provider, x));
            assert(forall|y: Seq<char>| #[trigger] listed(new, y) <==> (listed(cur, y) || (y == x && keeps(provider, x))));
            assert forall|y: Seq<char>| listed(new, y) <==> (listed(input.take(k + 1), y) && keeps(
                provider,
                y,
            )) by {
                assert(listed(cur, y) == (listed(input.take(k as int), y) && keeps(provider, y)));
                if listed(input.take(k + 1), y) {
                    let i = choose|i: int| 0 <= i < k + 1 && #[trigger] input.take(k + 1)[i] == y;
                    if i < k {
                        assert(input.take(k as int)[i] == y);
                    }
                }
                if listed(input.take(k as int), y) {
                    let i = choose|i: int| 0 <= i < k && #[trigger] input.take(k as int)[i] == y;
                    assert(input.take(k + 1)[i] == y);
                }
                if y == x {
                    assert(input.take(k + 1)[k as int] == y);
                }
            }
        }
        k += 1;
    }
    proof {
        assert(input.take(models@.len() as int) =~= input);
        assert forall|x: Seq<char>|
            listed(string_views(out@), x) <==> (listed(string_views(models@), x) && keeps(
                provider,
                x,
            )) by {
            assert(listed(string_views(out@), x) <==> (listed(input.take(k as int), x) && keeps(
                provider,
                x,
            )));
        }
    }
    out
}

} // verus!
