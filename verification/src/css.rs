use vstd::prelude::*;
use crate::text::{rfind_char, from_chars, to_chars, chars_eq};

verus! {

// Scanning and rewriting `url(...)` references in stylesheet text.  An
// occurrence is `url(`, optional whitespace, an optional quote, a nonempty
// run of path characters, an optional quote, optional whitespace and `)`.
// External (`http`, `data:`, `//`) references are never touched.  A mapped
// path keeps its directory part and its quoting and gets the new file name;
// anything unmapped is copied through unchanged.

pub open spec fn is_space(c: char) -> bool {
    c == ' ' || c == '\t' || c == '\n' || c == '\r' || c == '\u{b}' || c == '\u{c}'
}

pub open spec fn is_quote(c: char) -> bool {
    c == '\'' || c == '"'
}

pub open spec fn is_url_path_char(c: char) -> bool {
    !is_quote(c) && c != ')' && !is_space(c)
}

pub open spec fn starts_with(s: Seq<char>, p: Seq<char>) -> bool {
    p.len() <= s.len() && s.take(p.len() as int) == p
}

/// A reference that is not a local file: an absolute URL, a data URI, or a
/// protocol-relative URL.
pub open spec fn is_external_ref(path: Seq<char>) -> bool {
    ||| starts_with(path, seq!['h', 't', 't', 'p'])
    ||| starts_with(path, seq!['d', 'a', 't', 'a', ':'])
    ||| starts_with(path, seq!['/', '/'])
}

pub open spec fn count_space(s: Seq<char>, i: int) -> nat
    decreases s.len() - i,
{
    if 0 <= i < s.len() && is_space(s[i]) {
        1 + count_space(s, i + 1)
    } else {
        0
    }
}

pub open spec fn count_path(s: Seq<char>, i: int) -> nat
    decreases s.len() - i,
{
    if 0 <= i < s.len() && is_url_path_char(s[i]) {
        1 + count_path(s, i + 1)
    } else {
        0
    }
}

/// Length of the path prefix before any `?` query or `#` fragment.
pub open spec fn count_clean(s: Seq<char>, i: int) -> nat
    decreases s.len() - i,
{
    if 0 <= i < s.len() && s[i] != '?' && s[i] != '#' {
        1 + count_clean(s, i + 1)
    } else {
        0
    }
}

/// Path separators normalized to forward slashes.
pub open spec fn norm_slashes(s: Seq<char>) -> Seq<char> {
    Seq::new(
        s.len(),
        |j: int|
            if s[j] == '\\' {
                '/'
            } else {
                s[j]
            },
    )
}

/// The `url()` occurrence starting at `i`, if any: its end, opening quote,
/// path start, path length and closing quote.
pub open spec fn parse_url_at(s: Seq<char>, i: int) -> Option<
    (int, Option<char>, int, int, Option<char>),
> {
    if 0 <= i && i + 4 <= s.len() && s.subrange(i, i + 4) == seq!['u', 'r', 'l', '('] {
        let j = i + 4 + count_space(s, i + 4);
        let q1: Option<char> = if j < s.len() && is_quote(s[j]) {
            Some(s[j])
        } else {
            None
        };
        let j1 = if q1 is Some {
            j + 1
        } else {
            j
        };
        let pl = count_path(s, j1);
        if pl == 0 {
            None
        } else {
            let j2 = j1 + pl;
            let q2: Option<char> = if j2 < s.len() && is_quote(s[j2]) {
                Some(s[j2])
            } else {
                None
            };
            let j3 = if q2 is Some {
                j2 + 1
            } else {
                j2
            };
            let j4 = j3 + count_space(s, j3);
            if j4 < s.len() && s[j4] == ')' {
                Some((j4 + 1, q1, j1, pl as int, q2))
            } else {
                None
            }
        }
    } else {
        None
    }
}

/// First mapping whose key, with separators normalized, equals `k`.
pub open spec fn map_find(m: Seq<(String, String)>, k: Seq<char>) -> Option<Seq<char>>
    decreases m.len(),
{
    if m.len() == 0 {
        None
    } else if norm_slashes(m[0].0@) == k {
        Some(m[0].1@)
    } else {
        map_find(m.drop_first(), k)
    }
}

pub open spec fn opt_char(q: Option<char>) -> Seq<char> {
    match q {
        Some(c) => seq![c],
        None => Seq::<char>::empty(),
    }
}

/// Rebuilt text of one rewritten occurrence.
pub open spec fn url_text(qo: Option<char>, p: Seq<char>, qc: Option<char>) -> Seq<char> {
    seq!['u', 'r', 'l', '('] + opt_char(qo) + p + opt_char(qc) + seq![')']
}

/// What one occurrence becomes, and whether its text changed.
pub open spec fn css_replacement(
    s: Seq<char>,
    i: int,
    tok: (int, Option<char>, int, int, Option<char>),
    m: Seq<(String, String)>,
) -> (Seq<char>, bool) {
    let orig = s.subrange(i, tok.0);
    let path = s.subrange(tok.2, tok.2 + tok.3);
    if is_external_ref(path) {
        (orig, false)
    } else {
        let clean = path.take(count_clean(path, 0) as int);
        match map_find(m, norm_slashes(clean)) {
            Some(newf) => {
                let dirpart = match rfind_char(path, '/') {
                    Some(k) => norm_slashes(path.take(k + 1)),
                    None => Seq::<char>::empty(),
                };
                let qo = if tok.1 is Some {
                    tok.1
                } else {
                    tok.4
                };
                let qc = if tok.4 is Some {
                    tok.4
                } else {
                    tok.1
                };
                let rep = url_text(qo, dirpart + newf, qc);
                (rep, rep != orig)
            }
            None => (orig, false),
        }
    }
}

/// The rewritten tail of the text from position `i`, with the flag that
/// says whether any occurrence changed.
pub open spec fn rewrite_css_from(s: Seq<char>, m: Seq<(String, String)>, i: int) -> (
    Seq<char>,
    bool,
)
    decreases s.len() - i,
{
    if !(0 <= i < s.len()) {
        (Seq::<char>::empty(), false)
    } else {
        match parse_url_at(s, i) {
            Some(tok) => {
                let rc = css_replacement(s, i, tok, m);
                let rest = rewrite_css_from(s, m, tok.0);
                (rc.0 + rest.0, rc.1 || rest.1)
            }
            None => {
                let rest = rewrite_css_from(s, m, i + 1);
                (seq![s[i]] + rest.0, rest.1)
            }
        }
    }
}

/// The whole stylesheet rewritten under the image map.
pub open spec fn rewrite_css_spec(s: Seq<char>, m: Seq<(String, String)>) -> (Seq<char>, bool) {
    rewrite_css_from(s, m, 0)
}

proof fn lemma_css_unchanged_from(s: Seq<char>, m: Seq<(String, String)>, i: int)
    requires
        0 <= i <= s.len(),
        !rewrite_css_from(s, m, i).1,
    ensures
        rewrite_css_from(s, m, i).0 == s.skip(i),
    decreases s.len() - i,
{
    if i == s.len() {
        assert(s.skip(i) =~= Seq::<char>::empty());
    } else {
        match parse_url_at(s, i) {
            Some(tok) => {
                lemma_css_unchanged_from(s, m, tok.0);
                assert(s.subrange(i, tok.0) + s.skip(tok.0) =~= s.skip(i));
            }
            None => {
                lemma_css_unchanged_from(s, m, i + 1);
                assert(seq![s[i]] + s.skip(i + 1) =~= s.skip(i));
            }
        }
    }
}

/// Under an empty map no occurrence can change.
pub proof fn lemma_css_empty_map_unchanged(s: Seq<char>, m: Seq<(String, String)>, i: int)
    requires
        m.len() == 0,
        0 <= i <= s.len(),
    ensures
        !rewrite_css_from(s, m, i).1,
    decreases s.len() - i,
{
    if i < s.len() {
        match parse_url_at(s, i) {
            Some(tok) => {
                lemma_css_empty_map_unchanged(s, m, tok.0);
            }
            None => {
                lemma_css_empty_map_unchanged(s, m, i + 1);
            }
        }
    }
}

/// Law: when the rewrite reports no change, the output text is the input
/// text, byte for byte — the rewrite never mutates a stylesheet unless a
/// reference actually changed.
pub proof fn lemma_css_rewrite_no_change(s: Seq<char>, m: Seq<(String, String)>)
    requires
        !rewrite_css_spec(s, m).1,
    ensures
        rewrite_css_spec(s, m).0 == s,
{
    lemma_css_unchanged_from(s, m, 0);
    assert(s.skip(0) =~= s);
}

fn count_space_exec(v: &Vec<char>, i: usize) -> (r: usize)
    requires
        i <= v@.len(),
    ensures
        r == count_space(v@, i as int),
        i + r <= v@.len(),
    decreases v@.len() - i,
{
    if i < v.len() {
        let c = v[i];
        if c == ' ' || c == '\t' || c == '\n' || c == '\r' || c == '\u{b}' || c == '\u{c}' {
            let rest = count_space_exec(v, i + 1);
            return 1 + rest;
        }
    }
    0
}

fn count_path_exec(v: &Vec<char>, i: usize) -> (r: usize)
    requires
        i <= v@.len(),
    ensures
        r == count_path(v@, i as int),
        i + r <= v@.len(),
    decreases v@.len() - i,
{
    if i < v.len() {
        let c = v[i];
        if !(c == '\'' || c == '"') && c != ')' && !(c == ' ' || c == '\t' || c == '\n' || c == '\r'
            || c == '\u{b}' || c == '\u{c}') {
            let rest = count_path_exec(v, i + 1);
            return 1 + rest;
        }
    }
    0
}

pub(crate) fn count_clean_exec(v: &Vec<char>, i: usize) -> (r: usize)
    requires
        i <= v@.len(),
    ensures
        r == count_clean(v@, i as int),
        i + r <= v@.len(),
    decreases v@.len() - i,
{
    if i < v.len() {
        let c = v[i];
        if c != '?' && c != '#' {
            let rest = count_clean_exec(v, i + 1);
            return 1 + rest;
        }
    }
    0
}

pub open spec fn tok_view(r: Option<(usize, Option<char>, usize, usize, Option<char>)>) -> Option<
    (int, Option<char>, int, int, Option<char>),
> {
    match r {
        Some((e, q1, ps, pl, q2)) => Some((e as int, q1, ps as int, pl as int, q2)),
        None => None,
    }
}

pub(crate) fn parse_url_at_exec(v: &Vec<char>, i: usize) -> (r: Option<
    (usize, Option<char>, usize, usize, Option<char>),
>)
    requires
        i <= v@.len(),
    ensures
        parse_url_at(v@, i as int) == tok_view(r),
        r matches Some(t) ==> i < t.0 <= v@.len() && t.2 + t.3 <= v@.len(),
{
    let n = v.len();
    if n - i < 4 || !(v[i] == 'u' && v[i + 1] == 'r' && v[i + 2] == 'l' && v[i + 3] == '(') {
        proof {
            if i + 4 <= v@.len() && v@.subrange(i as int, i + 4) == seq!['u', 'r', 'l', '('] {
                assert(v@.subrange(i as int, i + 4)[0] == v@[i as int]);
                assert(v@.subrange(i as int, i + 4)[1] == v@[i + 1]);
                assert(v@.subrange(i as int, i + 4)[2] == v@[i + 2]);
                assert(v@.subrange(i as int, i + 4)[3] == v@[i + 3]);
            }
        }
        return None;
    }
    proof {
        assert(v@.subrange(i as int, i + 4) =~= seq!['u', 'r', 'l', '(']);
    }
    let mut j = i + 4;
    j = j + count_space_exec(v, j);
    let mut q1: Option<char> = None;
    if j < n && (v[j] == '\'' || v[j] == '"') {
        q1 = Some(v[j]);
        j = j + 1;
    }
    let pl = count_path_exec(v, j);
    if pl == 0 {
        return None;
    }
    let ps = j;
    let mut j2 = j + pl;
    let mut q2: Option<char> = None;
    if j2 < n && (v[j2] == '\'' || v[j2] == '"') {
        q2 = Some(v[j2]);
        j2 = j2 + 1;
    }
    let j4 = j2 + count_space_exec(v, j2);
    if j4 < n && v[j4] == ')' {
        Some((j4 + 1, q1, ps, pl, q2))
    } else {
        None
    }
}

pub(crate) fn norm_slashes_exec(v: &Vec<char>) -> (r: Vec<char>)
    ensures
        r@ == norm_slashes(v@),
{
    let mut out: Vec<char> = Vec::new();
    let mut i: usize = 0;
    while i < v.len()
        invariant
            i <= v@.len(),
            out@ == norm_slashes(v@).take(i as int),
        decreases v@.len() - i,
    {
        let c = v[i];
        if c == '\\' {
            out.push('/');
        } else {
            out.push(c);
        }
        assert(out@ =~= norm_slashes(v@).take(i + 1 as int));
        i += 1;
    }
    assert(out@ =~= norm_slashes(v@));
    out
}

fn map_find_exec(m: &Vec<(String, String)>, k: &Vec<char>) -> (r: Option<String>)
    ensures
        match r {
            Some(val) => map_find(m@, k@) == Some(val@),
            None => map_find(m@, k@) is None,
        },
{
    let mut i: usize = 0;
    assert(m@.skip(0) =~= m@);
    while i < m.len()
        invariant
            i <= m@.len(),
            map_find(m@, k@) == map_find(m@.skip(i as int), k@),
        decreases m@.len() - i,
    {
        let kv = to_chars(m[i].0.as_str());
        let nk = norm_slashes_exec(&kv);
        proof {
            assert(m@.skip(i as int)[0] == m@[i as int]);
        }
        if chars_eq(&nk, k) {
            return Some(m[i].1.clone());
        }
        proof {
            assert(m@.skip(i as int).drop_first() =~= m@.skip(i + 1));
        }
        i += 1;
    }
    proof {
        assert(m@.skip(m@.len() as int).len() == 0);
    }
    None
}

#[verifier::rlimit(50)]
fn css_build_replacement(
    v: &Vec<char>,
    i: usize,
    tok: (usize, Option<char>, usize, usize, Option<char>),
    m: &Vec<(String, String)>,
) -> (r: (Vec<char>, bool))
    requires
        i < tok.0 <= v@.len(),
        tok.2 + tok.3 <= v@.len(),
    ensures
        (r.0@, r.1) == css_replacement(
            v@,
            i as int,
            (tok.0 as int, tok.1, tok.2 as int, tok.3 as int, tok.4),
            m@,
        ),
{
    let (end, q1, ps, pl, q2) = tok;
    let vn = v.len();
    assert(ps + pl <= vn);
    let orig = vstd::slice::slice_to_vec(vstd::slice::slice_subrange(v.as_slice(), i, end));
    let path = vstd::slice::slice_to_vec(vstd::slice::slice_subrange(v.as_slice(), ps, ps + pl));
    let ghost stok = (end as int, q1, ps as int, pl as int, q2);
    let external = {
                let n = path.len();
                (n >= 4 && path[0] == 'h' && path[1] == 't' && path[2] == 't' && path[3] == 'p') || (
                n >= 5 && path[0] == 'd' && path[1] == 'a' && path[2] == 't' && path[3] == 'a'
                    && path[4] == ':') || (n >= 2 && path[0] == '/' && path[1] == '/')
            };
            proof {
                if external {
                    if path@.len() >= 4 && path@[0] == 'h' && path@[1] == 't' && path@[2] == 't'
                        && path@[3] == 'p' {
                        assert(path@.take(4) =~= seq!['h', 't', 't', 'p']);
                    } else if path@.len() >= 5 && path@[0] == 'd' {
                        assert(path@.take(5) =~= seq!['d', 'a', 't', 'a', ':']);
                    } else {
                        assert(path@.take(2) =~= seq!['/', '/']);
                    }
                } else {
                    if starts_with(path@, seq!['h', 't', 't', 'p']) {
                        assert(path@.take(4)[0] == path@[0]);
                        assert(path@.take(4)[1] == path@[1]);
                        assert(path@.take(4)[2] == path@[2]);
                        assert(path@.take(4)[3] == path@[3]);
                    }
                    if starts_with(path@, seq!['d', 'a', 't', 'a', ':']) {
                        assert(path@.take(5)[0] == path@[0]);
                        assert(path@.take(5)[1] == path@[1]);
                        assert(path@.take(5)[2] == path@[2]);
                        assert(path@.take(5)[3] == path@[3]);
                        assert(path@.take(5)[4] == path@[4]);
                    }
                    if starts_with(path@, seq!['/', '/']) {
                        assert(path@.take(2)[0] == path@[0]);
                        assert(path@.take(2)[1] == path@[1]);
                    }
                }
            }
    let mut rep: Vec<char> = orig;
    let mut changed = false;
    if !external {
                let cl = count_clean_exec(&path, 0);
                let clean = vstd::slice::slice_to_vec(
                    vstd::slice::slice_subrange(path.as_slice(), 0, cl),
                );
                let norm = norm_slashes_exec(&clean);
                proof {
                    assert(clean@ =~= path@.take(count_clean(path@, 0) as int));
                }
                match map_find_exec(m, &norm) {
                    Some(newf) => {
                        let mut np: Vec<char> = Vec::new();
                        match crate::text::find_last_char(&path, '/') {
                            Some(k) => {
                                proof {
                                    crate::text::lemma_rfind_char_props(path@, '/');
                                }
                                let dp = vstd::slice::slice_to_vec(
                                    vstd::slice::slice_subrange(path.as_slice(), 0, k + 1),
                                );
                                let nd = norm_slashes_exec(&dp);
                                np.extend_from_slice(nd.as_slice());
                                proof {
                                    assert(dp@ =~= path@.take(k + 1 as int));
                                }
                            }
                            None => {}
                        }
                        let nfv = to_chars(newf.as_str());
                        np.extend_from_slice(nfv.as_slice());
                        let mut out: Vec<char> = Vec::new();
                        out.push('u');
                        out.push('r');
                        out.push('l');
                        out.push('(');
                        match q1 {
                            Some(c) => out.push(c),
                            None => {
                                match q2 {
                                    Some(c) => out.push(c),
                                    None => {}
                                }
                            }
                        }
                        out.extend_from_slice(np.as_slice());
                        match q2 {
                            Some(c) => out.push(c),
                            None => {
                                match q1 {
                                    Some(c) => out.push(c),
                                    None => {}
                                }
                            }
                        }
                        out.push(')');
                        proof {
                            assert(out@ =~= css_replacement(v@, i as int, stok, m@).0);
                        }
                        changed = !chars_eq(&out, &rep);
                        rep = out;
                    }
                    None => {}
                }
            }
    proof {
        assert((rep@, changed) == css_replacement(v@, i as int, stok, m@));
    }
    (rep, changed)
}

fn rewrite_css_rec(v: &Vec<char>, m: &Vec<(String, String)>, i: usize) -> (r: (Vec<char>, bool))
    requires
        i <= v@.len(),
    ensures
        (r.0@, r.1) == rewrite_css_from(v@, m@, i as int),
    decreases v@.len() - i,
{
    if i >= v.len() {
        let out: Vec<char> = Vec::new();
        proof {
            assert(rewrite_css_from(v@, m@, i as int) == (Seq::<char>::empty(), false));
        }
        return (out, false);
    }
    match parse_url_at_exec(v, i) {
        Some(tok) => {
            let end = tok.0;
            let (rep, changed) = css_build_replacement(v, i, tok, m);
            let rest = rewrite_css_rec(v, m, end);
            let mut out = rep;
            out.extend_from_slice(rest.0.as_slice());
            proof {
                assert(out@ =~= rewrite_css_from(v@, m@, i as int).0);
            }
            (out, changed || rest.1)
        }
        None => {
            let rest = rewrite_css_rec(v, m, i + 1);
            let mut out: Vec<char> = Vec::new();
            out.push(v[i]);
            out.extend_from_slice(rest.0.as_slice());
            proof {
                assert(out@ =~= rewrite_css_from(v@, m@, i as int).0);
            }
            (out, rest.1)
        }
    }
}

/// Rewrite every mapped `url()` image reference in a stylesheet; the flag
/// says whether any occurrence's text changed.
pub fn rewrite_image_references(css_text: &str, image_map: &Vec<(String, String)>) -> (r: (
    String,
    bool,
))
    ensures
        (r.0@, r.1) == rewrite_css_spec(css_text@, image_map@),
{
    let v = to_chars(css_text);
    let (out, changed) = rewrite_css_rec(&v, image_map, 0);
    (from_chars(&out), changed)
}

} // verus!
