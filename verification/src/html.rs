use vstd::prelude::*;
use crate::text::{rfind_char, find_last_char, lemma_rfind_char_props, to_chars, from_chars,
    chars_eq, subrange_eq};
use crate::css::{starts_with, is_space};

verus! {

// Scanning and rewriting resource references in markup.  An occurrence is
// an opening tag (`<link` or `<script`), its reference attribute (`href`
// or `src`) before the tag closes, `=`, a quoted value, and the `>` that
// closes the tag.  A value is rewritten when it matches a map key exactly,
// or with `./` or `../` prepended, treating `/` and `\` alike; the rewrite
// keeps the value's directory part and relative style and swaps in the new
// file name, prefixing the CDN domain when one is configured.

/// Offset of the first occurrence of `nd` at or after `j` in `s`.
pub open spec fn find_off(s: Seq<char>, nd: Seq<char>, j: int) -> Option<nat>
    decreases s.len() + 1 - j,
{
    if j < 0 || j + nd.len() > s.len() {
        None
    } else if s.subrange(j, j + nd.len()) == nd {
        Some(0nat)
    } else {
        match find_off(s, nd, j + 1) {
            Some(o) => Some(o + 1),
            None => None,
        }
    }
}

/// Length of the run without `>` starting at `i`.
pub open spec fn count_no_gt(s: Seq<char>, i: int) -> nat
    decreases s.len() - i,
{
    if 0 <= i < s.len() && s[i] != '>' {
        1 + count_no_gt(s, i + 1)
    } else {
        0
    }
}

/// Length of the run without quotes starting at `i`.
pub open spec fn count_no_quote(s: Seq<char>, i: int) -> nat
    decreases s.len() - i,
{
    if 0 <= i < s.len() && s[i] != '\'' && s[i] != '"' {
        1 + count_no_quote(s, i + 1)
    } else {
        0
    }
}

pub open spec fn count_space_at(s: Seq<char>, i: int) -> nat
    decreases s.len() - i,
{
    if 0 <= i < s.len() && is_space(s[i]) {
        1 + count_space_at(s, i + 1)
    } else {
        0
    }
}

/// The tag occurrence starting at `i`, if any: the tag's end (just past
/// its `>`), the value's start and the value's length.
pub open spec fn parse_tag_at(s: Seq<char>, tag: Seq<char>, attr: Seq<char>, i: int) -> Option<
    (int, int, int),
> {
    if 0 <= i && i + tag.len() <= s.len() && s.subrange(i, i + tag.len()) == tag {
        match find_off(s, attr, i + tag.len()) {
            Some(off) => {
                let a = i + tag.len() + off;
                if off + attr.len() <= count_no_gt(s, i + tag.len()) {
                    let j = a + attr.len() + count_space_at(s, a + attr.len());
                    if j < s.len() && s[j] == '=' {
                        let j1 = j + 1 + count_space_at(s, j + 1);
                        if j1 < s.len() && (s[j1] == '\'' || s[j1] == '"') {
                            let vs = j1 + 1;
                            let vl = count_no_quote(s, vs);
                            if vl > 0 && vs + vl < s.len() {
                                let j2 = vs + vl + 1;
                                let g = j2 + count_no_gt(s, j2);
                                if g < s.len() {
                                    Some((g + 1, vs, vl as int))
                                } else {
                                    None
                                }
                            } else {
                                None
                            }
                        } else {
                            None
                        }
                    } else {
                        None
                    }
                } else {
                    None
                }
            }
            None => None,
        }
    } else {
        None
    }
}

/// Are `a` and `b` the same path, treating `/` and `\` in `a` as matching
/// a `/` in `b`?
pub open spec fn sep_eq(a: Seq<char>, b: Seq<char>) -> bool {
    a.len() == b.len() && forall|j: int|
        0 <= j < a.len() ==> if b[j] == '/' {
            a[j] == '/' || a[j] == '\\'
        } else {
            #[trigger] a[j] == b[j]
        }
}

/// The value as written matches the map key exactly, or with a `./` or
/// `../` prefix prepended.
pub open spec fn value_matches(val: Seq<char>, key: Seq<char>) -> bool {
    ||| sep_eq(val, key)
    ||| (val.len() >= 2 && val[0] == '.' && (val[1] == '/' || val[1] == '\\') && sep_eq(
        val.skip(2),
        key,
    ))
    ||| (val.len() >= 3 && val[0] == '.' && val[1] == '.' && (val[2] == '/' || val[2] == '\\')
        && sep_eq(val.skip(3), key))
}

/// First mapping whose key the value matches.
pub open spec fn entry_find(m: Seq<(String, String)>, val: Seq<char>) -> Option<Seq<char>>
    decreases m.len(),
{
    if m.len() == 0 {
        None
    } else if value_matches(val, m[0].0@) {
        Some(m[0].1@)
    } else {
        entry_find(m.drop_first(), val)
    }
}

/// Strip one leading `./` or `../` from a path.
pub open spec fn strip_rel_prefix(p: Seq<char>) -> Seq<char> {
    if starts_with(p, seq!['.', '/']) {
        p.skip(2)
    } else if starts_with(p, seq!['.', '.', '/']) {
        p.skip(3)
    } else {
        p
    }
}

pub open spec fn starts_rel_up(p: Seq<char>) -> bool {
    p.len() >= 3 && p[0] == '.' && p[1] == '.' && (p[2] == '/' || p[2] == '\\')
}

pub open spec fn starts_rel_here(p: Seq<char>) -> bool {
    p.len() >= 2 && p[0] == '.' && (p[1] == '/' || p[1] == '\\')
}

/// A path with the CDN domain in front, unless none is configured or the
/// path is already an absolute URL.
pub open spec fn with_cdn(p: Seq<char>, cdn: Seq<char>) -> Seq<char> {
    if cdn.len() > 0 && !starts_with(p, seq!['h', 't', 't', 'p']) {
        cdn + seq!['/'] + strip_rel_prefix(p)
    } else {
        p
    }
}

/// The rewritten reference: the old directory part with the new file name,
/// the old relative style restored, and the CDN domain prefixed when it is
/// configured and the result is not already an absolute URL.
pub open spec fn html_new_path(old: Seq<char>, hashed: Seq<char>, cdn: Seq<char>) -> Seq<char> {
    let newf = match rfind_char(hashed, '/') {
        Some(k) => hashed.skip(k + 1),
        None => hashed,
    };
    let od = match rfind_char(old, '/') {
        Some(k) => old.take(k),
        None => Seq::<char>::empty(),
    };
    let np0 = if od.len() > 0 && od != seq!['.'] && od != seq!['/'] {
        od + seq!['/'] + newf
    } else {
        newf
    };
    let np1 = if starts_rel_up(old) && !starts_rel_up(np0) {
        seq!['.', '.', '/'] + np0
    } else if starts_rel_here(old) && !starts_rel_here(np0) {
        seq!['.', '/'] + np0
    } else {
        np0
    };
    with_cdn(np1, cdn)
}

/// The rewritten tail of the markup from position `i`, with the flag that
/// says whether any reference changed.
pub open spec fn rewrite_html_from(
    s: Seq<char>,
    tag: Seq<char>,
    attr: Seq<char>,
    m: Seq<(String, String)>,
    cdn: Seq<char>,
    i: int,
) -> (Seq<char>, bool)
    decreases s.len() - i,
{
    if !(0 <= i < s.len()) || tag.len() == 0 {
        (Seq::<char>::empty(), false)
    } else {
        match parse_tag_at(s, tag, attr, i) {
            Some(tok) => {
                let val = s.subrange(tok.1, tok.1 + tok.2);
                let rest = rewrite_html_from(s, tag, attr, m, cdn, tok.0);
                match entry_find(m, val) {
                    Some(hashed) => {
                        let np = html_new_path(val, hashed, cdn);
                        (
                            s.subrange(i, tok.1) + np + s.subrange(tok.1 + tok.2, tok.0) + rest.0,
                            np != val || rest.1,
                        )
                    }
                    None => (s.subrange(i, tok.0) + rest.0, rest.1),
                }
            }
            None => {
                let rest = rewrite_html_from(s, tag, attr, m, cdn, i + 1);
                (seq![s[i]] + rest.0, rest.1)
            }
        }
    }
}

proof fn lemma_html_unchanged_from(
    s: Seq<char>,
    tag: Seq<char>,
    attr: Seq<char>,
    m: Seq<(String, String)>,
    cdn: Seq<char>,
    i: int,
)
    requires
        0 <= i <= s.len(),
        !rewrite_html_from(s, tag, attr, m, cdn, i).1,
    ensures
        tag.len() >= 1 ==> rewrite_html_from(s, tag, attr, m, cdn, i).0 == s.skip(i),
    decreases s.len() - i,
{
    if tag.len() == 0 {
    } else if i == s.len() {
        assert(s.skip(i) =~= Seq::<char>::empty());
    } else {
        match parse_tag_at(s, tag, attr, i) {
            Some(tok) => {
                lemma_html_unchanged_from(s, tag, attr, m, cdn, tok.0);
                let val = s.subrange(tok.1, tok.1 + tok.2);
                match entry_find(m, val) {
                    Some(hashed) => {
                        assert(html_new_path(val, hashed, cdn) == val);
                        assert(s.subrange(i, tok.1) + val + s.subrange(tok.1 + tok.2, tok.0)
                            =~= s.subrange(i, tok.0));
                        assert(s.subrange(i, tok.0) + s.skip(tok.0) =~= s.skip(i));
                    }
                    None => {
                        assert(s.subrange(i, tok.0) + s.skip(tok.0) =~= s.skip(i));
                    }
                }
            }
            None => {
                lemma_html_unchanged_from(s, tag, attr, m, cdn, i + 1);
                assert(seq![s[i]] + s.skip(i + 1) =~= s.skip(i));
            }
        }
    }
}

/// Law: when the rewrite reports no change, the output markup is the input
/// markup, byte for byte — a document is never mutated unless one of its
/// references actually changed.
pub proof fn lemma_html_rewrite_no_change(
    s: Seq<char>,
    tag: Seq<char>,
    attr: Seq<char>,
    m: Seq<(String, String)>,
    cdn: Seq<char>,
)
    requires
        tag.len() >= 1,
        !rewrite_html_from(s, tag, attr, m, cdn, 0).1,
    ensures
        rewrite_html_from(s, tag, attr, m, cdn, 0).0 == s,
{
    lemma_html_unchanged_from(s, tag, attr, m, cdn, 0);
    assert(s.skip(0) =~= s);
}

/// Every reference collected by a scan of the markup from position `i`:
/// the values of the tag's attribute that end in `ext`.
pub open spec fn scan_refs_from(
    s: Seq<char>,
    tag: Seq<char>,
    attr: Seq<char>,
    ext: Seq<char>,
    i: int,
) -> Seq<Seq<char>>
    decreases s.len() - i,
{
    if !(0 <= i < s.len()) || tag.len() == 0 {
        Seq::<Seq<char>>::empty()
    } else {
        match parse_tag_at(s, tag, attr, i) {
            Some(tok) => {
                let val = s.subrange(tok.1, tok.1 + tok.2);
                let rest = scan_refs_from(s, tag, attr, ext, tok.0);
                if ext.len() <= val.len() && val.skip(val.len() - ext.len()) == ext {
                    seq![val] + rest
                } else {
                    rest
                }
            }
            None => scan_refs_from(s, tag, attr, ext, i + 1),
        }
    }
}

fn find_off_exec(v: &Vec<char>, nd: &Vec<char>, j: usize) -> (r: Option<usize>)
    requires
        j <= v@.len(),
    ensures
        find_off(v@, nd@, j as int) == match r {
            Some(o) => Some(o as nat),
            None => None::<nat>,
        },
        r matches Some(o) ==> j + o + nd@.len() <= v@.len(),
    decreases v@.len() + 1 - j,
{
    if nd.len() > v.len() - j {
        return None;
    }
    if subrange_eq(v, j, j + nd.len(), nd, 0, nd.len()) {
        proof {
            assert(nd@.subrange(0, nd@.len() as int) =~= nd@);
        }
        Some(0)
    } else {
        proof {
            assert(nd@.subrange(0, nd@.len() as int) =~= nd@);
            if nd@.len() == 0 {
                assert(v@.subrange(j as int, j as int) =~= nd@);
            }
        }
        match find_off_exec(v, nd, j + 1) {
            Some(o) => Some(o + 1),
            None => None,
        }
    }
}

fn count_no_gt_exec(v: &Vec<char>, i: usize) -> (r: usize)
    requires
        i <= v@.len(),
    ensures
        r == count_no_gt(v@, i as int),
        i + r <= v@.len(),
    decreases v@.len() - i,
{
    if i < v.len() && v[i] != '>' {
        1 + count_no_gt_exec(v, i + 1)
    } else {
        0
    }
}

fn count_no_quote_exec(v: &Vec<char>, i: usize) -> (r: usize)
    requires
        i <= v@.len(),
    ensures
        r == count_no_quote(v@, i as int),
        i + r <= v@.len(),
    decreases v@.len() - i,
{
    if i < v.len() && v[i] != '\'' && v[i] != '"' {
        1 + count_no_quote_exec(v, i + 1)
    } else {
        0
    }
}

fn count_space_at_exec(v: &Vec<char>, i: usize) -> (r: usize)
    requires
        i <= v@.len(),
    ensures
        r == count_space_at(v@, i as int),
        i + r <= v@.len(),
    decreases v@.len() - i,
{
    if i < v.len() {
        let c = v[i];
        if c == ' ' || c == '\t' || c == '\n' || c == '\r' || c == '\u{b}' || c == '\u{c}' {
            return 1 + count_space_at_exec(v, i + 1);
        }
    }
    0
}

fn parse_tag_at_exec(v: &Vec<char>, tag: &Vec<char>, attr: &Vec<char>, i: usize) -> (r: Option<
    (usize, usize, usize),
>)
    requires
        i <= v@.len(),
        tag@.len() >= 1,
    ensures
        parse_tag_at(v@, tag@, attr@, i as int) == match r {
            Some(t) => Some((t.0 as int, t.1 as int, t.2 as int)),
            None => None,
        },
        r matches Some(t) ==> i < t.0 <= v@.len() && i <= t.1 && t.1 + t.2 < t.0,
    decreases v@.len() - i,
{
    let n = v.len();
    if tag.len() > n - i || !subrange_eq(v, i, i + tag.len(), tag, 0, tag.len()) {
        proof {
            assert(tag@.subrange(0, tag@.len() as int) =~= tag@);
        }
        return None;
    }
    proof {
        assert(tag@.subrange(0, tag@.len() as int) =~= tag@);
    }
    let tend = i + tag.len();
    let off = match find_off_exec(v, attr, tend) {
        Some(o) => o,
        None => {
            return None;
        }
    };
    let a = tend + off;
    let run = count_no_gt_exec(v, tend);
    if off > run || attr.len() > run - off {
        return None;
    }
    let j = a + attr.len() + count_space_at_exec(v, a + attr.len());
    if !(j < n && v[j] == '=') {
        return None;
    }
    let j1 = j + 1 + count_space_at_exec(v, j + 1);
    if !(j1 < n && (v[j1] == '\'' || v[j1] == '"')) {
        return None;
    }
    let vs = j1 + 1;
    let vl = count_no_quote_exec(v, vs);
    if !(vl > 0 && vs + vl < n) {
        return None;
    }
    let j2 = vs + vl + 1;
    let g = j2 + count_no_gt_exec(v, j2);
    if g < n {
        Some((g + 1, vs, vl))
    } else {
        None
    }
}

#[verifier::loop_isolation(false)]
fn sep_eq_exec(a: &Vec<char>, af: usize, at: usize, b: &Vec<char>) -> (r: bool)
    requires
        af <= at <= a@.len(),
    ensures
        r == sep_eq(a@.subrange(af as int, at as int), b@),
{
    let al = at - af;
    if al != b.len() {
        return false;
    }
    let mut j: usize = 0;
    while j < al
        invariant
            af + al <= a@.len(),
            al == b@.len(),
            j <= al,
            forall|k: int|
                0 <= k < j ==> if b@[k] == '/' {
                    a@[af + k] == '/' || a@[af + k] == '\\'
                } else {
                    #[trigger] a@[af + k] == b@[k]
                },
        decreases al - j,
    {
        let ac = a[af + j];
        let bc = b[j];
        if bc == '/' {
            if !(ac == '/' || ac == '\\') {
                proof {
                    assert(a@.subrange(af as int, at as int)[j as int] == a@[af + j]);
                }
                return false;
            }
        } else {
            if ac != bc {
                proof {
                    assert(a@.subrange(af as int, at as int)[j as int] == a@[af + j]);
                }
                return false;
            }
        }
        j += 1;
    }
    proof {
        assert forall|k: int| 0 <= k < al implies (if b@[k] == '/' {
            a@.subrange(af as int, at as int)[k] == '/' || a@.subrange(af as int, at as int)[k]
                == '\\'
        } else {
            a@.subrange(af as int, at as int)[k] == b@[k]
        }) by {
            assert(a@.subrange(af as int, at as int)[k] == a@[af + k]);
        }
    }
    true
}

fn value_matches_exec(val: &Vec<char>, key: &Vec<char>) -> (r: bool)
    ensures
        r == value_matches(val@, key@),
{
    let n = val.len();
    if sep_eq_exec(val, 0, n, key) {
        proof {
            assert(val@.subrange(0, n as int) =~= val@);
        }
        return true;
    }
    proof {
        assert(val@.subrange(0, n as int) =~= val@);
    }
    if n >= 2 && val[0] == '.' && (val[1] == '/' || val[1] == '\\') {
        let r = sep_eq_exec(val, 2, n, key);
        proof {
            assert(val@.subrange(2, n as int) =~= val@.skip(2));
        }
        if r {
            return true;
        }
    }
    if n >= 3 && val[0] == '.' && val[1] == '.' && (val[2] == '/' || val[2] == '\\') {
        let r = sep_eq_exec(val, 3, n, key);
        proof {
            assert(val@.subrange(3, n as int) =~= val@.skip(3));
        }
        if r {
            return true;
        }
    }
    proof {
        if value_matches(val@, key@) {
            if val@.len() >= 2 && val@[0] == '.' && (val@[1] == '/' || val@[1] == '\\') && sep_eq(
                val@.skip(2),
                key@,
            ) {
                assert(val@.subrange(2, n as int) =~= val@.skip(2));
            }
            if val@.len() >= 3 && val@[0] == '.' && val@[1] == '.' && (val@[2] == '/' || val@[2]
                == '\\') && sep_eq(val@.skip(3), key@) {
                assert(val@.subrange(3, n as int) =~= val@.skip(3));
            }
        }
    }
    false
}

fn entry_find_exec(m: &Vec<(String, String)>, val: &Vec<char>) -> (r: Option<String>)
    ensures
        match r {
            Some(h) => entry_find(m@, val@) == Some(h@),
            None => entry_find(m@, val@) is None,
        },
{
    let mut i: usize = 0;
    assert(m@.skip(0) =~= m@);
    while i < m.len()
        invariant
            i <= m@.len(),
            entry_find(m@, val@) == entry_find(m@.skip(i as int), val@),
        decreases m@.len() - i,
    {
        let kv = to_chars(m[i].0.as_str());
        proof {
            assert(m@.skip(i as int)[0] == m@[i as int]);
        }
        if value_matches_exec(val, &kv) {
            return Some(m[i].1.clone());
        }
        proof {
            assert(m@.skip(i as int).drop_first() =~= m@.skip(i + 1));
        }
        i += 1;
    }
    proof {
        assert(m@.skip(m@.len() as int).len() == 0);
    }
    None
}

#[verifier::rlimit(50)]
fn html_new_path_exec(val: &Vec<char>, hashed: &Vec<char>, cdn: &Vec<char>) -> (r: Vec<char>)
    ensures
        r@ == html_new_path(val@, hashed@, cdn@),
{
    let hn = hashed.len();
    let vn = val.len();
    let newf: Vec<char> = match find_last_char(hashed, '/') {
        Some(k) => {
            proof {
                lemma_rfind_char_props(hashed@, '/');
            }
            vstd::slice::slice_to_vec(
                vstd::slice::slice_subrange(hashed.as_slice(), k + 1, hashed.len()),
            )
        }
        None => hashed.clone(),
    };
    proof {
        lemma_rfind_char_props(hashed@, '/');
        match rfind_char(hashed@, '/') {
            Some(k) => {
                assert(newf@ =~= hashed@.skip(k + 1));
            }
            None => {}
        }
    }
    let od: Vec<char> = match find_last_char(val, '/') {
        Some(k) => {
            proof {
                lemma_rfind_char_props(val@, '/');
            }
            vstd::slice::slice_to_vec(vstd::slice::slice_subrange(val.as_slice(), 0, k))
        }
        None => Vec::new(),
    };
    proof {
        lemma_rfind_char_props(val@, '/');
        match rfind_char(val@, '/') {
            Some(k) => {
                assert(od@ =~= val@.take(k));
            }
            None => {}
        }
    }
    let od_is_dot = od.len() == 1 && od[0] == '.';
    let od_is_root = od.len() == 1 && od[0] == '/';
    proof {
        if od@.len() == 1 {
            assert((od@ == seq!['.']) == (od@[0] == '.')) by {
                if od@[0] == '.' {
                    assert(od@ =~= seq!['.']);
                }
            }
            assert((od@ == seq!['/']) == (od@[0] == '/')) by {
                if od@[0] == '/' {
                    assert(od@ =~= seq!['/']);
                }
            }
        }
    }
    let mut np: Vec<char> = Vec::new();
    if od.len() > 0 && !od_is_dot && !od_is_root {
        np.extend_from_slice(od.as_slice());
        np.push('/');
        np.extend_from_slice(newf.as_slice());
        proof {
            assert(np@ =~= od@ + seq!['/'] + newf@);
        }
    } else {
        np.extend_from_slice(newf.as_slice());
        proof {
            assert(np@ =~= newf@);
        }
    }
    let vup = val.len() >= 3 && val[0] == '.' && val[1] == '.' && (val[2] == '/' || val[2] == '\\');
    let vhere = val.len() >= 2 && val[0] == '.' && (val[1] == '/' || val[1] == '\\');
    let nup = np.len() >= 3 && np[0] == '.' && np[1] == '.' && (np[2] == '/' || np[2] == '\\');
    let nhere = np.len() >= 2 && np[0] == '.' && (np[1] == '/' || np[1] == '\\');
    let mut np1: Vec<char> = Vec::new();
    if vup && !nup {
        np1.push('.');
        np1.push('.');
        np1.push('/');
        np1.extend_from_slice(np.as_slice());
        proof {
            assert(np1@ =~= seq!['.', '.', '/'] + np@);
        }
    } else if !vup && vhere && !nhere {
        np1.push('.');
        np1.push('/');
        np1.extend_from_slice(np.as_slice());
        proof {
            assert(np1@ =~= seq!['.', '/'] + np@);
        }
    } else {
        np1.extend_from_slice(np.as_slice());
        proof {
            assert(np1@ =~= np@);
        }
    }
    apply_cdn(&np1, cdn)
}

fn apply_cdn(np1: &Vec<char>, cdn: &Vec<char>) -> (r: Vec<char>)
    ensures
        r@ == with_cdn(np1@, cdn@),
{
    let is_http = np1.len() >= 4 && np1[0] == 'h' && np1[1] == 't' && np1[2] == 't' && np1[3]
        == 'p';
    proof {
        if is_http {
            assert(np1@.take(4) =~= seq!['h', 't', 't', 'p']);
        } else if starts_with(np1@, seq!['h', 't', 't', 'p']) {
            assert(np1@.take(4)[0] == np1@[0]);
            assert(np1@.take(4)[1] == np1@[1]);
            assert(np1@.take(4)[2] == np1@[2]);
            assert(np1@.take(4)[3] == np1@[3]);
        }
    }
    if cdn.len() > 0 && !is_http {
        let here = np1.len() >= 2 && np1[0] == '.' && np1[1] == '/';
        let up = np1.len() >= 3 && np1[0] == '.' && np1[1] == '.' && np1[2] == '/';
        proof {
            if here {
                assert(np1@.take(2) =~= seq!['.', '/']);
            } else if starts_with(np1@, seq!['.', '/']) {
                assert(np1@.take(2)[0] == np1@[0]);
                assert(np1@.take(2)[1] == np1@[1]);
            }
            if up {
                assert(np1@.take(3) =~= seq!['.', '.', '/']);
            } else if starts_with(np1@, seq!['.', '.', '/']) {
                assert(np1@.take(3)[0] == np1@[0]);
                assert(np1@.take(3)[1] == np1@[1]);
                assert(np1@.take(3)[2] == np1@[2]);
            }
        }
        let mut out: Vec<char> = Vec::new();
        out.extend_from_slice(cdn.as_slice());
        out.push('/');
        if here {
            out.extend_from_slice(
                vstd::slice::slice_subrange(np1.as_slice(), 2, np1.len()),
            );
            proof {
                assert(out@ =~= cdn@ + seq!['/'] + np1@.skip(2));
            }
        } else if up {
            out.extend_from_slice(
                vstd::slice::slice_subrange(np1.as_slice(), 3, np1.len()),
            );
            proof {
                assert(out@ =~= cdn@ + seq!['/'] + np1@.skip(3));
            }
        } else {
            out.extend_from_slice(np1.as_slice());
            proof {
                assert(out@ =~= cdn@ + seq!['/'] + np1@);
            }
        }
        out
    } else {
        np1.clone()
    }
}

pub(crate) fn rewrite_html_rec(
    v: &Vec<char>,
    tag: &Vec<char>,
    attr: &Vec<char>,
    m: &Vec<(String, String)>,
    cdn: &Vec<char>,
    i: usize,
) -> (r: (Vec<char>, bool))
    requires
        i <= v@.len(),
        tag@.len() >= 1,
    ensures
        (r.0@, r.1) == rewrite_html_from(v@, tag@, attr@, m@, cdn@, i as int),
    decreases v@.len() - i,
{
    if i >= v.len() {
        let out: Vec<char> = Vec::new();
        return (out, false);
    }
    match parse_tag_at_exec(v, tag, attr, i) {
        Some(tok) => {
            let (end, vs, vl) = tok;
            let val = vstd::slice::slice_to_vec(
                vstd::slice::slice_subrange(v.as_slice(), vs, vs + vl),
            );
            let rest = rewrite_html_rec(v, tag, attr, m, cdn, end);
            match entry_find_exec(m, &val) {
                Some(hashed) => {
                    let hv = to_chars(hashed.as_str());
                    let np = html_new_path_exec(&val, &hv, cdn);
                    let mut out = vstd::slice::slice_to_vec(
                        vstd::slice::slice_subrange(v.as_slice(), i, vs),
                    );
                    out.extend_from_slice(np.as_slice());
                    out.extend_from_slice(vstd::slice::slice_subrange(v.as_slice(), vs + vl, end));
                    out.extend_from_slice(rest.0.as_slice());
                    let ch = !chars_eq(&np, &val) || rest.1;
                    proof {
                        assert(out@ =~= rewrite_html_from(v@, tag@, attr@, m@, cdn@, i as int).0);
                    }
                    (out, ch)
                }
                None => {
                    let mut out = vstd::slice::slice_to_vec(
                        vstd::slice::slice_subrange(v.as_slice(), i, end),
                    );
                    out.extend_from_slice(rest.0.as_slice());
                    proof {
                        assert(out@ =~= rewrite_html_from(v@, tag@, attr@, m@, cdn@, i as int).0);
                    }
                    (out, rest.1)
                }
            }
        }
        None => {
            let rest = rewrite_html_rec(v, tag, attr, m, cdn, i + 1);
            let mut out: Vec<char> = Vec::new();
            out.push(v[i]);
            out.extend_from_slice(rest.0.as_slice());
            proof {
                assert(out@ =~= rewrite_html_from(v@, tag@, attr@, m@, cdn@, i as int).0);
            }
            (out, rest.1)
        }
    }
}

pub(crate) fn scan_refs_rec(
    v: &Vec<char>,
    tag: &Vec<char>,
    attr: &Vec<char>,
    ext: &Vec<char>,
    i: usize,
) -> (r: Vec<String>)
    requires
        i <= v@.len(),
        tag@.len() >= 1,
    ensures
        r@.map(|k: int, s: String| s@) == scan_refs_from(v@, tag@, attr@, ext@, i as int),
    decreases v@.len() - i,
{
    if i >= v.len() {
        let out: Vec<String> = Vec::new();
        assert(out@.map(|k: int, s: String| s@) =~= scan_refs_from(
            v@,
            tag@,
            attr@,
            ext@,
            i as int,
        ));
        return out;
    }
    match parse_tag_at_exec(v, tag, attr, i) {
        Some(tok) => {
            let (end, vs, vl) = tok;
            let val = vstd::slice::slice_to_vec(
                vstd::slice::slice_subrange(v.as_slice(), vs, vs + vl),
            );
            let rest = scan_refs_rec(v, tag, attr, ext, end);
            if crate::text::ends_with_chars(&val, ext) {
                let mut out: Vec<String> = Vec::new();
                out.push(from_chars(&val));
                let mut j: usize = 0;
                while j < rest.len()
                    invariant
                        j <= rest@.len(),
                        out@.len() == j + 1,
                        out@[0]@ == val@,
                        forall|k: int| 0 <= k < j ==> #[trigger] out@[k + 1]@ == rest@[k]@,
                    decreases rest@.len() - j,
                {
                    out.push(rest[j].clone());
                    j += 1;
                }
                proof {
                    let sm = scan_refs_from(v@, tag@, attr@, ext@, i as int);
                    let restm = scan_refs_from(v@, tag@, attr@, ext@, end as int);
                    assert(sm == seq![v@.subrange(vs as int, vs + vl)] + restm);
                    assert(val@ == v@.subrange(vs as int, vs + vl));
                    assert forall|k: int|
                        0 <= k < out@.len() implies out@.map(|k2: int, s: String| s@)[k]
                        == sm[k] by {
                        assert(out@.map(|k2: int, s: String| s@)[k] == out@[k]@);
                        if k == 0 {
                            assert(sm[0] == val@);
                        } else {
                            assert(out@[(k - 1) + 1]@ == rest@[k - 1]@);
                            assert(rest@.map(|k2: int, s: String| s@)[k - 1] == rest@[k - 1]@);
                            assert(sm[k] == restm[k - 1]);
                        }
                    }
                    assert(out@.map(|k: int, s: String| s@) =~= sm);
                }
                out
            } else {
                proof {
                    assert(rest@.map(|k: int, s: String| s@) =~= scan_refs_from(
                        v@,
                        tag@,
                        attr@,
                        ext@,
                        i as int,
                    ));
                }
                rest
            }
        }
        None => {
            let rest = scan_refs_rec(v, tag, attr, ext, i + 1);
            proof {
                assert(rest@.map(|k: int, s: String| s@) =~= scan_refs_from(
                    v@,
                    tag@,
                    attr@,
                    ext@,
                    i as int,
                ));
            }
            rest
        }
    }
}

/// Collect the tag attribute values ending in `ext` from the markup, in
/// order of occurrence.
pub fn scan_resource_refs(html_text: &str, tag: &str, attr: &str, ext: &str) -> (r: Vec<String>)
    requires
        tag@.len() >= 1,
    ensures
        r@.map(|k: int, s: String| s@) == scan_refs_from(html_text@, tag@, attr@, ext@, 0),
{
    let v = to_chars(html_text);
    let tv = to_chars(tag);
    let av = to_chars(attr);
    let ev = to_chars(ext);
    scan_refs_rec(&v, &tv, &av, &ev, 0)
}

/// Rewrite every mapped reference of one tag kind in the markup; the flag
/// says whether any reference changed.
pub fn rewrite_tag_references(
    html_text: &str,
    tag: &str,
    attr: &str,
    m: &Vec<(String, String)>,
    cdn: &str,
) -> (r: (String, bool))
    requires
        tag@.len() >= 1,
    ensures
        (r.0@, r.1) == rewrite_html_from(html_text@, tag@, attr@, m@, cdn@, 0),
{
    let v = to_chars(html_text);
    let tv = to_chars(tag);
    let av = to_chars(attr);
    let cv = to_chars(cdn);
    let (out, ch) = rewrite_html_rec(&v, &tv, &av, m, &cv, 0);
    (from_chars(&out), ch)
}

} // verus!
