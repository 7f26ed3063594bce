use vstd::prelude::*;
use crate::text::{to_chars, from_chars};

verus! {

// A fingerprinted filename has the shape `<base>.<fingerprint>.<ext>`, or
// `<base>.<fingerprint>` when the clean name has no extension.  The
// fingerprint is a run of exactly `w` lowercase hexadecimal characters,
// where `w` is the configured fingerprint width.

pub open spec fn is_lower_hex(c: char) -> bool {
    ('0' <= c && c <= '9') || ('a' <= c && c <= 'f')
}

pub open spec fn is_hex_run(s: Seq<char>) -> bool {
    forall|i: int| 0 <= i < s.len() ==> is_lower_hex(#[trigger] s[i])
}

pub open spec fn no_dots(s: Seq<char>) -> bool {
    forall|i: int| 0 <= i < s.len() ==> #[trigger] s[i] != '.'
}

/// Index of the last `'.'` in `s`, if any.
pub open spec fn rfind_dot(s: Seq<char>) -> Option<int>
    decreases s.len(),
{
    if s.len() == 0 {
        None
    } else if s[s.len() - 1] == '.' {
        Some(s.len() - 1)
    } else {
        rfind_dot(s.drop_last())
    }
}

/// Remove a fingerprint of width `w` from a filename: `<base>.<fp>.<ext>`
/// becomes `<base>.<ext>`, and `<base>.<fp>` becomes `<base>`; any other
/// shape is left unchanged.
pub open spec fn strip_spec(s: Seq<char>, w: nat) -> Seq<char> {
    match rfind_dot(s) {
        Some(i) => {
            if i + 1 < s.len() {
                let pre = s.take(i);
                let post = s.skip(i + 1);
                if i > w + 1 && pre[i - w - 1] == '.' && is_hex_run(pre.skip(i - w)) {
                    pre.take(i - w - 1) + seq!['.'] + post
                } else if post.len() == w && is_hex_run(post) {
                    pre
                } else {
                    s
                }
            } else {
                s
            }
        }
        None => s,
    }
}

/// Place a fingerprint in a clean filename, in front of its extension if it
/// has one, appended otherwise.
pub open spec fn insert_raw_spec(c: Seq<char>, h: Seq<char>) -> Seq<char> {
    match rfind_dot(c) {
        Some(i) => {
            if 0 < i && i + 1 < c.len() {
                c.take(i) + seq!['.'] + h + c.skip(i)
            } else {
                c + seq!['.'] + h
            }
        }
        None => c + seq!['.'] + h,
    }
}

/// Insert a fingerprint into a filename, first removing any fingerprint the
/// name already carries, so that fingerprints never pile up.
pub open spec fn insert_spec(s: Seq<char>, h: Seq<char>, w: nat) -> Seq<char> {
    insert_raw_spec(strip_spec(s, w), h)
}

proof fn lemma_rfind_dot_extend(x: Seq<char>, e: Seq<char>)
    requires
        no_dots(e),
    ensures
        rfind_dot(x + seq!['.'] + e) == Some(x.len() as int),
    decreases e.len(),
{
    let s = x + seq!['.'] + e;
    if e.len() == 0 {
        assert(s.len() == x.len() + 1);
        assert(s[s.len() - 1] == '.');
    } else {
        assert(s[s.len() - 1] == e[e.len() - 1]);
        assert(s[s.len() - 1] != '.');
        assert(s.drop_last() =~= x + seq!['.'] + e.drop_last());
        lemma_rfind_dot_extend(x, e.drop_last());
    }
}

pub proof fn lemma_rfind_dot_props(s: Seq<char>)
    ensures
        match rfind_dot(s) {
            Some(i) => 0 <= i < s.len() && s[i] == '.' && no_dots(s.skip(i + 1)),
            None => no_dots(s),
        },
    decreases s.len(),
{
    if s.len() == 0 {
    } else if s[s.len() - 1] == '.' {
        assert(s.skip(s.len() - 1 + 1) =~= Seq::<char>::empty());
    } else {
        lemma_rfind_dot_props(s.drop_last());
        let t = s.drop_last();
        match rfind_dot(t) {
            Some(i) => {
                assert(s[i] == t[i]);
                assert forall|j: int| 0 <= j < s.skip(i + 1).len() implies #[trigger] s.skip(
                    i + 1,
                )[j] != '.' by {
                    if j < t.skip(i + 1).len() {
                        assert(s.skip(i + 1)[j] == t.skip(i + 1)[j]);
                    } else {
                        assert(s.skip(i + 1)[j] == s[s.len() - 1]);
                    }
                }
            }
            None => {
                assert forall|j: int| 0 <= j < s.len() implies #[trigger] s[j] != '.' by {
                    if j < t.len() {
                        assert(s[j] == t[j]);
                    }
                }
            }
        }
    }
}

pub proof fn lemma_strip_insert_raw(c: Seq<char>, h: Seq<char>, w: nat)
    requires
        h.len() == w,
        is_hex_run(h),
        w >= 1,
    ensures
        strip_spec(insert_raw_spec(c, h), w) == c,
{
    assert(no_dots(h)) by {
        assert forall|j: int| 0 <= j < h.len() implies #[trigger] h[j] != '.' by {
            assert(is_lower_hex(h[j]));
        }
    }
    lemma_rfind_dot_props(c);
    match rfind_dot(c) {
        Some(i) if 0 < i && i + 1 < c.len() => {
            let r = c.take(i) + seq!['.'] + h + c.skip(i);
            let x = c.take(i) + seq!['.'] + h;
            let post = c.skip(i + 1);
            assert(r =~= x + seq!['.'] + post) by {
                assert(c.skip(i) =~= seq!['.'] + c.skip(i + 1));
            }
            lemma_rfind_dot_extend(x, post);
            assert(rfind_dot(r) == Some(x.len() as int));
            let ir = x.len() as int;
            assert(ir == i + 1 + w);
            assert(ir + 1 < r.len());
            let pre_r = r.take(ir);
            let post_r = r.skip(ir + 1);
            assert(pre_r =~= x);
            assert(post_r =~= post);
            assert(ir > w + 1);
            assert(pre_r[ir - w - 1] == '.') by {
                assert(x[i] == '.');
            }
            assert(pre_r.skip(ir - w) =~= h);
            assert(strip_spec(r, w) == pre_r.take(ir - w - 1) + seq!['.'] + post_r);
            assert(pre_r.take(ir - w - 1) =~= c.take(i));
            assert(c.take(i) + seq!['.'] + post =~= c) by {
                assert(c[i] == '.');
            }
        }
        _ => {
            let r = c + seq!['.'] + h;
            lemma_rfind_dot_extend(c, h);
            let ir = c.len() as int;
            assert(rfind_dot(r) == Some(ir));
            assert(ir + 1 < r.len());
            let pre_r = r.take(ir);
            let post_r = r.skip(ir + 1);
            assert(pre_r =~= c);
            assert(post_r =~= h);
            // the first strip case cannot fire: `c` does not end in a
            // dot followed by `w` hex characters
            if ir > w + 1 && pre_r[ir - w - 1] == '.' && is_hex_run(pre_r.skip(ir - w)) {
                match rfind_dot(c) {
                    Some(i) => {
                        if i + 1 >= c.len() {
                            // c ends with a dot, which is not a hex character
                            assert(c[c.len() - 1] == '.');
                            assert(pre_r.skip(ir - w)[w - 1] == c[c.len() - 1]);
                            assert(is_lower_hex('.'));
                            assert(false);
                        } else {
                            // i == 0 here, but the hex run would put a dot
                            // at position ir - w - 1 > 0 after the last dot
                            assert(i == 0);
                            assert(c[ir - w - 1] == '.');
                            assert(no_dots(c.skip(i + 1)));
                            assert(c.skip(i + 1)[ir - w - 2] == c[ir - w - 1]);
                            assert(false);
                        }
                    }
                    None => {
                        assert(no_dots(c));
                        assert(c[ir - w - 1] == '.');
                        assert(false);
                    }
                }
            }
            assert(strip_spec(r, w) == pre_r);
        }
    }
}

/// Round-trip law: inserting a fingerprint of width `w` and stripping it
/// again gives exactly what stripping the original name gives, for every
/// filename and every lowercase-hex fingerprint of that width.
pub proof fn lemma_strip_insert_roundtrip(f: Seq<char>, h: Seq<char>, w: nat)
    requires
        h.len() == w,
        is_hex_run(h),
        w >= 1,
    ensures
        strip_spec(insert_spec(f, h, w), w) == strip_spec(f, w),
{
    lemma_strip_insert_raw(strip_spec(f, w), h, w);
}

/// Round-trip law on clean names: a name that carries no fingerprint comes
/// back exactly as it was after inserting and stripping one.
pub proof fn lemma_strip_insert_clean(name: Seq<char>, h: Seq<char>, w: nat)
    requires
        strip_spec(name, w) == name,
        h.len() == w,
        is_hex_run(h),
        w >= 1,
    ensures
        strip_spec(insert_spec(name, h, w), w) == name,
{
    lemma_strip_insert_roundtrip(name, h, w);
}

fn is_hex_char(c: char) -> (b: bool)
    ensures
        b == is_lower_hex(c),
{
    ('0' <= c && c <= '9') || ('a' <= c && c <= 'f')
}

pub fn hex_run(v: &Vec<char>, from: usize, to: usize) -> (b: bool)
    requires
        from <= to <= v@.len(),
    ensures
        b == is_hex_run(v@.subrange(from as int, to as int)),
{
    let mut i: usize = from;
    while i < to
        invariant
            from <= i <= to <= v@.len(),
            forall|j: int| from <= j < i ==> is_lower_hex(#[trigger] v@[j]),
        decreases to - i,
    {
        if !is_hex_char(v[i]) {
            assert(v@.subrange(from as int, to as int)[i - from] == v@[i as int]);
            return false;
        }
        i += 1;
    }
    assert forall|j: int| 0 <= j < v@.subrange(from as int, to as int).len() implies is_lower_hex(
        #[trigger] v@.subrange(from as int, to as int)[j],
    ) by {
        assert(v@.subrange(from as int, to as int)[j] == v@[from + j]);
    }
    true
}

pub fn find_last_dot(v: &Vec<char>) -> (r: Option<usize>)
    ensures
        rfind_dot(v@) == match r {
            Some(i) => Some(i as int),
            None => None,
        },
{
    let mut i: usize = v.len();
    assert(v@.take(i as int) =~= v@);
    while i > 0
        invariant
            i <= v@.len(),
            rfind_dot(v@) == rfind_dot(v@.take(i as int)),
        decreases i,
    {
        if v[i - 1] == '.' {
            assert(v@.take(i as int)[i - 1] == v@[i - 1]);
            return Some(i - 1);
        }
        assert(v@.take(i as int).drop_last() =~= v@.take(i - 1));
        i -= 1;
    }
    assert(v@.take(0) =~= Seq::<char>::empty());
    None
}

fn strip_chars(v: &Vec<char>, w: usize) -> (r: Vec<char>)
    requires
        w >= 1,
    ensures
        r@ == strip_spec(v@, w as nat),
{
    let n = v.len();
    match find_last_dot(v) {
        Some(i) => {
            proof {
                lemma_rfind_dot_props(v@);
            }
            if i + 1 < n {
                proof {
                    assert(v@.skip(i + 1) =~= v@.subrange(i + 1, n as int));
                    if i > w {
                        assert(v@.take(i as int).skip(i - w) =~= v@.subrange(i - w, i as int));
                    }
                }
                if i > w && i - w > 1 && v[i - w - 1] == '.' && hex_run(v, i - w, i) {
                    let mut out: Vec<char> = Vec::new();
                    out.extend_from_slice(vstd::slice::slice_subrange(v.as_slice(), 0, i - w - 1));
                    out.push('.');
                    out.extend_from_slice(vstd::slice::slice_subrange(v.as_slice(), i + 1, n));
                    proof {
                        assert(v@.take(i as int).take(i - w - 1) =~= v@.subrange(0, i - w - 1));
                        assert(out@ =~= strip_spec(v@, w as nat));
                    }
                    out
                } else if n - i - 1 == w && hex_run(v, i + 1, n) {
                    let out = vstd::slice::slice_to_vec(vstd::slice::slice_subrange(
                        v.as_slice(),
                        0,
                        i,
                    ));
                    proof {
                        assert(v@.take(i as int) =~= v@.subrange(0, i as int));
                        assert(out@ =~= strip_spec(v@, w as nat));
                    }
                    out
                } else {
                    let out = v.clone();
                    assert(out@ =~= strip_spec(v@, w as nat));
                    out
                }
            } else {
                let out = v.clone();
                assert(out@ =~= strip_spec(v@, w as nat));
                out
            }
        }
        None => {
            let out = v.clone();
            assert(out@ =~= strip_spec(v@, w as nat));
            out
        }
    }
}

fn insert_raw_chars(c: &Vec<char>, h: &Vec<char>) -> (r: Vec<char>)
    ensures
        r@ == insert_raw_spec(c@, h@),
{
    let n = c.len();
    match find_last_dot(c) {
        Some(i) => {
            proof {
                lemma_rfind_dot_props(c@);
            }
            if 0 < i && i + 1 < n {
                let mut out: Vec<char> = Vec::new();
                out.extend_from_slice(vstd::slice::slice_subrange(c.as_slice(), 0, i));
                out.push('.');
                out.extend_from_slice(h.as_slice());
                out.extend_from_slice(vstd::slice::slice_subrange(c.as_slice(), i, n));
                proof {
                    assert(c@.take(i as int) =~= c@.subrange(0, i as int));
                    assert(c@.skip(i as int) =~= c@.subrange(i as int, n as int));
                    assert(out@ =~= insert_raw_spec(c@, h@));
                }
                out
            } else {
                let mut out = c.clone();
                out.push('.');
                out.extend_from_slice(h.as_slice());
                assert(out@ =~= insert_raw_spec(c@, h@));
                out
            }
        }
        None => {
            let mut out = c.clone();
            out.push('.');
            out.extend_from_slice(h.as_slice());
            assert(out@ =~= insert_raw_spec(c@, h@));
            out
        }
    }
}

/// Strip a fingerprint of width `w` from `filename`, if it carries one.
pub fn strip_fingerprint(filename: &str, w: usize) -> (r: String)
    requires
        w >= 1,
    ensures
        r@ == strip_spec(filename@, w as nat),
{
    let v = to_chars(filename);
    let out = strip_chars(&v, w);
    from_chars(&out)
}

/// Insert the fingerprint `hash` into `filename`, stripping any fingerprint
/// of width `w` that the name already carries.
pub fn insert_fingerprint(filename: &str, hash: &str, w: usize) -> (r: String)
    requires
        w >= 1,
    ensures
        r@ == insert_spec(filename@, hash@, w as nat),
{
    let v = to_chars(filename);
    let clean = strip_chars(&v, w);
    let hv = to_chars(hash);
    let out = insert_raw_chars(&clean, &hv);
    from_chars(&out)
}

} // verus!
