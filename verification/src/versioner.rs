use vstd::prelude::*;
use crate::codec::{strip_spec, insert_raw_spec, is_hex_run, rfind_dot};
use crate::hashing::{eff_width, fingerprint_of};
use crate::fs_model::Directory;
use crate::paths::{dir_prefix_of, file_name_of, split_path};
use crate::text::{to_chars, from_chars, chars_eq, starts_with_chars, subrange_eq};

verus! {

// Versioning one file.  The clean source of a path is found by stripping
// any fingerprint from its file name; the file is fingerprinted from the
// clean source's content; the fingerprinted copy sits beside the source;
// and every stale fingerprinted sibling is deleted.

/// The path's file name with any fingerprint stripped once.
pub open spec fn clean_name_of(path: Seq<char>, w: nat) -> Seq<char> {
    strip_spec(file_name_of(path), w)
}

/// The clean file name in the path's own directory.
pub open spec fn clean_path_of(path: Seq<char>, w: nat) -> Seq<char> {
    dir_prefix_of(path) + clean_name_of(path, w)
}

/// The base that fingerprints are inserted into: the clean name, stripped
/// once more in case it still carries a fingerprint.
pub open spec fn base_name_of(path: Seq<char>, w: nat) -> Seq<char> {
    strip_spec(clean_name_of(path, w), w)
}

/// The file that is hashed: the clean-named file when it exists, else the
/// given path itself.
pub open spec fn source_of(fs: Directory, path: Seq<char>, w: nat) -> Seq<char> {
    if fs.has(clean_path_of(path, w)) {
        clean_path_of(path, w)
    } else {
        path
    }
}

/// Versioning succeeds exactly when the resolved source exists.
pub open spec fn version_ok(fs: Directory, path: Seq<char>, w: nat) -> bool {
    fs.has(source_of(fs, path, w))
}

/// The fingerprint of the resolved source's content.
pub open spec fn fp_of(fs: Directory, path: Seq<char>, hl: nat) -> Seq<char> {
    fingerprint_of(fs.file(source_of(fs, path, eff_width(hl)))->0, hl)
}

/// The full path of the fingerprinted copy.
pub open spec fn target_of(fs: Directory, path: Seq<char>, hl: nat) -> Seq<char> {
    dir_prefix_of(path) + insert_raw_spec(base_name_of(path, eff_width(hl)), fp_of(fs, path, hl))
}

/// `n` is a fingerprinted sibling of the path's base, carrying `h`.
pub open spec fn is_sibling(n: Seq<char>, path: Seq<char>, w: nat, h: Seq<char>) -> bool {
    &&& h.len() == w
    &&& is_hex_run(h)
    &&& n == dir_prefix_of(path) + insert_raw_spec(base_name_of(path, w), h)
}

/// What versioning `path` leaves at `n`: the target gets the source's
/// content (unless a copy with the same fingerprint was already there),
/// stale siblings disappear, and everything else is untouched.
pub open spec fn version_post_file(
    fs0: Directory,
    path: Seq<char>,
    hl: nat,
    n: Seq<char>,
) -> Option<Seq<char>> {
    let w = eff_width(hl);
    let fp = fp_of(fs0, path, hl);
    let tgt = target_of(fs0, path, hl);
    if n == tgt {
        if fs0.has(tgt) && fingerprint_of(fs0.file(tgt)->0, hl) == fp {
            fs0.file(tgt)
        } else {
            fs0.file(source_of(fs0, path, w))
        }
    } else if exists|h: Seq<char>| is_sibling(n, path, w, h) && h != fp {
        None
    } else {
        fs0.file(n)
    }
}

pub open spec fn version_post(fs0: Directory, fs1: Directory, path: Seq<char>, hl: nat) -> bool {
    forall|n: Seq<char>| #[trigger] fs1.file(n) == version_post_file(fs0, path, hl, n)
}

/// The state a successful versioning call leaves behind: the target is in
/// place with the current fingerprint and no stale sibling remains.  In
/// this state versioning is a no-op.
pub open spec fn settled(fs: Directory, path: Seq<char>, hl: nat) -> bool {
    let w = eff_width(hl);
    let fp = fp_of(fs, path, hl);
    &&& version_ok(fs, path, w)
    &&& fs.has(target_of(fs, path, hl))
    &&& fingerprint_of(fs.file(target_of(fs, path, hl))->0, hl) == fp
    &&& forall|n: Seq<char>, h: Seq<char>|
        is_sibling(n, path, w, h) && h != fp ==> !fs.has(n)
}

/// The stem of a name: what precedes the extension separator, or the whole
/// name when there is no usable extension.
pub open spec fn stem_of(c: Seq<char>) -> Seq<char> {
    match rfind_dot(c) {
        Some(i) => if 0 < i && i + 1 < c.len() {
            c.take(i)
        } else {
            c
        },
        None => c,
    }
}

/// The extension of a name, without its dot; empty when there is none.
pub open spec fn ext_of(c: Seq<char>) -> Seq<char> {
    match rfind_dot(c) {
        Some(i) => if 0 < i && i + 1 < c.len() {
            c.skip(i + 1)
        } else {
            Seq::<char>::empty()
        },
        None => Seq::<char>::empty(),
    }
}

/// The dot-separated tail a nonempty extension contributes to a name.
pub open spec fn dot_ext(e: Seq<char>) -> Seq<char> {
    if e.len() == 0 {
        Seq::<char>::empty()
    } else {
        seq!['.'] + e
    }
}

/// The name of a fingerprinted sibling assembled from stem, fingerprint
/// and extension.
pub open spec fn sibling_name(base: Seq<char>, ext: Seq<char>, h: Seq<char>) -> Seq<char> {
    base + seq!['.'] + h + dot_ext(ext)
}

pub proof fn lemma_stem_ext_insert(c: Seq<char>, h: Seq<char>)
    ensures
        insert_raw_spec(c, h) == sibling_name(stem_of(c), ext_of(c), h),
{
    crate::codec::lemma_rfind_dot_props(c);
    match rfind_dot(c) {
        Some(i) => {
            if 0 < i && i + 1 < c.len() {
                assert(c[i] == '.');
                assert(c.skip(i) =~= seq!['.'] + c.skip(i + 1));
                assert(c.take(i) + seq!['.'] + h + c.skip(i) =~= sibling_name(
                    c.take(i),
                    c.skip(i + 1),
                    h,
                ));
            } else {
                assert(c + seq!['.'] + h =~= sibling_name(c, Seq::<char>::empty(), h));
            }
        }
        None => {
            assert(c + seq!['.'] + h =~= sibling_name(c, Seq::<char>::empty(), h));
        }
    }
}

pub proof fn lemma_insert_raw_len(c: Seq<char>, h: Seq<char>)
    ensures
        insert_raw_spec(c, h).len() == c.len() + h.len() + 1,
{
    lemma_stem_ext_insert(c, h);
    crate::codec::lemma_rfind_dot_props(c);
}

/// The path's file name carries no fingerprint of width `w`: stripping
/// leaves it as it is.  Versioning never touches such a path (other than
/// the clean source it reads); every name it creates or deletes carries a
/// fingerprint.
pub open spec fn fp_free(path: Seq<char>, w: nat) -> bool {
    strip_spec(file_name_of(path), w) == file_name_of(path)
}

proof fn lemma_strip_no_slash(s: Seq<char>, w: nat)
    requires
        crate::paths::no_slashes(s),
    ensures
        crate::paths::no_slashes(strip_spec(s, w)),
{
    crate::codec::lemma_rfind_dot_props(s);
    let r = strip_spec(s, w);
    match rfind_dot(s) {
        Some(i) => {
            if i + 1 < s.len() {
                let pre = s.take(i);
                let post = s.skip(i + 1);
                if i > w + 1 && pre[i - w - 1] == '.' && is_hex_run(pre.skip(i - w)) {
                    assert forall|j: int| 0 <= j < r.len() implies #[trigger] r[j] != '/' by {
                        if j < i - w - 1 {
                            assert(r[j] == s[j]);
                        } else if j == i - w - 1 {
                            assert(r[j] == '.');
                        } else {
                            assert(r[j] == s[i + 1 + (j - (i - w))]);
                        }
                    }
                } else if post.len() == w && is_hex_run(post) {
                    assert forall|j: int| 0 <= j < r.len() implies #[trigger] r[j] != '/' by {
                        assert(r[j] == s[j]);
                    }
                }
            }
        }
        None => {}
    }
}

proof fn lemma_insert_raw_no_slash(c: Seq<char>, h: Seq<char>)
    requires
        crate::paths::no_slashes(c),
        is_hex_run(h),
    ensures
        crate::paths::no_slashes(insert_raw_spec(c, h)),
{
    let r = insert_raw_spec(c, h);
    assert forall|j: int| 0 <= j < h.len() implies #[trigger] h[j] != '/' by {
        assert(crate::codec::is_lower_hex(h[j]));
    }
    match rfind_dot(c) {
        Some(i) => {
            if 0 < i && i + 1 < c.len() {
                assert forall|j: int| 0 <= j < r.len() implies #[trigger] r[j] != '/' by {
                    if j < i {
                        assert(r[j] == c[j]);
                    } else if j == i {
                        assert(r[j] == '.');
                    } else if j < i + 1 + h.len() {
                        assert(r[j] == h[j - i - 1]);
                    } else {
                        assert(r[j] == c.skip(i as int)[j - (i + 1 + h.len())]);
                    }
                }
            } else {
                assert forall|j: int| 0 <= j < r.len() implies #[trigger] r[j] != '/' by {
                    if j < c.len() {
                        assert(r[j] == c[j]);
                    } else if j == c.len() {
                        assert(r[j] == '.');
                    } else {
                        assert(r[j] == h[j - c.len() - 1]);
                    }
                }
            }
        }
        None => {
            assert forall|j: int| 0 <= j < r.len() implies #[trigger] r[j] != '/' by {
                if j < c.len() {
                    assert(r[j] == c[j]);
                } else if j == c.len() {
                    assert(r[j] == '.');
                } else {
                    assert(r[j] == h[j - c.len() - 1]);
                }
            }
        }
    }
}

/// A fingerprinted sibling's file name always carries its fingerprint:
/// no sibling name is fingerprint-free.
pub proof fn lemma_sibling_not_fp_free(path: Seq<char>, w: nat, h: Seq<char>, n: Seq<char>)
    requires
        w >= 1,
        h.len() == w,
        is_hex_run(h),
        n == dir_prefix_of(path) + insert_raw_spec(base_name_of(path, w), h),
    ensures
        !fp_free(n, w),
{
    let bn = base_name_of(path, w);
    let y = insert_raw_spec(bn, h);
    crate::paths::lemma_path_split(path);
    assert(crate::paths::no_slashes(file_name_of(path)));
    lemma_strip_no_slash(file_name_of(path), w);
    lemma_strip_no_slash(clean_name_of(path, w), w);
    lemma_insert_raw_no_slash(bn, h);
    crate::paths::lemma_dir_prefix_shape(path);
    crate::paths::lemma_file_name_of_concat(dir_prefix_of(path), y);
    assert(file_name_of(n) == y);
    crate::codec::lemma_strip_insert_raw(bn, h, w);
    lemma_insert_raw_len(bn, h);
    assert(strip_spec(y, w) == bn);
    assert(y.len() != bn.len());
}

/// A clean path whose name carries no residual fingerprint is itself
/// fingerprint-free.
pub proof fn lemma_clean_path_fp_free(path: Seq<char>, w: nat)
    requires
        strip_spec(clean_name_of(path, w), w) == clean_name_of(path, w),
    ensures
        fp_free(clean_path_of(path, w), w),
{
    crate::paths::lemma_path_split(path);
    assert(crate::paths::no_slashes(file_name_of(path)));
    lemma_strip_no_slash(file_name_of(path), w);
    crate::paths::lemma_dir_prefix_shape(path);
    crate::paths::lemma_file_name_of_concat(dir_prefix_of(path), clean_name_of(path, w));
}

pub proof fn lemma_insert_raw_injective(c: Seq<char>, h1: Seq<char>, h2: Seq<char>)
    requires
        h1.len() == h2.len(),
        insert_raw_spec(c, h1) == insert_raw_spec(c, h2),
    ensures
        h1 == h2,
{
    lemma_stem_ext_insert(c, h1);
    lemma_stem_ext_insert(c, h2);
    let p = stem_of(c).len() + 1;
    assert forall|j: int| 0 <= j < h1.len() implies h1[j] == h2[j] by {
        assert(sibling_name(stem_of(c), ext_of(c), h1)[p + j] == h1[j]);
        assert(sibling_name(stem_of(c), ext_of(c), h2)[p + j] == h2[j]);
    }
    assert(h1 =~= h2);
}

/// Law: after a successful versioning step, exactly one fingerprinted
/// sibling of the path's base exists — the target — and it carries the
/// fingerprint of the current content.  Every later versioning step over
/// the same base re-establishes this, so it holds after any sequence of
/// such steps.
pub proof fn lemma_single_fingerprint(fs0: Directory, fs1: Directory, path: Seq<char>, hl: nat)
    requires
        version_ok(fs0, path, eff_width(hl)),
        version_post(fs0, fs1, path, hl),
        fp_of(fs0, path, hl).len() == eff_width(hl),
        is_hex_run(fp_of(fs0, path, hl)),
    ensures
        fs1.has(target_of(fs0, path, hl)),
        fingerprint_of(fs1.file(target_of(fs0, path, hl))->0, hl) == fp_of(fs0, path, hl),
        forall|n: Seq<char>, h: Seq<char>|
            is_sibling(n, path, eff_width(hl), h) && fs1.has(n) ==> h == fp_of(fs0, path, hl) && n
                == target_of(fs0, path, hl),
{
    let w = eff_width(hl);
    let fp = fp_of(fs0, path, hl);
    let tgt = target_of(fs0, path, hl);
    let bn = base_name_of(path, w);
    assert(fs1.file(tgt) == version_post_file(fs0, path, hl, tgt));
    assert(fs1.has(tgt));
    assert(fingerprint_of(fs1.file(tgt)->0, hl) == fp);
    assert forall|n: Seq<char>, h: Seq<char>|
        is_sibling(n, path, w, h) && fs1.has(n) implies h == fp && n == tgt by {
        assert(fs1.file(n) == version_post_file(fs0, path, hl, n));
        if n == tgt {
            assert(dir_prefix_of(path) + insert_raw_spec(bn, h) == dir_prefix_of(path)
                + insert_raw_spec(bn, fp));
            assert(insert_raw_spec(bn, h) =~= (dir_prefix_of(path) + insert_raw_spec(bn, h)).skip(
                dir_prefix_of(path).len() as int,
            ));
            assert(insert_raw_spec(bn, fp) =~= (dir_prefix_of(path) + insert_raw_spec(
                bn,
                fp,
            )).skip(dir_prefix_of(path).len() as int));
            lemma_insert_raw_injective(bn, h, fp);
        } else {
            if h != fp {
                assert(is_sibling(n, path, w, h) && h != fp);
                assert(fs1.file(n) is None);
                assert(false);
            }
            assert(n == dir_prefix_of(path) + insert_raw_spec(bn, fp));
            assert(false);
        }
    }
}

/// Law: versioning is idempotent.  When the clean-named source file exists
/// and its name carries no fingerprint of its own, the state a versioning
/// step leaves behind is settled: a second step on the same path resolves
/// the same source, computes the same fingerprint and target, and — by the
/// settled clause of the versioning contract — changes nothing on disk.
pub proof fn lemma_version_idempotent(fs0: Directory, fs1: Directory, path: Seq<char>, hl: nat)
    requires
        fs0.has(clean_path_of(path, eff_width(hl))),
        strip_spec(clean_name_of(path, eff_width(hl)), eff_width(hl)) == clean_name_of(
            path,
            eff_width(hl),
        ),
        version_post(fs0, fs1, path, hl),
        fp_of(fs0, path, hl).len() == eff_width(hl),
        is_hex_run(fp_of(fs0, path, hl)),
    ensures
        settled(fs1, path, hl),
        source_of(fs1, path, eff_width(hl)) == source_of(fs0, path, eff_width(hl)),
        fp_of(fs1, path, hl) == fp_of(fs0, path, hl),
        target_of(fs1, path, hl) == target_of(fs0, path, hl),
{
    let w = eff_width(hl);
    let cp = clean_path_of(path, w);
    let bn = base_name_of(path, w);
    let fp = fp_of(fs0, path, hl);
    let tgt = target_of(fs0, path, hl);
    assert(bn == clean_name_of(path, w));
    // the clean path is shorter than the target and than any sibling
    lemma_insert_raw_len(bn, fp);
    assert(cp.len() == dir_prefix_of(path).len() + bn.len());
    assert(tgt.len() == dir_prefix_of(path).len() + bn.len() + w + 1);
    assert(cp != tgt);
    assert(!(exists|h: Seq<char>| is_sibling(cp, path, w, h) && h != fp)) by {
        if exists|h: Seq<char>| is_sibling(cp, path, w, h) && h != fp {
            let h = choose|h: Seq<char>| is_sibling(cp, path, w, h) && h != fp;
            lemma_insert_raw_len(bn, h);
        }
    }
    assert(fs1.file(cp) == version_post_file(fs0, path, hl, cp));
    assert(fs1.file(cp) == fs0.file(cp));
    assert(fs1.has(cp));
    assert(source_of(fs1, path, w) == cp);
    assert(fp_of(fs1, path, hl) == fp);
    assert(target_of(fs1, path, hl) == tgt);
    assert(fs1.file(tgt) == version_post_file(fs0, path, hl, tgt));
    assert(fs1.has(tgt));
    assert(fingerprint_of(fs1.file(tgt)->0, hl) == fp);
    assert forall|n: Seq<char>, h: Seq<char>|
        is_sibling(n, path, w, h) && h != fp_of(fs1, path, hl) implies !fs1.has(n) by {
        assert(fs1.file(n) == version_post_file(fs0, path, hl, n));
        if n == tgt {
            assert(dir_prefix_of(path) + insert_raw_spec(bn, h) == dir_prefix_of(path)
                + insert_raw_spec(bn, fp));
            assert(insert_raw_spec(bn, h) =~= (dir_prefix_of(path) + insert_raw_spec(bn, h)).skip(
                dir_prefix_of(path).len() as int,
            ));
            assert(insert_raw_spec(bn, fp) =~= (dir_prefix_of(path) + insert_raw_spec(
                bn,
                fp,
            )).skip(dir_prefix_of(path).len() as int));
            lemma_insert_raw_injective(bn, h, fp);
            assert(false);
        } else {
            assert(is_sibling(n, path, w, h) && h != fp);
        }
    }
}

/// Split a clean name into its stem and extension.
pub fn split_stem_ext(name: &str) -> (r: (String, String))
    ensures
        r.0@ == stem_of(name@),
        r.1@ == ext_of(name@),
{
    let v = to_chars(name);
    let n = v.len();
    match crate::codec::find_last_dot(&v) {
        Some(i) => {
            proof {
                crate::codec::lemma_rfind_dot_props(v@);
            }
            if 0 < i && i + 1 < n {
                let s = vstd::slice::slice_to_vec(vstd::slice::slice_subrange(v.as_slice(), 0, i));
                let e = vstd::slice::slice_to_vec(
                    vstd::slice::slice_subrange(v.as_slice(), i + 1, v.len()),
                );
                proof {
                    assert(s@ =~= stem_of(name@));
                    assert(e@ =~= ext_of(name@));
                }
                (from_chars(&s), from_chars(&e))
            } else {
                let e: Vec<char> = Vec::new();
                (name.to_owned(), from_chars(&e))
            }
        }
        None => {
            let e: Vec<char> = Vec::new();
            (name.to_owned(), from_chars(&e))
        }
    }
}

/// Does `n` equal `pfx + h + sfx` for some `w`-wide lowercase-hex `h`
/// other than `cur`?  Returns the answer of that test.
fn stale_match(n: &Vec<char>, pfx: &Vec<char>, sfx: &Vec<char>, w: usize, cur: &Vec<char>) -> (r:
    bool)
    ensures
        r == exists|h: Seq<char>|
            h.len() == w && is_hex_run(h) && h != cur@ && n@ == #[trigger] (pfx@ + h + sfx@),
{
    let nl = n.len();
    let pl = pfx.len();
    let sl = sfx.len();
    if nl < pl || nl - pl < w || nl - pl - w != sl {
        proof {
            if exists|h: Seq<char>|
                h.len() == w && is_hex_run(h) && h != cur@ && n@ == #[trigger] (pfx@ + h + sfx@) {
                let h = choose|h: Seq<char>|
                    h.len() == w && is_hex_run(h) && h != cur@ && n@ == #[trigger] (pfx@ + h
                        + sfx@);
                assert(n@.len() == pfx@.len() + w + sfx@.len());
            }
        }
        return false;
    }
    if !starts_with_chars(n, pfx) {
        proof {
            if exists|h: Seq<char>|
                h.len() == w && is_hex_run(h) && h != cur@ && n@ == #[trigger] (pfx@ + h + sfx@) {
                let h = choose|h: Seq<char>|
                    h.len() == w && is_hex_run(h) && h != cur@ && n@ == #[trigger] (pfx@ + h
                        + sfx@);
                assert(n@.take(pfx@.len() as int) =~= pfx@);
            }
        }
        return false;
    }
    if !crate::codec::hex_run(n, pfx.len(), pfx.len() + w) {
        proof {
            if exists|h: Seq<char>|
                h.len() == w && is_hex_run(h) && h != cur@ && n@ == #[trigger] (pfx@ + h + sfx@) {
                let h = choose|h: Seq<char>|
                    h.len() == w && is_hex_run(h) && h != cur@ && n@ == #[trigger] (pfx@ + h
                        + sfx@);
                assert(n@.subrange(pfx@.len() as int, pfx@.len() + w) =~= h);
            }
        }
        return false;
    }
    if !subrange_eq(n, pfx.len() + w, nl, sfx, 0, sfx.len()) {
        proof {
            assert(sfx@.subrange(0, sfx@.len() as int) =~= sfx@);
            if exists|h: Seq<char>|
                h.len() == w && is_hex_run(h) && h != cur@ && n@ == #[trigger] (pfx@ + h + sfx@) {
                let h = choose|h: Seq<char>|
                    h.len() == w && is_hex_run(h) && h != cur@ && n@ == #[trigger] (pfx@ + h
                        + sfx@);
                assert(n@.subrange(pfx@.len() + w, n@.len() as int) =~= sfx@);
            }
        }
        return false;
    }
    let h0 = vstd::slice::slice_to_vec(
        vstd::slice::slice_subrange(n.as_slice(), pfx.len(), pfx.len() + w),
    );
    if chars_eq(&h0, cur) {
        proof {
            if exists|h: Seq<char>|
                h.len() == w && is_hex_run(h) && h != cur@ && n@ == #[trigger] (pfx@ + h + sfx@) {
                let h = choose|h: Seq<char>|
                    h.len() == w && is_hex_run(h) && h != cur@ && n@ == #[trigger] (pfx@ + h
                        + sfx@);
                assert(n@.subrange(pfx@.len() as int, pfx@.len() + w) =~= h);
            }
        }
        false
    } else {
        proof {
            assert(sfx@.subrange(0, sfx@.len() as int) =~= sfx@);
            assert(n@ =~= pfx@ + h0@ + sfx@);
        }
        true
    }
}

/// `n` is a stale fingerprinted sibling: it carries some `w`-wide
/// fingerprint other than `cur` around the given stem and extension.
pub open spec fn gc_stale(
    n: Seq<char>,
    dirp: Seq<char>,
    base: Seq<char>,
    ext: Seq<char>,
    w: nat,
    cur: Seq<char>,
) -> bool {
    exists|h: Seq<char>|
        h.len() == w && is_hex_run(h) && h != cur && n == #[trigger] (dirp + sibling_name(
            base,
            ext,
            h,
        ))
}

pub open spec fn in_name_list(l: Seq<String>, upto: int, n: Seq<char>) -> bool {
    exists|m: int| 0 <= m < upto && l[m]@ == n
}

/// `n` names a fingerprinted variant of the path's own file name.
pub open spec fn is_variant(n: Seq<char>, path: Seq<char>, w: nat, h: Seq<char>) -> bool {
    &&& h.len() == w
    &&& is_hex_run(h)
    &&& n == dir_prefix_of(path) + insert_raw_spec(file_name_of(path), h)
}

impl crate::manager::VersionManager {
    /// Delete every file `dir + <base>.<fp>[.<ext>]` whose fingerprint
    /// differs from `current_hash`; `dir` is the directory prefix of the
    /// siblings, including its trailing separator when it has one.
    #[verifier::loop_isolation(false)]
    pub fn find_and_delete_old_hash_files(
        &self,
        fs: &mut Directory,
        dir: &str,
        basename: &str,
        ext: &str,
        current_hash: &str,
    ) -> (r: Result<(), crate::manager::VersionError>)
        requires
            old(fs).wf(),
        ensures
            final(fs).wf(),
            r is Ok,
            forall|n: Seq<char>|
                #[trigger] final(fs).file(n) == if gc_stale(
                    n,
                    dir@,
                    basename@,
                    ext@,
                    self.width(),
                    current_hash@,
                ) {
                    None::<Seq<char>>
                } else {
                    old(fs).file(n)
                },
            old(fs).log@.is_prefix_of(final(fs).log@),
            (forall|n: Seq<char>|
                gc_stale(n, dir@, basename@, ext@, self.width(), current_hash@) ==> old(fs).file(
                    n,
                ) is None) ==> final(fs).log@ == old(fs).log@,
    {
        let w = crate::hashing::eff_width_exec(self.config.hash_length);
        let dv = to_chars(dir);
        let bv = to_chars(basename);
        let ev = to_chars(ext);
        let cv = to_chars(current_hash);
        let mut pfx = dv;
        pfx.extend_from_slice(bv.as_slice());
        pfx.push('.');
        let mut sfx: Vec<char> = Vec::new();
        if ev.len() > 0 {
            sfx.push('.');
            sfx.extend_from_slice(ev.as_slice());
        }
        proof {
            assert(pfx@ =~= dir@ + basename@ + seq!['.']);
            assert(sfx@ =~= dot_ext(ext@));
            assert forall|h: Seq<char>| #[trigger] (pfx@ + h + sfx@) == dir@ + sibling_name(
                basename@,
                ext@,
                h,
            ) by {
                assert(pfx@ + h + sfx@ =~= dir@ + sibling_name(basename@, ext@, h));
            }
        }
        let ghost stale_set = |n: Seq<char>|
            gc_stale(n, dir@, basename@, ext@, self.width(), current_hash@);
        let mut stale: Vec<String> = Vec::new();
        let mut i: usize = 0;
        while i < fs.files.len()
            invariant
                i <= fs.files@.len(),
                forall|k: int|
                    0 <= k < stale@.len() ==> stale_set(#[trigger] stale@[k]@) && fs.file(
                        stale@[k]@,
                    ) is Some,
                forall|j: int|
                    0 <= j < i && stale_set(#[trigger] fs.files@[j].name@) ==> in_name_list(
                        stale@,
                        stale@.len() as int,
                        fs.files@[j].name@,
                    ),
            decreases fs.files@.len() - i,
        {
            let name = fs.files[i].name.clone();
            let nv = to_chars(name.as_str());
            let ghost prev = stale@;
            if stale_match(&nv, &pfx, &sfx, w, &cv) {
                proof {
                    crate::fs_model::lemma_lookup_found(fs.files@, i as int);
                }
                stale.push(name);
                proof {
                    assert forall|j: int|
                        0 <= j < i + 1 && stale_set(
                            #[trigger] fs.files@[j].name@,
                        ) implies in_name_list(stale@, stale@.len() as int, fs.files@[j].name@) by {
                        if j < i {
                            let m = choose|m: int|
                                0 <= m < prev.len() && prev[m]@ == fs.files@[j].name@;
                            assert(stale@[m]@ == fs.files@[j].name@);
                        } else {
                            assert(stale@[stale@.len() - 1]@ == fs.files@[j].name@);
                        }
                    }
                }
            } else {
                proof {
                    assert(!stale_set(nv@)) by {
                        if stale_set(nv@) {
                            let h = choose|h: Seq<char>|
                                h.len() == self.width() && is_hex_run(h) && h != current_hash@
                                    && nv@ == #[trigger] (dir@ + sibling_name(basename@, ext@, h));
                            assert(nv@ == pfx@ + h + sfx@);
                        }
                    }
                    assert forall|j: int|
                        0 <= j < i + 1 && stale_set(
                            #[trigger] fs.files@[j].name@,
                        ) implies in_name_list(stale@, stale@.len() as int, fs.files@[j].name@) by {
                        if j < i {
                            let m = choose|m: int|
                                0 <= m < prev.len() && prev[m]@ == fs.files@[j].name@;
                            assert(stale@[m]@ == fs.files@[j].name@);
                        } else {
                            assert(fs.files@[j].name@ == nv@);
                        }
                    }
                }
            }
            i += 1;
        }
        let ghost fs0 = *fs;
        let mut k: usize = 0;
        while k < stale.len()
            invariant
                fs.wf(),
                k <= stale@.len(),
                forall|n: Seq<char>|
                    #[trigger] fs.file(n) == if in_name_list(stale@, k as int, n) {
                        None::<Seq<char>>
                    } else {
                        fs0.file(n)
                    },
                fs0.log@.is_prefix_of(fs.log@),
                k == 0 ==> fs.log@ == fs0.log@,
            decreases stale@.len() - k,
        {
            let ghost mid = *fs;
            fs.remove_file(stale[k].as_str());
            proof {
                assert forall|n: Seq<char>|
                    #[trigger] fs.file(n) == (if in_name_list(stale@, k + 1, n) {
                        None::<Seq<char>>
                    } else {
                        fs0.file(n)
                    }) by {
                    assert(fs.file(n) == if n == stale@[k as int]@ {
                        None::<Seq<char>>
                    } else {
                        mid.file(n)
                    });
                    if in_name_list(stale@, k + 1, n) && n != stale@[k as int]@ {
                        let m = choose|m: int| 0 <= m < k + 1 && stale@[m]@ == n;
                        assert(in_name_list(stale@, k as int, n));
                    }
                    if in_name_list(stale@, k as int, n) {
                        assert(in_name_list(stale@, k + 1, n));
                    }
                    if n == stale@[k as int]@ {
                        assert(in_name_list(stale@, k + 1, n));
                    }
                }
                assert(fs.log@.take(fs0.log@.len() as int) =~= mid.log@.take(
                    fs0.log@.len() as int,
                ));
            }
            k += 1;
        }
        proof {
            assert forall|n: Seq<char>|
                #[trigger] fs.file(n) == (if stale_set(n) {
                    None::<Seq<char>>
                } else {
                    fs0.file(n)
                }) by {
                if stale_set(n) {
                    if fs0.file(n) is Some {
                        assert(exists|j: int|
                            0 <= j < fs0.files@.len() && fs0.files@[j].name@ == n) by {
                            if forall|j: int|
                                0 <= j < fs0.files@.len() ==> #[trigger] fs0.files@[j].name@ != n {
                                crate::fs_model::lemma_lookup_absent(fs0.files@, n);
                            }
                        }
                        let j = choose|j: int|
                            0 <= j < fs0.files@.len() && fs0.files@[j].name@ == n;
                        assert(in_name_list(stale@, stale@.len() as int, n));
                    }
                } else {
                    if in_name_list(stale@, stale@.len() as int, n) {
                        let m = choose|m: int| 0 <= m < stale@.len() && stale@[m]@ == n;
                        assert(stale_set(stale@[m]@));
                        assert(false);
                    }
                }
            }
            if forall|n: Seq<char>| stale_set(n) ==> old(fs).file(n) is None {
                if stale@.len() > 0 {
                    assert(stale_set(stale@[0]@) && fs0.file(stale@[0]@) is Some);
                    assert(false);
                }
            }
        }
        Ok(())
    }

    /// Find the file at `base_path`, or a fingerprinted variant of it in
    /// the same directory.
    pub fn find_file(&self, fs: &Directory, base_path: &str) -> (r: Option<String>)
        requires
            fs.wf(),
        ensures
            match r {
                Some(p) => fs.has(p@) && (p@ == base_path@ || exists|h: Seq<char>|
                    is_variant(p@, base_path@, self.width(), h)),
                None => !fs.has(base_path@) && forall|n: Seq<char>, h: Seq<char>|
                    is_variant(n, base_path@, self.width(), h) ==> !fs.has(n),
            },
            fs.has(base_path@) ==> (r matches Some(p) && p@ == base_path@),
    {
        if fs.exists_file(base_path) {
            return Some(base_path.to_owned());
        }
        let w = crate::hashing::eff_width_exec(self.config.hash_length);
        let (dirp, fname) = split_path(base_path);
        let (stem, ext) = split_stem_ext(fname.as_str());
        let dv = to_chars(dirp.as_str());
        let bv = to_chars(stem.as_str());
        let ev = to_chars(ext.as_str());
        let mut pfx = dv;
        pfx.extend_from_slice(bv.as_slice());
        pfx.push('.');
        let mut sfx: Vec<char> = Vec::new();
        if ev.len() > 0 {
            sfx.push('.');
            sfx.extend_from_slice(ev.as_slice());
        }
        let none: Vec<char> = Vec::new();
        proof {
            assert(pfx@ =~= dir_prefix_of(base_path@) + stem_of(file_name_of(base_path@))
                + seq!['.']);
            assert(sfx@ =~= dot_ext(ext_of(file_name_of(base_path@))));
            assert forall|n: Seq<char>, h: Seq<char>|
                #[trigger] is_variant(n, base_path@, self.width(), h) == (h.len() == self.width()
                    && is_hex_run(h) && n == pfx@ + h + sfx@) by {
                lemma_stem_ext_insert(file_name_of(base_path@), h);
                assert(pfx@ + h + sfx@ =~= dir_prefix_of(base_path@) + insert_raw_spec(
                    file_name_of(base_path@),
                    h,
                ));
            }
        }
        let mut i: usize = 0;
        while i < fs.files.len()
            invariant
                fs.wf(),
                i <= fs.files@.len(),
                w == self.width(),
                w >= 1,
                none@.len() == 0,
                !fs.has(base_path@),
                forall|n: Seq<char>, h: Seq<char>|
                    #[trigger] is_variant(n, base_path@, self.width(), h) == (h.len()
                        == self.width() && is_hex_run(h) && n == pfx@ + h + sfx@),
                forall|j: int, h: Seq<char>|
                    0 <= j < i ==> !(#[trigger] is_variant(
                        fs.files@[j].name@,
                        base_path@,
                        self.width(),
                        h,
                    )),
            decreases fs.files@.len() - i,
        {
            let name = fs.files[i].name.clone();
            let nv = to_chars(name.as_str());
            if stale_match(&nv, &pfx, &sfx, w, &none) {
                proof {
                    crate::fs_model::lemma_lookup_found(fs.files@, i as int);
                    let h = choose|h: Seq<char>|
                        h.len() == w && is_hex_run(h) && h != none@ && nv@ == #[trigger] (pfx@ + h
                            + sfx@);
                    assert(is_variant(name@, base_path@, self.width(), h));
                }
                return Some(name);
            }
            proof {
                assert forall|h: Seq<char>|
                    !is_variant(fs.files@[i as int].name@, base_path@, self.width(), h) by {
                    if is_variant(fs.files@[i as int].name@, base_path@, self.width(), h) {
                        assert(h.len() == w && is_hex_run(h) && h != none@ && nv@ == pfx@ + h
                            + sfx@);
                    }
                }
            }
            i += 1;
        }
        proof {
            assert forall|n: Seq<char>, h: Seq<char>|
                is_variant(n, base_path@, self.width(), h) implies !fs.has(n) by {
                if fs.has(n) {
                    if forall|j: int|
                        0 <= j < fs.files@.len() ==> #[trigger] fs.files@[j].name@ != n {
                        crate::fs_model::lemma_lookup_absent(fs.files@, n);
                    }
                    let j = choose|j: int| 0 <= j < fs.files@.len() && fs.files@[j].name@ == n;
                    assert(!is_variant(fs.files@[j].name@, base_path@, self.width(), h));
                }
            }
        }
        None
    }

    /// Find a fingerprinted sibling of the path's base on disk, with the
    /// fingerprint its name carries, without hashing anything.
    pub fn find_hashed_sibling(&self, fs: &Directory, path: &str) -> (r: Option<(String, String)>)
        requires
            fs.wf(),
        ensures
            match r {
                Some(p) => fs.has(p.0@) && is_sibling(p.0@, path@, self.width(), p.1@),
                None => forall|n: Seq<char>, h: Seq<char>|
                    is_sibling(n, path@, self.width(), h) ==> !fs.has(n),
            },
    {
        let w = crate::hashing::eff_width_exec(self.config.hash_length);
        let (dirp, fname) = split_path(path);
        let clean = crate::codec::strip_fingerprint(fname.as_str(), w);
        let base = crate::codec::strip_fingerprint(clean.as_str(), w);
        let (stem, ext) = split_stem_ext(base.as_str());
        let dv = to_chars(dirp.as_str());
        let bv = to_chars(stem.as_str());
        let ev = to_chars(ext.as_str());
        let mut pfx = dv;
        pfx.extend_from_slice(bv.as_slice());
        pfx.push('.');
        let mut sfx: Vec<char> = Vec::new();
        if ev.len() > 0 {
            sfx.push('.');
            sfx.extend_from_slice(ev.as_slice());
        }
        let none: Vec<char> = Vec::new();
        let ghost bn = base_name_of(path@, self.width());
        proof {
            assert(pfx@ =~= dir_prefix_of(path@) + stem_of(bn) + seq!['.']);
            assert(sfx@ =~= dot_ext(ext_of(bn)));
            assert forall|n: Seq<char>, h: Seq<char>|
                #[trigger] is_sibling(n, path@, self.width(), h) == (h.len() == self.width()
                    && is_hex_run(h) && n == pfx@ + h + sfx@) by {
                lemma_stem_ext_insert(bn, h);
                assert(pfx@ + h + sfx@ =~= dir_prefix_of(path@) + insert_raw_spec(bn, h));
            }
        }
        let mut i: usize = 0;
        while i < fs.files.len()
            invariant
                fs.wf(),
                i <= fs.files@.len(),
                w == self.width(),
                w >= 1,
                none@.len() == 0,
                forall|n: Seq<char>, h: Seq<char>|
                    #[trigger] is_sibling(n, path@, self.width(), h) == (h.len() == self.width()
                        && is_hex_run(h) && n == pfx@ + h + sfx@),
                forall|j: int, h: Seq<char>|
                    0 <= j < i ==> !(#[trigger] is_sibling(
                        fs.files@[j].name@,
                        path@,
                        self.width(),
                        h,
                    )),
            decreases fs.files@.len() - i,
        {
            let name = fs.files[i].name.clone();
            let nv = to_chars(name.as_str());
            if stale_match(&nv, &pfx, &sfx, w, &none) {
                proof {
                    crate::fs_model::lemma_lookup_found(fs.files@, i as int);
                    let h = choose|h: Seq<char>|
                        h.len() == w && is_hex_run(h) && h != none@ && nv@ == #[trigger] (pfx@ + h
                            + sfx@);
                    assert(nv@.subrange(pfx@.len() as int, pfx@.len() + w) =~= h);
                }
                let nvn = nv.len();
                assert(pfx@.len() + w <= nvn);
                let hv = vstd::slice::slice_to_vec(
                    vstd::slice::slice_subrange(nv.as_slice(), pfx.len(), pfx.len() + w),
                );
                let hs = from_chars(&hv);
                proof {
                    assert(is_sibling(name@, path@, self.width(), hs@));
                }
                return Some((name, hs));
            }
            proof {
                assert forall|h: Seq<char>|
                    !is_sibling(fs.files@[i as int].name@, path@, self.width(), h) by {
                    if is_sibling(fs.files@[i as int].name@, path@, self.width(), h) {
                        assert(h.len() == w && is_hex_run(h) && h != none@ && nv@ == pfx@ + h
                            + sfx@);
                    }
                }
            }
            i += 1;
        }
        proof {
            assert forall|n: Seq<char>, h: Seq<char>|
                is_sibling(n, path@, self.width(), h) implies !fs.has(n) by {
                if fs.has(n) {
                    if forall|j: int|
                        0 <= j < fs.files@.len() ==> #[trigger] fs.files@[j].name@ != n {
                        crate::fs_model::lemma_lookup_absent(fs.files@, n);
                    }
                    let j = choose|j: int| 0 <= j < fs.files@.len() && fs.files@[j].name@ == n;
                    assert(!is_sibling(fs.files@[j].name@, path@, self.width(), h));
                }
            }
        }
        None
    }

    /// Version one file: resolve its clean source, fingerprint the source's
    /// content, place the fingerprinted copy beside it unless a copy with
    /// this fingerprint is already there, and delete every stale sibling.
    /// In a settled state the call performs no mutation at all.
    pub fn rename_file_with_hash(&mut self, fs: &mut Directory, file_path: &str) -> (r: Result<
        crate::manager::FileInfo,
        crate::manager::VersionError,
    >)
        requires
            old(fs).wf(),
        ensures
            final(fs).wf(),
            r is Ok <==> version_ok(*old(fs), file_path@, old(self).width()),
            r matches Ok(info) ==> {
                let hl = old(self).config.hash_length as nat;
                &&& info.original_path@ == source_of(*old(fs), file_path@, old(self).width())
                &&& info.hash@ == fp_of(*old(fs), file_path@, hl)
                &&& info.hash@.len() == old(self).width()
                &&& is_hex_run(info.hash@)
                &&& info.hashed_path@ == target_of(*old(fs), file_path@, hl)
                &&& info.renamed == true
                &&& version_post(*old(fs), *final(fs), file_path@, hl)
            },
            r is Err ==> *final(fs) == *old(fs),
            r matches Err(e) ==> crate::manager::is_not_found(
                e,
                source_of(*old(fs), file_path@, old(self).width()),
            ),
            settled(*old(fs), file_path@, old(self).config.hash_length as nat) ==> final(fs).log@
                == old(fs).log@,
            old(fs).log@.is_prefix_of(final(fs).log@),
            forall|n: Seq<char>|
                fp_free(n, old(self).width()) ==> #[trigger] final(fs).file(n) == old(fs).file(n),
            final(self).config == old(self).config,
            final(self).processed_files == old(self).processed_files,
            final(self).debug_mode == old(self).debug_mode,
            old(self).hash_log@.is_prefix_of(final(self).hash_log@),
            r is Err ==> final(self).hash_log@ == old(self).hash_log@,
            r is Ok ==> final(self).hash_log@[old(self).hash_log@.len() as int]@ == source_of(
                *old(fs),
                file_path@,
                old(self).width(),
            ),
    {
        let ghost hl = self.config.hash_length as nat;
        let (dirp, fname) = split_path(file_path);
        let clean_name = self.remove_hash_from_filename(fname.as_str());
        let clean_path = crate::text::concat_str(dirp.as_str(), clean_name.as_str());
        proof {
            assert(clean_path@ == clean_path_of(file_path@, self.width()));
        }
        let source: String = if fs.exists_file(clean_path.as_str()) {
            clean_path
        } else {
            file_path.to_owned()
        };
        proof {
            assert(source@ == source_of(*fs, file_path@, self.width()));
        }
        let hash = match self.calculate_file_hash(fs, source.as_str()) {
            Ok(h) => h,
            Err(e) => {
                return Err(e);
            }
        };
        let base = self.remove_hash_from_filename(clean_name.as_str());
        let new_filename = self.add_hash_to_filename(clean_name.as_str(), hash.as_str());
        let new_path = crate::text::concat_str(dirp.as_str(), new_filename.as_str());
        proof {
            assert(hash@ == fp_of(*old(fs), file_path@, hl));
            assert(base@ == base_name_of(file_path@, self.width()));
            assert(new_path@ == target_of(*old(fs), file_path@, hl));
        }
        let info = crate::manager::FileInfo {
            original_path: source.clone(),
            hashed_path: new_path.clone(),
            hash: hash.clone(),
            renamed: true,
        };
        let mut skip_copy = false;
        if fs.exists_file(new_path.as_str()) {
            let th = match self.calculate_file_hash(fs, new_path.as_str()) {
                Ok(h) => h,
                Err(e) => {
                    proof {
                        assert(false);
                    }
                    return Err(e);
                }
            };
            if crate::text::str_eq(th.as_str(), hash.as_str()) {
                skip_copy = true;
            }
        }
        let ghost skip_spec_cond = old(fs).has(target_of(*old(fs), file_path@, hl))
            && crate::hashing::fingerprint_of(
            old(fs).file(target_of(*old(fs), file_path@, hl))->0,
            hl,
        ) == fp_of(*old(fs), file_path@, hl);
        proof {
            assert(skip_copy == skip_spec_cond);
        }
        if !skip_copy {
            fs.copy_file(source.as_str(), new_path.as_str());
        }
        let ghost mid = *fs;
        let (stem, ext) = split_stem_ext(base.as_str());
        match self.find_and_delete_old_hash_files(
            fs,
            dirp.as_str(),
            stem.as_str(),
            ext.as_str(),
            hash.as_str(),
        ) {
            Ok(u) => u,
            Err(e) => {
                proof {
                    assert(false);
                }
                return Err(e);
            }
        };
        proof {
            let w = old(self).width();
            let fp = fp_of(*old(fs), file_path@, hl);
            let tgt = target_of(*old(fs), file_path@, hl);
            let bn = base_name_of(file_path@, w);
            // the garbage-collection pattern describes exactly the stale
            // siblings of the base name
            assert forall|n: Seq<char>|
                #[trigger] gc_stale(n, dirp@, stem@, ext@, w, hash@) == (exists|h: Seq<char>|
                    is_sibling(n, file_path@, w, h) && h != fp) by {
                if gc_stale(n, dirp@, stem@, ext@, w, hash@) {
                    let h = choose|h: Seq<char>|
                        h.len() == w && is_hex_run(h) && h != hash@ && n == #[trigger] (dirp@
                            + sibling_name(stem@, ext@, h));
                    lemma_stem_ext_insert(bn, h);
                    assert(is_sibling(n, file_path@, w, h) && h != fp);
                }
                if exists|h: Seq<char>| is_sibling(n, file_path@, w, h) && h != fp {
                    let h = choose|h: Seq<char>| is_sibling(n, file_path@, w, h) && h != fp;
                    lemma_stem_ext_insert(bn, h);
                    assert(n == dirp@ + sibling_name(stem@, ext@, h));
                }
            }
            // the target itself is never stale: its fingerprint is current
            assert(!gc_stale(tgt, dirp@, stem@, ext@, w, hash@)) by {
                if gc_stale(tgt, dirp@, stem@, ext@, w, hash@) {
                    let h = choose|h: Seq<char>| is_sibling(tgt, file_path@, w, h) && h != fp;
                    assert(dir_prefix_of(file_path@) + insert_raw_spec(bn, h) == dir_prefix_of(
                        file_path@,
                    ) + insert_raw_spec(bn, fp));
                    assert(insert_raw_spec(bn, h) =~= (dir_prefix_of(file_path@)
                        + insert_raw_spec(bn, h)).skip(dir_prefix_of(file_path@).len() as int));
                    assert(insert_raw_spec(bn, h) == insert_raw_spec(bn, fp));
                    lemma_insert_raw_injective(bn, h, fp);
                }
            }
            assert forall|n: Seq<char>| #[trigger] fs.file(n) == version_post_file(
                *old(fs),
                file_path@,
                hl,
                n,
            ) by {
                assert(fs.file(n) == if gc_stale(n, dirp@, stem@, ext@, w, hash@) {
                    None::<Seq<char>>
                } else {
                    mid.file(n)
                });
            }
            assert(version_post(*old(fs), *fs, file_path@, hl));
            assert forall|n: Seq<char>| fp_free(n, w) implies #[trigger] fs.file(n) == old(
                fs,
            ).file(n) by {
                assert(fs.file(n) == version_post_file(*old(fs), file_path@, hl, n));
                if n == tgt {
                    lemma_sibling_not_fp_free(file_path@, w, fp, n);
                }
                if exists|h: Seq<char>| is_sibling(n, file_path@, w, h) && h != fp {
                    let h = choose|h: Seq<char>| is_sibling(n, file_path@, w, h) && h != fp;
                    lemma_sibling_not_fp_free(file_path@, w, h, n);
                }
            }
            if settled(*old(fs), file_path@, hl) {
                assert(skip_spec_cond);
                assert forall|n: Seq<char>|
                    gc_stale(n, dirp@, stem@, ext@, w, hash@) implies old(fs).file(n) is None by {
                    let h = choose|h: Seq<char>| is_sibling(n, file_path@, w, h) && h != fp;
                    assert(!old(fs).has(n));
                }
                assert(fs.log@ == old(fs).log@);
            }
            assert(fs.log@.is_prefix_of(fs.log@));
        }
        Ok(info)
    }
}

} // verus!
