use vstd::prelude::*;
use crate::text::{rfind_char, lemma_rfind_char_props, find_last_char, to_chars, from_chars};

verus! {

// Paths in the model are plain strings with '/' separators.  A path splits
// into its directory prefix (everything up to and including the last '/')
// and its file name; the two concatenate back to the path itself.

/// Everything up to and including the last '/'; empty when the path has no
/// separator.
pub open spec fn dir_prefix_of(s: Seq<char>) -> Seq<char> {
    match rfind_char(s, '/') {
        Some(i) => s.take(i + 1),
        None => Seq::<char>::empty(),
    }
}

/// Everything after the last '/'; the whole path when it has no separator.
pub open spec fn file_name_of(s: Seq<char>) -> Seq<char> {
    match rfind_char(s, '/') {
        Some(i) => s.skip(i + 1),
        None => s,
    }
}

pub open spec fn no_slashes(s: Seq<char>) -> bool {
    forall|i: int| 0 <= i < s.len() ==> #[trigger] s[i] != '/'
}

/// A directory prefix is empty or ends with its separator.
pub proof fn lemma_dir_prefix_shape(p: Seq<char>)
    ensures
        dir_prefix_of(p).len() == 0 || dir_prefix_of(p).last() == '/',
{
    crate::text::lemma_rfind_char_props(p, '/');
    match rfind_char(p, '/') {
        Some(i) => {
            assert(dir_prefix_of(p).last() == p[i]);
        }
        None => {}
    }
}

/// Concatenating a directory prefix and a separator-free name splits back
/// into exactly those two parts.
pub proof fn lemma_file_name_of_concat(d: Seq<char>, y: Seq<char>)
    requires
        no_slashes(y),
        d.len() == 0 || d.last() == '/',
    ensures
        file_name_of(d + y) == y,
        dir_prefix_of(d + y) == d,
{
    if d.len() == 0 {
        assert(d + y =~= y);
        crate::text::lemma_rfind_char_props(y, '/');
        match rfind_char(y, '/') {
            Some(i) => {
                assert(false);
            }
            None => {}
        }
    } else {
        assert(d + y =~= d.drop_last() + seq!['/'] + y);
        crate::text::lemma_rfind_char_extend(d.drop_last(), '/', y);
        assert(rfind_char(d + y, '/') == Some(d.len() - 1));
        assert((d + y).skip(d.len() as int) =~= y);
        assert((d + y).take(d.len() as int) =~= d);
    }
}

pub proof fn lemma_path_split(s: Seq<char>)
    ensures
        dir_prefix_of(s) + file_name_of(s) == s,
        forall|j: int| 0 <= j < file_name_of(s).len() ==> #[trigger] file_name_of(s)[j] != '/',
{
    lemma_rfind_char_props(s, '/');
    match rfind_char(s, '/') {
        Some(i) => {
            assert(s.take(i + 1) + s.skip(i + 1) =~= s);
            assert forall|j: int| 0 <= j < file_name_of(s).len() implies #[trigger] file_name_of(
                s,
            )[j] != '/' by {
                assert(file_name_of(s)[j] == s[i + 1 + j]);
            }
        }
        None => {
            assert(Seq::<char>::empty() + s =~= s);
        }
    }
}

/// The relative path that pathdiff computes from `base` to `path`; a pure
/// function of the two path strings alone.
pub uninterp spec fn diff_paths_of(path: Seq<char>, base: Seq<char>) -> Option<Seq<char>>;

/// Relies on pathdiff::diff_paths: constructs a relative path from the
/// base directory to the target path, from the two strings alone.
#[verifier::external_body]
pub(crate) fn diff_paths_str(path: &str, base: &str) -> (r: Option<String>)
    ensures
        diff_paths_of(path@, base@) == match r {
            Some(s) => Some(s@),
            None => None::<Seq<char>>,
        },
{
    pathdiff::diff_paths(path, base).map(|p| p.to_string_lossy().to_string())
}

/// A directory path joined with a relative path.
pub open spec fn join_spec(dir: Seq<char>, rel: Seq<char>) -> Seq<char> {
    if dir.len() == 0 {
        rel
    } else {
        dir + seq!['/'] + rel
    }
}

/// Join a directory path and a relative path with a separator.
pub fn join_dir(dir: &str, rel: &str) -> (r: String)
    ensures
        r@ == join_spec(dir@, rel@),
{
    if dir.is_empty() {
        rel.to_owned()
    } else {
        let mut s = dir.to_owned();
        s.append("/");
        s.append(rel);
        proof {
            assert(s@ =~= join_spec(dir@, rel@)) by {
                reveal_strlit("/");
            }
        }
        s
    }
}

/// Where a file belongs when files are sorted into one directory per
/// extension: `<base>/<ext>/<name>` for a name with an extension, nothing
/// for a name without one.
pub open spec fn classify_dest_spec(base: Seq<char>, path: Seq<char>) -> Option<Seq<char>> {
    let name = file_name_of(path);
    match rfind_char(name, '.') {
        Some(i) => if 0 < i && i + 1 < name.len() {
            Some(join_spec(base, name.skip(i + 1) + seq!['/'] + name))
        } else {
            None
        },
        None => None,
    }
}

/// The destination of a file sorted by its extension, if it has one.
pub fn classify_destination(base_dir: &str, file_path: &str) -> (r: Option<String>)
    ensures
        match r {
            Some(d) => classify_dest_spec(base_dir@, file_path@) == Some(d@),
            None => classify_dest_spec(base_dir@, file_path@) is None,
        },
{
    let (_, name_s) = split_path(file_path);
    let name = to_chars(name_s.as_str());
    let n = name.len();
    match find_last_char(&name, '.') {
        Some(i) => {
            proof {
                lemma_rfind_char_props(name@, '.');
            }
            if 0 < i && i + 1 < n {
                let ext = vstd::slice::slice_to_vec(
                    vstd::slice::slice_subrange(name.as_slice(), i + 1, n),
                );
                let mut rel = ext;
                rel.push('/');
                rel.extend_from_slice(name.as_slice());
                proof {
                    assert(rel@ =~= name@.skip(i + 1) + seq!['/'] + name@);
                }
                Some(join_dir(base_dir, from_chars(&rel).as_str()))
            } else {
                None
            }
        }
        None => None,
    }
}

pub open spec fn count_seg(s: Seq<char>, i: int) -> nat
    decreases s.len() - i,
{
    if 0 <= i < s.len() && s[i] != '/' {
        1 + count_seg(s, i + 1)
    } else {
        0
    }
}

/// The '/'-separated segments of a path from position `i` on.
pub open spec fn split_segs(s: Seq<char>, i: int) -> Seq<Seq<char>>
    decreases s.len() - i,
{
    if !(0 <= i <= s.len()) {
        Seq::<Seq<char>>::empty()
    } else {
        let l = count_seg(s, i);
        if i + l >= s.len() {
            seq![s.subrange(i, i + l)]
        } else {
            seq![s.subrange(i, i + l)] + split_segs(s, i + l + 1)
        }
    }
}

/// Fold the segments: drop empty and `.` segments, let `..` cancel the
/// segment before it where one is there to cancel.
pub open spec fn norm_segs(segs: Seq<Seq<char>>, i: int, acc: Seq<Seq<char>>) -> Seq<Seq<char>>
    decreases segs.len() - i,
{
    if !(0 <= i < segs.len()) {
        acc
    } else {
        let sg = segs[i];
        if sg.len() == 0 || sg == seq!['.'] {
            norm_segs(segs, i + 1, acc)
        } else if sg == seq!['.', '.'] {
            if acc.len() > 0 && acc.last() != seq!['.', '.'] {
                norm_segs(segs, i + 1, acc.drop_last())
            } else {
                norm_segs(segs, i + 1, acc.push(sg))
            }
        } else {
            norm_segs(segs, i + 1, acc.push(sg))
        }
    }
}

/// The first `j` segments joined with `/` separators.
pub open spec fn join_prefix(segs: Seq<Seq<char>>, j: int) -> Seq<char>
    decreases j,
{
    if j <= 0 {
        Seq::<char>::empty()
    } else if j == 1 {
        segs[0]
    } else {
        join_prefix(segs, j - 1) + seq!['/'] + segs[j - 1]
    }
}

/// The path with `.` and `..` segments resolved and duplicate separators
/// dropped; a leading `/` is kept.
pub open spec fn normalize_spec(s: Seq<char>) -> Seq<char> {
    let segs = norm_segs(split_segs(s, 0), 0, Seq::<Seq<char>>::empty());
    if s.len() > 0 && s[0] == '/' {
        seq!['/'] + join_prefix(segs, segs.len() as int)
    } else {
        join_prefix(segs, segs.len() as int)
    }
}

fn count_seg_exec(v: &Vec<char>, i: usize) -> (r: usize)
    requires
        i <= v@.len(),
    ensures
        r == count_seg(v@, i as int),
        i + r <= v@.len(),
    decreases v@.len() - i,
{
    if i < v.len() && v[i] != '/' {
        1 + count_seg_exec(v, i + 1)
    } else {
        0
    }
}

#[verifier::loop_isolation(false)]
fn split_segs_exec(v: &Vec<char>, i: usize) -> (r: Vec<Vec<char>>)
    requires
        i <= v@.len(),
    ensures
        r@.map(|k: int, sg: Vec<char>| sg@) == split_segs(v@, i as int),
    decreases v@.len() - i,
{
    let n = v.len();
    let l = count_seg_exec(v, i);
    assert(i + l <= n);
    let seg = vstd::slice::slice_to_vec(vstd::slice::slice_subrange(v.as_slice(), i, i + l));
    let mut out: Vec<Vec<char>> = Vec::new();
    out.push(seg);
    if i + l >= v.len() {
        proof {
            assert(out@.map(|k: int, sg: Vec<char>| sg@) =~= split_segs(v@, i as int));
        }
        out
    } else {
        let rest = split_segs_exec(v, i + l + 1);
        let mut j: usize = 0;
        while j < rest.len()
            invariant
                j <= rest@.len(),
                out@.len() == j + 1,
                out@[0]@ == v@.subrange(i as int, i + count_seg(v@, i as int)),
                forall|k: int| 0 <= k < j ==> #[trigger] out@[k + 1]@ == rest@[k]@,
            decreases rest@.len() - j,
        {
            out.push(rest[j].clone());
            j += 1;
        }
        proof {
            let sm = split_segs(v@, i as int);
            let restm = split_segs(v@, i + count_seg(v@, i as int) + 1);
            assert forall|k: int|
                0 <= k < out@.len() implies out@.map(|k2: int, sg: Vec<char>| sg@)[k] == sm[k] by {
                assert(out@.map(|k2: int, sg: Vec<char>| sg@)[k] == out@[k]@);
                if k > 0 {
                    assert(out@[(k - 1) + 1]@ == rest@[k - 1]@);
                    assert(rest@.map(|k2: int, sg: Vec<char>| sg@)[k - 1] == rest@[k - 1]@);
                }
            }
            assert(out@.map(|k: int, sg: Vec<char>| sg@) =~= sm);
        }
        out
    }
}

/// Resolve `.` and `..` segments in a path and drop duplicate separators.
#[verifier::loop_isolation(false)]
pub fn normalize_path(p: &str) -> (r: String)
    ensures
        r@ == normalize_spec(p@),
{
    let v = to_chars(p);
    let segs = split_segs_exec(&v, 0);
    let mut acc: Vec<Vec<char>> = Vec::new();
    let mut i: usize = 0;
    let ghost segs_spec = segs@.map(|k: int, sg: Vec<char>| sg@);
    proof {
        assert(acc@.map(|k: int, sg: Vec<char>| sg@) =~= Seq::<Seq<char>>::empty());
    }
    while i < segs.len()
        invariant
            i <= segs@.len(),
            segs_spec == segs@.map(|k: int, sg: Vec<char>| sg@),
            segs_spec.len() == segs@.len(),
            norm_segs(segs_spec, 0, Seq::<Seq<char>>::empty()) == norm_segs(
                segs_spec,
                i as int,
                acc@.map(|k: int, sg: Vec<char>| sg@),
            ),
        decreases segs@.len() - i,
    {
        let sg = &segs[i];
        let ghost acc0 = acc@.map(|k: int, sg2: Vec<char>| sg2@);
        proof {
            assert(segs_spec[i as int] == segs@[i as int]@);
        }
        let is_empty_or_dot = sg.len() == 0 || (sg.len() == 1 && sg[0] == '.');
        let is_up = sg.len() == 2 && sg[0] == '.' && sg[1] == '.';
        proof {
            if sg@.len() == 1 && sg@[0] == '.' {
                assert(sg@ =~= seq!['.']);
            }
            if sg@.len() == 2 && sg@[0] == '.' && sg@[1] == '.' {
                assert(sg@ =~= seq!['.', '.']);
            }
            if sg@ == seq!['.'] {
                assert(sg@.len() == 1 && sg@[0] == '.');
            }
            if sg@ == seq!['.', '.'] {
                assert(sg@.len() == 2 && sg@[0] == '.' && sg@[1] == '.');
            }
        }
        if is_empty_or_dot {
        } else if is_up {
            let can_pop = acc.len() > 0 && !(acc[acc.len() - 1].len() == 2 && acc[acc.len()
                - 1][0] == '.' && acc[acc.len() - 1][1] == '.');
            proof {
                if acc@.len() > 0 {
                    assert(acc0.last() == acc@[acc0.len() - 1]@);
                    if acc@[acc@.len() - 1]@.len() == 2 && acc@[acc@.len() - 1]@[0] == '.'
                        && acc@[acc@.len() - 1]@[1] == '.' {
                        assert(acc0.last() =~= seq!['.', '.']);
                    }
                    if acc0.last() == seq!['.', '.'] {
                        assert(acc@[acc@.len() - 1]@.len() == 2 && acc@[acc@.len() - 1]@[0] == '.'
                            && acc@[acc@.len() - 1]@[1] == '.');
                    }
                }
            }
            if can_pop {
                acc.pop();
                proof {
                    assert(acc@.map(|k: int, sg2: Vec<char>| sg2@) =~= acc0.drop_last());
                }
            } else {
                acc.push(sg.clone());
                proof {
                    assert(acc@.map(|k: int, sg2: Vec<char>| sg2@) =~= acc0.push(
                        segs_spec[i as int],
                    ));
                }
            }
        } else {
            acc.push(sg.clone());
            proof {
                assert(acc@.map(|k: int, sg2: Vec<char>| sg2@) =~= acc0.push(segs_spec[i as int]));
            }
        }
        i += 1;
    }
    let mut out: Vec<char> = Vec::new();
    if v.len() > 0 && v[0] == '/' {
        out.push('/');
    }
    let ghost accm = acc@.map(|k: int, sg: Vec<char>| sg@);
    let ghost base = out@;
    let mut j: usize = 0;
    while j < acc.len()
        invariant
            j <= acc@.len(),
            accm == acc@.map(|k: int, sg: Vec<char>| sg@),
            accm.len() == acc@.len(),
            out@ == base + join_prefix(accm, j as int),
        decreases acc@.len() - j,
    {
        let ghost out0 = out@;
        if j > 0 {
            out.push('/');
        }
        let sg = &acc[j];
        out.extend_from_slice(sg.as_slice());
        proof {
            assert(accm[j as int] == acc@[j as int]@);
            if j == 0 {
                assert(out@ =~= base + join_prefix(accm, 1));
            } else {
                assert(out@ =~= base + (join_prefix(accm, j as int) + seq!['/']
                    + accm[j as int]));
            }
        }
        j += 1;
    }
    proof {
        assert(norm_segs(segs_spec, segs_spec.len() as int, accm) == accm);
        assert(out@ =~= normalize_spec(p@));
    }
    from_chars(&out)
}

/// Split a path into its directory prefix and its file name.
pub fn split_path(path: &str) -> (r: (String, String))
    ensures
        r.0@ == dir_prefix_of(path@),
        r.1@ == file_name_of(path@),
{
    let v = to_chars(path);
    let n = v.len();
    match find_last_char(&v, '/') {
        Some(i) => {
            proof {
                lemma_rfind_char_props(v@, '/');
            }
            let d = vstd::slice::slice_to_vec(vstd::slice::slice_subrange(v.as_slice(), 0, i + 1));
            let f = vstd::slice::slice_to_vec(vstd::slice::slice_subrange(v.as_slice(), i + 1, n));
            proof {
                lemma_rfind_char_props(path@, '/');
                assert(d@ =~= dir_prefix_of(path@));
                assert(f@ =~= file_name_of(path@));
            }
            (from_chars(&d), from_chars(&f))
        }
        None => {
            let d: Vec<char> = Vec::new();
            (from_chars(&d), path.to_owned())
        }
    }
}

} // verus!
