use vstd::prelude::*;
use crate::css::{
    parse_url_at, is_external_ref, count_clean, norm_slashes, rewrite_css_spec, starts_with,
    rewrite_image_references, parse_url_at_exec, count_clean_exec, norm_slashes_exec,
};
use crate::html::{rewrite_html_from, scan_refs_from, scan_refs_rec, rewrite_html_rec};
use crate::fs_model::Directory;
use crate::manager::{VersionManager, VersionError, FileInfo, ImageReference, is_not_found};
use crate::paths::{dir_prefix_of, normalize_spec, normalize_path, diff_paths_of, diff_paths_str};
use crate::text::{to_chars, from_chars, contains_seq, contains_chars, concat_str};
use crate::versioner::is_variant;

verus! {

// Driving one document through the pipeline: version its resources, build
// the reference maps, and rewrite the markup last, touching the document
// only when a reference actually changed.

/// The component references a document names, one list per resource kind.
pub struct ResourceLists {
    pub css: Vec<String>,
    pub js: Vec<String>,
}

/// The assembled rewrite maps for one document: original relative path to
/// new fingerprinted relative path, one map per resource kind.
pub struct ReferenceMaps {
    pub css: Vec<(String, String)>,
    pub js: Vec<(String, String)>,
}

pub open spec fn link_tag() -> Seq<char> {
    seq!['<', 'l', 'i', 'n', 'k']
}

pub open spec fn script_tag() -> Seq<char> {
    seq!['<', 's', 'c', 'r', 'i', 'p', 't']
}

pub open spec fn href_attr() -> Seq<char> {
    seq!['h', 'r', 'e', 'f']
}

pub open spec fn src_attr() -> Seq<char> {
    seq!['s', 'r', 'c']
}

pub open spec fn css_ext() -> Seq<char> {
    seq!['.', 'c', 's', 's']
}

pub open spec fn js_ext() -> Seq<char> {
    seq!['.', 'j', 's']
}

pub open spec fn components_seg() -> Seq<char> {
    seq!['c', 'o', 'm', 'p', 'o', 'n', 'e', 'n', 't', 's']
}

/// The path or a fingerprinted variant of it is in the snapshot.
pub open spec fn resource_found(fs: Directory, p: Seq<char>, w: nat) -> bool {
    fs.has(p) || exists|n: Seq<char>, h: Seq<char>| is_variant(n, p, w, h) && fs.has(n)
}

/// The image references of a stylesheet: for each non-external `url()`
/// path, cleaned of query and fragment, whose resolution against the
/// stylesheet's directory is in the snapshot, the triple of the path as
/// written, the resolved path, and the relative path from the directory.
pub open spec fn image_refs_from(fs: Directory, dirp: Seq<char>, s: Seq<char>, i: int) -> Seq<
    (Seq<char>, Seq<char>, Seq<char>),
>
    decreases s.len() - i,
{
    if !(0 <= i < s.len()) {
        Seq::<(Seq<char>, Seq<char>, Seq<char>)>::empty()
    } else {
        match parse_url_at(s, i) {
            Some(tok) => {
                let rest = image_refs_from(fs, dirp, s, tok.0);
                let path = s.subrange(tok.2, tok.2 + tok.3);
                if is_external_ref(path) {
                    rest
                } else {
                    let clean = path.take(count_clean(path, 0) as int);
                    let abs = normalize_spec(dirp + clean);
                    if fs.has(abs) {
                        let rel = match diff_paths_of(abs, dirp) {
                            Some(r) => r,
                            None => clean,
                        };
                        seq![(clean, abs, rel)] + rest
                    } else {
                        rest
                    }
                }
            }
            None => image_refs_from(fs, dirp, s, i + 1),
        }
    }
}

pub open spec fn image_ref_view(ir: ImageReference) -> (Seq<char>, Seq<char>, Seq<char>) {
    (ir.original_path@, ir.absolute_path@, ir.relative_path@)
}

fn image_refs_rec(fs: &Directory, dirp: &str, v: &Vec<char>, i: usize) -> (r: Vec<ImageReference>)
    requires
        fs.wf(),
        i <= v@.len(),
    ensures
        r@.map(|k: int, ir: ImageReference| image_ref_view(ir)) == image_refs_from(
            *fs,
            dirp@,
            v@,
            i as int,
        ),
    decreases v@.len() - i,
{
    if i >= v.len() {
        let out: Vec<ImageReference> = Vec::new();
        proof {
            assert(out@.map(|k: int, ir: ImageReference| image_ref_view(ir)) =~= image_refs_from(
                *fs,
                dirp@,
                v@,
                i as int,
            ));
        }
        return out;
    }
    match parse_url_at_exec(v, i) {
        Some(tok) => {
            let (end, _q1, ps, pl, _q2) = tok;
            let mut rest = image_refs_rec(fs, dirp, v, end);
            let path = vstd::slice::slice_to_vec(
                vstd::slice::slice_subrange(v.as_slice(), ps, ps + pl),
            );
            let n = path.len();
            let external = (n >= 4 && path[0] == 'h' && path[1] == 't' && path[2] == 't' && path[3]
                == 'p') || (n >= 5 && path[0] == 'd' && path[1] == 'a' && path[2] == 't' && path[3]
                == 'a' && path[4] == ':') || (n >= 2 && path[0] == '/' && path[1] == '/');
            proof {
                if external {
                    if path@.len() >= 4 && path@[0] == 'h' && path@[1] == 't' && path@[2] == 't'
                        && path@[3] == 'p' {
                        assert(path@.take(4) =~= seq!['h', 't', 't', 'p']);
                    } else if path@.len() >= 5 && path@[0] == 'd' {
                        assert(path@.take(5) =~= seq!['d', 'a', 't', 'a', ':']);
                    } else {
                        assert(path@.take(2) =~= seq!['/', '/']);
                    }
                } else {
                    if starts_with(path@, seq!['h', 't', 't', 'p']) {
                        assert(path@.take(4)[0] == path@[0]);
                        assert(path@.take(4)[1] == path@[1]);
                        assert(path@.take(4)[2] == path@[2]);
                        assert(path@.take(4)[3] == path@[3]);
                    }
                    if starts_with(path@, seq!['d', 'a', 't', 'a', ':']) {
                        assert(path@.take(5)[0] == path@[0]);
                        assert(path@.take(5)[1] == path@[1]);
                        assert(path@.take(5)[2] == path@[2]);
                        assert(path@.take(5)[3] == path@[3]);
                        assert(path@.take(5)[4] == path@[4]);
                    }
                    if starts_with(path@, seq!['/', '/']) {
                        assert(path@.take(2)[0] == path@[0]);
                        assert(path@.take(2)[1] == path@[1]);
                    }
                }
            }
            if external {
                proof {
                    assert(rest@.map(|k: int, ir: ImageReference| image_ref_view(ir))
                        =~= image_refs_from(*fs, dirp@, v@, i as int));
                }
                return rest;
            }
            let cl = count_clean_exec(&path, 0);
            let clean = vstd::slice::slice_to_vec(
                vstd::slice::slice_subrange(path.as_slice(), 0, cl),
            );
            proof {
                assert(clean@ =~= v@.subrange(ps as int, ps + pl).take(
                    count_clean(v@.subrange(ps as int, ps + pl), 0) as int,
                ));
            }
            let clean_s = from_chars(&clean);
            let joined = concat_str(dirp, clean_s.as_str());
            let abs = normalize_path(joined.as_str());
            if fs.exists_file(abs.as_str()) {
                let rel = match diff_paths_str(abs.as_str(), dirp) {
                    Some(r) => r,
                    None => clean_s.clone(),
                };
                let ir = ImageReference {
                    original_path: clean_s,
                    absolute_path: abs,
                    relative_path: rel,
                };
                let mut out: Vec<ImageReference> = Vec::new();
                out.push(ir);
                out.append(&mut rest);
                proof {
                    assert(out@.map(|k: int, ir2: ImageReference| image_ref_view(ir2))
                        =~= image_refs_from(*fs, dirp@, v@, i as int));
                }
                out
            } else {
                proof {
                    assert(rest@.map(|k: int, ir2: ImageReference| image_ref_view(ir2))
                        =~= image_refs_from(*fs, dirp@, v@, i as int));
                }
                rest
            }
        }
        None => {
            let rest = image_refs_rec(fs, dirp, v, i + 1);
            proof {
                assert(rest@.map(|k: int, ir: ImageReference| image_ref_view(ir))
                    =~= image_refs_from(*fs, dirp@, v@, i as int));
            }
            rest
        }
    }
}

/// Which references of a document's scan survive the component filters:
/// local, inside a components directory, admitted by the include list, and
/// present in the snapshot under the document's directory.
pub open spec fn keep_component(
    vm: VersionManager,
    fs: Directory,
    dirp: Seq<char>,
    v: Seq<char>,
) -> bool {
    &&& !starts_with(v, seq!['h', 't', 't', 'p'])
    &&& !starts_with(v, seq!['/', '/'])
    &&& contains_seq(v, components_seg())
    &&& vm.should_process_spec(v)
    &&& resource_found(fs, normalize_spec(dirp + v), vm.width())
}

pub open spec fn filter_components(
    vm: VersionManager,
    fs: Directory,
    dirp: Seq<char>,
    refs: Seq<Seq<char>>,
    i: int,
) -> Seq<Seq<char>>
    decreases refs.len() - i,
{
    if !(0 <= i < refs.len()) {
        Seq::<Seq<char>>::empty()
    } else if keep_component(vm, fs, dirp, refs[i]) {
        seq![refs[i]] + filter_components(vm, fs, dirp, refs, i + 1)
    } else {
        filter_components(vm, fs, dirp, refs, i + 1)
    }
}

impl VersionManager {
    fn filter_components_rec(&self, fs: &Directory, dirp: &str, refs: &Vec<String>, i: usize) -> (r:
        Vec<String>)
        requires
            fs.wf(),
            i <= refs@.len(),
        ensures
            r@.map(|k: int, s: String| s@) == filter_components(
                *self,
                *fs,
                dirp@,
                refs@.map(|k: int, s: String| s@),
                i as int,
            ),
        decreases refs@.len() - i,
    {
        let ghost refsm = refs@.map(|k: int, s: String| s@);
        if i >= refs.len() {
            let out: Vec<String> = Vec::new();
            proof {
                assert(out@.map(|k: int, s: String| s@) =~= filter_components(
                    *self,
                    *fs,
                    dirp@,
                    refsm,
                    i as int,
                ));
            }
            return out;
        }
        let mut rest = self.filter_components_rec(fs, dirp, refs, i + 1);
        let vref = &refs[i];
        let v = to_chars(vref.as_str());
        proof {
            assert(refsm[i as int] == refs@[i as int]@);
        }
        let n = v.len();
        let external = (n >= 4 && v[0] == 'h' && v[1] == 't' && v[2] == 't' && v[3] == 'p') || (n
            >= 2 && v[0] == '/' && v[1] == '/');
        proof {
            if external {
                if v@.len() >= 4 && v@[0] == 'h' && v@[1] == 't' && v@[2] == 't' && v@[3] == 'p' {
                    assert(v@.take(4) =~= seq!['h', 't', 't', 'p']);
                } else {
                    assert(v@.take(2) =~= seq!['/', '/']);
                }
            } else {
                if starts_with(v@, seq!['h', 't', 't', 'p']) {
                    assert(v@.take(4)[0] == v@[0]);
                    assert(v@.take(4)[1] == v@[1]);
                    assert(v@.take(4)[2] == v@[2]);
                    assert(v@.take(4)[3] == v@[3]);
                }
                if starts_with(v@, seq!['/', '/']) {
                    assert(v@.take(2)[0] == v@[0]);
                    assert(v@.take(2)[1] == v@[1]);
                }
            }
        }
        let mut keep = false;
        if !external {
            let mut comp: Vec<char> = Vec::new();
            comp.push('c');
            comp.push('o');
            comp.push('m');
            comp.push('p');
            comp.push('o');
            comp.push('n');
            comp.push('e');
            comp.push('n');
            comp.push('t');
            comp.push('s');
            proof {
                assert(comp@ =~= components_seg());
            }
            if contains_chars(&v, &comp) && self.should_process_component(vref.as_str()) {
                let joined = concat_str(dirp, vref.as_str());
                let abs = normalize_path(joined.as_str());
                let found = self.find_file(fs, abs.as_str());
                proof {
                    match found {
                        Some(ref p) => {
                            if p@ == abs@ {
                                assert(resource_found(*fs, abs@, self.width()));
                            } else {
                                let h = choose|h: Seq<char>|
                                    is_variant(p@, abs@, self.width(), h);
                                assert(is_variant(p@, abs@, self.width(), h) && fs.has(p@));
                                assert(resource_found(*fs, abs@, self.width()));
                            }
                        }
                        None => {
                            assert(!resource_found(*fs, abs@, self.width()));
                        }
                    }
                }
                keep = found.is_some();
            }
        }
        proof {
            assert(keep == keep_component(*self, *fs, dirp@, refsm[i as int]));
        }
        if keep {
            let mut out: Vec<String> = Vec::new();
            out.push(vref.clone());
            out.append(&mut rest);
            proof {
                assert(out@.map(|k: int, s: String| s@) =~= filter_components(
                    *self,
                    *fs,
                    dirp@,
                    refsm,
                    i as int,
                ));
            }
            out
        } else {
            proof {
                assert(rest@.map(|k: int, s: String| s@) =~= filter_components(
                    *self,
                    *fs,
                    dirp@,
                    refsm,
                    i as int,
                ));
            }
            rest
        }
    }

    /// Collect the image references of a stylesheet in the snapshot.
    pub fn collect_images_from_css(&self, fs: &Directory, css_path: &str) -> (r: Result<
        Vec<ImageReference>,
        VersionError,
    >)
        requires
            fs.wf(),
        ensures
            r is Ok <==> fs.has(css_path@),
            r matches Err(e) ==> is_not_found(e, css_path@),
            r matches Ok(images) ==> images@.map(|k: int, ir: ImageReference| image_ref_view(ir))
                == image_refs_from(*fs, dir_prefix_of(css_path@), fs.file(css_path@)->0, 0),
    {
        let content = match fs.read(css_path) {
            Some(c) => c.clone(),
            None => {
                return Err(VersionError::NotFound { path: css_path.to_owned() });
            }
        };
        let (dirp, _) = crate::paths::split_path(css_path);
        let v = to_chars(content.as_str());
        Ok(image_refs_rec(fs, dirp.as_str(), &v, 0))
    }

    /// Rewrite the mapped image references inside a stylesheet file and
    /// persist it only when an occurrence actually changed.
    pub fn update_css_image_references(
        &self,
        fs: &mut Directory,
        css_path: &str,
        image_map: &Vec<(String, String)>,
    ) -> (r: Result<(), VersionError>)
        requires
            old(fs).wf(),
        ensures
            final(fs).wf(),
            r is Ok <==> old(fs).has(css_path@),
            r matches Err(e) ==> is_not_found(e, css_path@) && *final(fs) == *old(fs),
            r is Ok ==> {
                let rw = rewrite_css_spec(old(fs).file(css_path@)->0, image_map@);
                if rw.1 {
                    &&& forall|n: Seq<char>|
                        #[trigger] final(fs).file(n) == if n == css_path@ {
                            Some(rw.0)
                        } else {
                            old(fs).file(n)
                        }
                    &&& final(fs).log@.len() == old(fs).log@.len() + 1
                    &&& final(fs).log@.take(old(fs).log@.len() as int) == old(fs).log@
                    &&& crate::fs_model::is_write_op(final(fs).log@.last(), css_path@, rw.0)
                } else {
                    *final(fs) == *old(fs)
                }
            },
    {
        let content = match fs.read(css_path) {
            Some(c) => c.clone(),
            None => {
                return Err(VersionError::NotFound { path: css_path.to_owned() });
            }
        };
        let (new_text, changed) = rewrite_image_references(content.as_str(), image_map);
        if changed {
            fs.write_file(css_path, new_text.as_str());
        }
        Ok(())
    }

    /// Collect the component stylesheet and script references a document
    /// names, filtered by the include list and by presence in the snapshot.
    pub fn collect_resources_from_html(&self, fs: &Directory, html_path: &str) -> (r: Result<
        ResourceLists,
        VersionError,
    >)
        requires
            fs.wf(),
        ensures
            r is Ok <==> fs.has(html_path@),
            r matches Err(e) ==> is_not_found(e, html_path@),
            r matches Ok(lists) ==> {
                let doc = fs.file(html_path@)->0;
                let dirp = dir_prefix_of(html_path@);
                &&& lists.css@.map(|k: int, s: String| s@) == filter_components(
                    *self,
                    *fs,
                    dirp,
                    scan_refs_from(doc, link_tag(), href_attr(), css_ext(), 0),
                    0,
                )
                &&& lists.js@.map(|k: int, s: String| s@) == filter_components(
                    *self,
                    *fs,
                    dirp,
                    scan_refs_from(doc, script_tag(), src_attr(), js_ext(), 0),
                    0,
                )
            },
    {
        let content = match fs.read(html_path) {
            Some(c) => c.clone(),
            None => {
                return Err(VersionError::NotFound { path: html_path.to_owned() });
            }
        };
        let (dirp, _) = crate::paths::split_path(html_path);
        let v = to_chars(content.as_str());
        let mut ltag: Vec<char> = Vec::new();
        ltag.push('<');
        ltag.push('l');
        ltag.push('i');
        ltag.push('n');
        ltag.push('k');
        let mut href: Vec<char> = Vec::new();
        href.push('h');
        href.push('r');
        href.push('e');
        href.push('f');
        let mut cext: Vec<char> = Vec::new();
        cext.push('.');
        cext.push('c');
        cext.push('s');
        cext.push('s');
        let mut stag: Vec<char> = Vec::new();
        stag.push('<');
        stag.push('s');
        stag.push('c');
        stag.push('r');
        stag.push('i');
        stag.push('p');
        stag.push('t');
        let mut srca: Vec<char> = Vec::new();
        srca.push('s');
        srca.push('r');
        srca.push('c');
        let mut jext: Vec<char> = Vec::new();
        jext.push('.');
        jext.push('j');
        jext.push('s');
        proof {
            assert(ltag@ =~= link_tag());
            assert(href@ =~= href_attr());
            assert(cext@ =~= css_ext());
            assert(stag@ =~= script_tag());
            assert(srca@ =~= src_attr());
            assert(jext@ =~= js_ext());
        }
        let css_raw = scan_refs_rec(&v, &ltag, &href, &cext, 0);
        let js_raw = scan_refs_rec(&v, &stag, &srca, &jext, 0);
        let css = self.filter_components_rec(fs, dirp.as_str(), &css_raw, 0);
        let js = self.filter_components_rec(fs, dirp.as_str(), &js_raw, 0);
        Ok(ResourceLists { css, js })
    }
}

/// The document text after both rewrite passes, and whether anything
/// changed: stylesheet references first, script references second.
pub open spec fn html_update_spec(
    doc: Seq<char>,
    cssm: Seq<(String, String)>,
    jsm: Seq<(String, String)>,
    cdn: Seq<char>,
) -> (Seq<char>, bool) {
    let a = rewrite_html_from(doc, link_tag(), href_attr(), cssm, cdn, 0);
    let b = rewrite_html_from(a.0, script_tag(), src_attr(), jsm, cdn, 0);
    (b.0, a.1 || b.1)
}

/// Everything one pipeline pass over one document guarantees about
/// the states before and after it: the snapshot stays well formed and
/// its log only grows; configuration and the registry's marks are
/// kept; the pass succeeds exactly when the document is in the
/// snapshot before and after; an absent document changes nothing at
/// all; every fingerprint-free file other than the document itself is
/// untouched; and a document whose own name is fingerprint-free ends
/// as a two-pass reference rewrite of its starting content.
pub open spec fn doc_step(
    vm0: VersionManager,
    vm1: VersionManager,
    fs0: Directory,
    fs1: Directory,
    doc: Seq<char>,
    ok: bool,
) -> bool {
    let w = vm0.width();
    &&& fs1.wf()
    &&& fs0.log@.is_prefix_of(fs1.log@)
    &&& vm1.config == vm0.config
    &&& vm1.debug_mode == vm0.debug_mode
    &&& (forall|p: Seq<char>|
        #[trigger] vm0.processed_files.has_path(p) ==> vm1.processed_files.has_path(p))
    &&& (ok <==> (fs0.has(doc) && fs1.has(doc)))
    &&& (!fs0.has(doc) ==> fs1 == fs0 && vm1 == vm0)
    &&& (forall|n: Seq<char>|
        crate::versioner::fp_free(n, w) && n != doc ==> #[trigger] fs1.file(n) == fs0.file(n))
    &&& (ok && crate::versioner::fp_free(doc, w) ==> exists|
        cssm: Seq<(String, String)>,
        jsm: Seq<(String, String)>,
    |
        fs1.file(doc) == Some(
            html_update_spec(fs0.file(doc)->0, cssm, jsm, vm0.config.cdn_domain@).0,
        ))
}

/// The batch visits every listed document once, in order, each resolved
/// against the root directory and carried through one full document pass:
/// a chain of intermediate states, one per document, links the starting
/// state to the final one, and every link satisfies `doc_step`.
pub open spec fn batch_steps(
    vm0: VersionManager,
    vm1: VersionManager,
    fs0: Directory,
    fs1: Directory,
    html_paths: Seq<String>,
) -> bool {
    exists|fss: Seq<Directory>, vms: Seq<VersionManager>, oks: Seq<bool>|
        {
            &&& fss.len() == html_paths.len() + 1
            &&& vms.len() == html_paths.len() + 1
            &&& oks.len() == html_paths.len()
            &&& fss[0] == fs0
            &&& vms[0] == vm0
            &&& fss[html_paths.len() as int] == fs1
            &&& vms[html_paths.len() as int] == vm1
            &&& forall|i: int|
                0 <= i < html_paths.len() ==> doc_step(
                    #[trigger] vms[i],
                    vms[i + 1],
                    fss[i],
                    fss[i + 1],
                    normalize_spec(
                        crate::paths::join_spec(vm0.config.root_dir@, html_paths[i]@),
                    ),
                    oks[i],
                )
        }
}

impl VersionManager {
    /// Rewrite the mapped references in a document and persist it only if
    /// at least one reference changed; an unchanged document is never
    /// written.
    pub fn update_html_references(
        &self,
        fs: &mut Directory,
        html_path: &str,
        resources: &ReferenceMaps,
    ) -> (r: Result<(), VersionError>)
        requires
            old(fs).wf(),
        ensures
            final(fs).wf(),
            r is Ok <==> old(fs).has(html_path@),
            r matches Err(e) ==> is_not_found(e, html_path@) && *final(fs) == *old(fs),
            r is Ok ==> {
                let up = html_update_spec(
                    old(fs).file(html_path@)->0,
                    resources.css@,
                    resources.js@,
                    self.config.cdn_domain@,
                );
                if up.1 {
                    &&& forall|n: Seq<char>|
                        #[trigger] final(fs).file(n) == if n == html_path@ {
                            Some(up.0)
                        } else {
                            old(fs).file(n)
                        }
                    &&& final(fs).log@.len() == old(fs).log@.len() + 1
                    &&& final(fs).log@.take(old(fs).log@.len() as int) == old(fs).log@
                    &&& crate::fs_model::is_write_op(final(fs).log@.last(), html_path@, up.0)
                } else {
                    *final(fs) == *old(fs)
                }
            },
    {
        let content = match fs.read(html_path) {
            Some(c) => c.clone(),
            None => {
                return Err(VersionError::NotFound { path: html_path.to_owned() });
            }
        };
        let v = to_chars(content.as_str());
        let mut ltag: Vec<char> = Vec::new();
        ltag.push('<');
        ltag.push('l');
        ltag.push('i');
        ltag.push('n');
        ltag.push('k');
        let mut href: Vec<char> = Vec::new();
        href.push('h');
        href.push('r');
        href.push('e');
        href.push('f');
        let mut stag: Vec<char> = Vec::new();
        stag.push('<');
        stag.push('s');
        stag.push('c');
        stag.push('r');
        stag.push('i');
        stag.push('p');
        stag.push('t');
        let mut srca: Vec<char> = Vec::new();
        srca.push('s');
        srca.push('r');
        srca.push('c');
        proof {
            assert(ltag@ =~= link_tag());
            assert(href@ =~= href_attr());
            assert(stag@ =~= script_tag());
            assert(srca@ =~= src_attr());
        }
        let cdn = to_chars(self.config.cdn_domain.as_str());
        let (t1, c1) = rewrite_html_rec(&v, &ltag, &href, &resources.css, &cdn, 0);
        let (t2, c2) = rewrite_html_rec(&t1, &stag, &srca, &resources.js, &cdn, 0);
        if c1 || c2 {
            let out = from_chars(&t2);
            fs.write_file(html_path, out.as_str());
        }
        Ok(())
    }
}

/// Normalized relative form of a path with respect to a base directory:
/// the computed relative path where one exists, the path itself where not,
/// with separators normalized to forward slashes.
pub open spec fn rel_norm_spec(path: Seq<char>, base: Seq<char>) -> Seq<char> {
    norm_slashes(
        match diff_paths_of(path, base) {
            Some(r) => r,
            None => path,
        },
    )
}

fn rel_norm(path: &str, base: &str) -> (r: String)
    ensures
        r@ == rel_norm_spec(path@, base@),
{
    let rel = match diff_paths_str(path, base) {
        Some(r) => r,
        None => path.to_owned(),
    };
    let v = to_chars(rel.as_str());
    let n = norm_slashes_exec(&v);
    from_chars(&n)
}

/// The path without one leading `./`.
fn strip_dotslash(s: &str) -> (r: String)
    ensures
        r@ == if s@.len() >= 2 && s@[0] == '.' && s@[1] == '/' {
            s@.skip(2)
        } else {
            s@
        },
{
    let v = to_chars(s);
    if v.len() >= 2 && v[0] == '.' && v[1] == '/' {
        let t = vstd::slice::slice_to_vec(vstd::slice::slice_subrange(v.as_slice(), 2, v.len()));
        proof {
            assert(t@ =~= s@.skip(2));
        }
        from_chars(&t)
    } else {
        s.to_owned()
    }
}

fn map_contains_key(m: &Vec<(String, String)>, key: &str) -> (r: bool)
    ensures
        r == exists|k: int| 0 <= k < m@.len() && (#[trigger] m@[k].0)@ == key@,
{
    let mut i: usize = 0;
    while i < m.len()
        invariant
            i <= m@.len(),
            forall|k: int| 0 <= k < i ==> (#[trigger] m@[k].0)@ != key@,
        decreases m@.len() - i,
    {
        if crate::text::str_eq(m[i].0.as_str(), key) {
            return true;
        }
        i += 1;
    }
    false
}

/// Does the path name a stylesheet, by its extension, ignoring case?
fn ends_css_insensitive(s: &str) -> (r: bool)
    ensures
        r == (s@.len() >= 4 && s@[s@.len() - 4] == '.' && (s@[s@.len() - 3] == 'c' || s@[s@.len()
            - 3] == 'C') && (s@[s@.len() - 2] == 's' || s@[s@.len() - 2] == 'S') && (s@[s@.len()
            - 1] == 's' || s@[s@.len() - 1] == 'S')),
{
    let v = to_chars(s);
    let n = v.len();
    n >= 4 && v[n - 4] == '.' && (v[n - 3] == 'c' || v[n - 3] == 'C') && (v[n - 2] == 's' || v[n
        - 2] == 'S') && (v[n - 1] == 's' || v[n - 1] == 'S')
}

impl VersionManager {
    /// Version one component resource named by a document: resolve it in
    /// the document's directory, and version it at most once per run — a
    /// path already marked in the registry is answered from the
    /// fingerprinted copy on disk, with no hashing and no disk work.
    pub fn process_component_resource(
        &mut self,
        fs: &mut Directory,
        html_dir: &str,
        relative_path: &str,
    ) -> (r: Result<FileInfo, VersionError>)
        requires
            old(fs).wf(),
        ensures
            final(fs).wf(),
            old(fs).log@.is_prefix_of(final(fs).log@),
            final(self).config == old(self).config,
            final(self).debug_mode == old(self).debug_mode,
            forall|p: Seq<char>|
                old(self).processed_files.has_path(p) ==> final(self).processed_files.has_path(p),
            !resource_found(
                *old(fs),
                normalize_spec(crate::paths::join_spec(html_dir@, relative_path@)),
                old(self).width(),
            ) ==> (r is Err && *final(fs) == *old(fs) && final(self).processed_files == old(
                self,
            ).processed_files && final(self).hash_log@ == old(self).hash_log@),
            old(fs).has(normalize_spec(crate::paths::join_spec(html_dir@, relative_path@))) && old(
                self,
            ).processed_files.has_path(
                normalize_spec(crate::paths::join_spec(html_dir@, relative_path@)),
            ) ==> (*final(fs) == *old(fs) && final(self).hash_log@ == old(self).hash_log@ && (
            r matches Ok(info) ==> info.original_path@ == normalize_spec(
                crate::paths::join_spec(html_dir@, relative_path@),
            ))),
            r matches Ok(info) ==> info.renamed == true,
            // resolving a clean-named resource always marks it, so a later
            // call for the same path does no versioning work again
            old(fs).has(normalize_spec(crate::paths::join_spec(html_dir@, relative_path@)))
                ==> final(self).processed_files.has_path(
                normalize_spec(crate::paths::join_spec(html_dir@, relative_path@)),
            ),
            // fingerprint-free names are untouched
            forall|n: Seq<char>|
                crate::versioner::fp_free(n, old(self).width()) ==> #[trigger] final(fs).file(n)
                    == old(fs).file(n),
            // a marked clean-named resource is answered from a
            // fingerprinted sibling on disk: success exactly when one
            // exists, and the record names that sibling and its fingerprint
            ({
                let abs = normalize_spec(crate::paths::join_spec(html_dir@, relative_path@));
                let w = old(self).width();
                old(fs).has(abs) && old(self).processed_files.has_path(abs) ==> {
                    &&& (r is Ok <==> exists|n: Seq<char>, h: Seq<char>|
                        crate::versioner::is_sibling(n, abs, w, h) && old(fs).has(n))
                    &&& (r matches Ok(info) ==> old(fs).has(info.hashed_path@)
                        && crate::versioner::is_sibling(info.hashed_path@, abs, w, info.hash@))
                }
            }),
            // a fresh stylesheet goes through the two-phase stylesheet step
            ({
                let abs = normalize_spec(crate::paths::join_spec(html_dir@, relative_path@));
                let w = old(self).width();
                let hl = old(self).config.hash_length as nat;
                old(fs).has(abs) && !old(self).processed_files.has_path(abs) && (abs.len() >= 4
                    && abs[abs.len() - 4] == '.' && (abs[abs.len() - 3] == 'c' || abs[abs.len()
                    - 3] == 'C') && (abs[abs.len() - 2] == 's' || abs[abs.len() - 2] == 'S') && (
                abs[abs.len() - 1] == 's' || abs[abs.len() - 1] == 'S')) ==> {
                    &&& r is Ok
                    &&& (r matches Ok(info) ==> {
                        &&& info.original_path@ == crate::versioner::source_of(*old(fs), abs, w)
                        &&& final(fs).has(info.hashed_path@)
                        &&& crate::hashing::fingerprint_of(
                            final(fs).file(info.hashed_path@)->0,
                            hl,
                        ) == info.hash@
                        &&& info.hash@.len() == w
                        &&& crate::codec::is_hex_run(info.hash@)
                        &&& (exists|m: Seq<(String, String)>|
                            final(fs).file(info.hashed_path@) == Some(
                                rewrite_css_spec(
                                    old(fs).file(crate::versioner::source_of(*old(fs), abs, w))->0,
                                    m,
                                ).0,
                            ))
                        &&& forall|n: Seq<char>, h: Seq<char>|
                            crate::versioner::is_sibling(n, abs, w, h) && h != info.hash@
                                ==> !final(fs).has(n)
                    })
                }
            }),
            // a fresh, clean-named resource that is not a stylesheet goes
            // through one full versioning step
            ({
                let abs = normalize_spec(crate::paths::join_spec(html_dir@, relative_path@));
                old(fs).has(abs) && !old(self).processed_files.has_path(abs) && !(abs.len() >= 4
                    && abs[abs.len() - 4] == '.' && (abs[abs.len() - 3] == 'c' || abs[abs.len()
                    - 3] == 'C') && (abs[abs.len() - 2] == 's' || abs[abs.len() - 2] == 'S') && (
                abs[abs.len() - 1] == 's' || abs[abs.len() - 1] == 'S')) ==> {
                    &&& (r is Ok <==> crate::versioner::version_ok(
                        *old(fs),
                        abs,
                        old(self).width(),
                    ))
                    &&& (r matches Ok(info) ==> {
                        let hl = old(self).config.hash_length as nat;
                        &&& info.original_path@ == crate::versioner::source_of(
                            *old(fs),
                            abs,
                            old(self).width(),
                        )
                        &&& info.hash@ == crate::versioner::fp_of(*old(fs), abs, hl)
                        &&& info.hashed_path@ == crate::versioner::target_of(*old(fs), abs, hl)
                        &&& crate::versioner::version_post(*old(fs), *final(fs), abs, hl)
                    })
                }
            }),
    {
        let joined = crate::paths::join_dir(html_dir, relative_path);
        let abs = normalize_path(joined.as_str());
        let actual: String = match self.find_file(fs, abs.as_str()) {
            Some(p) => p,
            None => {
                proof {
                    assert(!resource_found(*fs, abs@, self.width()));
                }
                return Err(VersionError::NotFound { path: abs });
            }
        };
        proof {
            if fs.has(abs@) {
                assert(actual@ == abs@);
            }
        }
        let already = self.processed_files.check_and_mark(actual.as_str());
        if already {
            match self.find_hashed_sibling(fs, actual.as_str()) {
                Some((p, h)) => Ok(
                    FileInfo {
                        original_path: actual,
                        hashed_path: p,
                        hash: h,
                        renamed: true,
                    },
                ),
                None => Err(VersionError::NotFound { path: actual }),
            }
        } else {
            if ends_css_insensitive(actual.as_str()) {
                self.process_component_css(fs, actual.as_str())
            } else {
                self.rename_file_with_hash(fs, actual.as_str())
            }
        }
    }

    /// Version one stylesheet in two phases: place a copy beside its
    /// source under the source's current fingerprint, rewrite its image
    /// references inside the copy, and when the rewrite changed its bytes,
    /// re-fingerprint and rename the copy so its name always reflects its
    /// final content; then delete stale siblings.  Success is owed exactly
    /// when the resolved source is in the snapshot.  The source itself and
    /// every other fingerprint-free file are untouched, the copy's content
    /// is an image-map rewrite of the source's content, and no sibling
    /// with another fingerprint survives.
    pub fn process_component_css(&mut self, fs: &mut Directory, css_path: &str) -> (r: Result<
        FileInfo,
        VersionError,
    >)
        requires
            old(fs).wf(),
        ensures
            final(fs).wf(),
            old(fs).log@.is_prefix_of(final(fs).log@),
            final(self).config == old(self).config,
            final(self).debug_mode == old(self).debug_mode,
            forall|p: Seq<char>|
                old(self).processed_files.has_path(p) ==> final(self).processed_files.has_path(p),
            r is Ok <==> old(fs).has(
                crate::versioner::source_of(*old(fs), css_path@, old(self).width()),
            ),
            r matches Err(e) ==> is_not_found(
                e,
                crate::versioner::source_of(*old(fs), css_path@, old(self).width()),
            ) && *final(fs) == *old(fs),
            forall|n: Seq<char>|
                crate::versioner::fp_free(n, old(self).width()) ==> #[trigger] final(fs).file(n)
                    == old(fs).file(n),
            r is Ok && old(fs).has(crate::versioner::clean_path_of(css_path@, old(self).width()))
                && crate::codec::strip_spec(
                crate::versioner::clean_name_of(css_path@, old(self).width()),
                old(self).width(),
            ) == crate::versioner::clean_name_of(css_path@, old(self).width()) ==> final(fs).file(
                crate::versioner::clean_path_of(css_path@, old(self).width()),
            ) == old(fs).file(crate::versioner::clean_path_of(css_path@, old(self).width())),
            r matches Ok(info) ==> {
                &&& info.original_path@ == crate::versioner::source_of(
                    *old(fs),
                    css_path@,
                    old(self).width(),
                )
                &&& final(fs).has(info.hashed_path@)
                &&& crate::hashing::fingerprint_of(
                    final(fs).file(info.hashed_path@)->0,
                    old(self).config.hash_length as nat,
                ) == info.hash@
                &&& info.hash@.len() == old(self).width()
                &&& crate::codec::is_hex_run(info.hash@)
                &&& info.renamed == true
                &&& (exists|m: Seq<(String, String)>|
                    final(fs).file(info.hashed_path@) == Some(
                        rewrite_css_spec(
                            old(fs).file(
                                crate::versioner::source_of(
                                    *old(fs),
                                    css_path@,
                                    old(self).width(),
                                ),
                            )->0,
                            m,
                        ).0,
                    ))
                &&& forall|n: Seq<char>, h: Seq<char>|
                    crate::versioner::is_sibling(n, css_path@, old(self).width(), h) && h
                        != info.hash@ ==> !final(fs).has(n)
            },
    {
        let ghost hl = self.config.hash_length as nat;
        let w = crate::hashing::eff_width_exec(self.config.hash_length);
        let (dirp, fname) = crate::paths::split_path(css_path);
        let clean = self.remove_hash_from_filename(fname.as_str());
        let clean_full = concat_str(dirp.as_str(), clean.as_str());
        let orig: String = if fs.exists_file(clean_full.as_str()) {
            clean_full
        } else {
            css_path.to_owned()
        };
        proof {
            assert(orig@ == crate::versioner::source_of(*old(fs), css_path@, w as nat));
        }
        let orig_content = match fs.read(orig.as_str()) {
            Some(c) => c.clone(),
            None => {
                return Err(VersionError::NotFound { path: orig });
            }
        };
        let images = match self.collect_images_from_css(fs, orig.as_str()) {
            Ok(im) => im,
            Err(e) => {
                proof {
                    assert(false);
                }
                return Err(e);
            }
        };
        let mut image_map: Vec<(String, String)> = Vec::new();
        let mut i: usize = 0;
        while i < images.len()
            invariant
                fs.wf(),
                old(fs).log@.is_prefix_of(fs.log@),
                self.config == old(self).config,
                self.debug_mode == old(self).debug_mode,
                w as nat == old(self).width(),
                forall|p: Seq<char>|
                    old(self).processed_files.has_path(p) ==> self.processed_files.has_path(p),
                forall|n: Seq<char>|
                    crate::versioner::fp_free(n, w as nat) ==> #[trigger] fs.file(n) == old(
                        fs,
                    ).file(n),
            decreases images@.len() - i,
        {
            let ghost fs_a = *fs;
            let img = &images[i];
            let kv = to_chars(img.original_path.as_str());
            let kn = norm_slashes_exec(&kv);
            let key = from_chars(&kn);
            let already = self.processed_files.check_and_mark(img.absolute_path.as_str());
            if already {
                match self.find_hashed_sibling(fs, img.absolute_path.as_str()) {
                    Some((p, _h)) => {
                        let (_, f) = crate::paths::split_path(p.as_str());
                        image_map.push((key, f));
                    }
                    None => {}
                }
            } else {
                match self.rename_file_with_hash(fs, img.absolute_path.as_str()) {
                    Ok(info) => {
                        let (_, f) = crate::paths::split_path(info.hashed_path.as_str());
                        image_map.push((key, f));
                    }
                    Err(_) => {}
                }
            }
            proof {
                crate::fs_model::lemma_prefix_trans(old(fs).log@, fs_a.log@, fs.log@);
                assert forall|n: Seq<char>|
                    crate::versioner::fp_free(n, w as nat) implies #[trigger] fs.file(n) == old(
                    fs,
                ).file(n) by {
                    assert(fs_a.file(n) == old(fs).file(n));
                    assert(fs.file(n) == fs_a.file(n));
                }
            }
            i += 1;
        }
        let orig_hash = crate::hashing::content_fingerprint(
            orig_content.as_str(),
            self.config.hash_length,
        );
        self.hash_log.push(orig.clone());
        let hashed_name = self.add_hash_to_filename(clean.as_str(), orig_hash.as_str());
        let hashed_path = concat_str(dirp.as_str(), hashed_name.as_str());
        let ghost bn = crate::versioner::base_name_of(css_path@, w as nat);
        proof {
            assert(hashed_path@ == dirp@ + crate::codec::insert_raw_spec(bn, orig_hash@));
            crate::versioner::lemma_sibling_not_fp_free(
                css_path@,
                w as nat,
                orig_hash@,
                hashed_path@,
            );
        }
        let ghost fs_b = *fs;
        fs.write_file(hashed_path.as_str(), orig_content.as_str());
        proof {
            assert(fs.log@.take(fs_b.log@.len() as int) == fs_b.log@);
            crate::fs_model::lemma_prefix_trans(old(fs).log@, fs_b.log@, fs.log@);
            assert forall|n: Seq<char>|
                crate::versioner::fp_free(n, w as nat) implies #[trigger] fs.file(n) == old(
                fs,
            ).file(n) by {
                assert(fs_b.file(n) == old(fs).file(n));
            }
        }
        let mut final_path = hashed_path.clone();
        let mut final_hash = orig_hash.clone();
        let ghost rw0 = rewrite_css_spec(orig_content@, image_map@).0;
        if image_map.len() > 0 {
            let ghost fs_c = *fs;
            match self.update_css_image_references(fs, hashed_path.as_str(), &image_map) {
                Ok(u) => u,
                Err(e) => {
                    proof {
                        assert(false);
                    }
                    return Err(e);
                }
            };
            proof {
                let rw = rewrite_css_spec(fs_c.file(hashed_path@)->0, image_map@);
                assert(fs_c.file(hashed_path@) == Some(orig_content@));
                if rw.1 {
                    assert(fs.log@.take(fs_c.log@.len() as int) == fs_c.log@);
                } else {
                    crate::css::lemma_css_rewrite_no_change(orig_content@, image_map@);
                }
                crate::fs_model::lemma_prefix_trans(old(fs).log@, fs_c.log@, fs.log@);
                assert(fs.file(hashed_path@) == Some(rw0));
                assert forall|n: Seq<char>|
                    crate::versioner::fp_free(n, w as nat) implies #[trigger] fs.file(n) == old(
                    fs,
                ).file(n) by {
                    assert(fs_c.file(n) == old(fs).file(n));
                }
            }
            let new_hash = match self.calculate_file_hash(fs, hashed_path.as_str()) {
                Ok(h) => h,
                Err(e) => {
                    proof {
                        assert(false);
                    }
                    return Err(e);
                }
            };
            if !crate::text::str_eq(new_hash.as_str(), orig_hash.as_str()) {
                let fname2 = self.add_hash_to_filename(clean.as_str(), new_hash.as_str());
                let fpath2 = concat_str(dirp.as_str(), fname2.as_str());
                proof {
                    assert(fpath2@ == dirp@ + crate::codec::insert_raw_spec(bn, new_hash@));
                    crate::versioner::lemma_sibling_not_fp_free(
                        css_path@,
                        w as nat,
                        new_hash@,
                        fpath2@,
                    );
                }
                if !crate::text::str_eq(fpath2.as_str(), hashed_path.as_str()) {
                    let ghost fs_d = *fs;
                    fs.rename_file(hashed_path.as_str(), fpath2.as_str());
                    proof {
                        assert(fs.log@.take(fs_d.log@.len() as int) == fs_d.log@);
                        crate::fs_model::lemma_prefix_trans(old(fs).log@, fs_d.log@, fs.log@);
                        assert(fs.file(fpath2@) == Some(rw0));
                        assert forall|n: Seq<char>|
                            crate::versioner::fp_free(n, w as nat) implies #[trigger] fs.file(n)
                            == old(fs).file(n) by {
                            assert(fs_d.file(n) == old(fs).file(n));
                        }
                    }
                }
                final_path = fpath2;
                final_hash = new_hash;
            }
        }
        proof {
            if image_map@.len() == 0 {
                crate::css::lemma_css_empty_map_unchanged(orig_content@, image_map@, 0);
                crate::css::lemma_css_rewrite_no_change(orig_content@, image_map@);
            }
            assert(fs.file(final_path@) == Some(rw0));
            assert(crate::hashing::fingerprint_of(fs.file(final_path@)->0, hl) == final_hash@);
            assert(final_path@ == dirp@ + crate::codec::insert_raw_spec(bn, final_hash@));
            assert(final_hash@.len() == w as nat);
            assert(crate::codec::is_hex_run(final_hash@));
            assert(forall|n: Seq<char>|
                crate::versioner::fp_free(n, w as nat) ==> #[trigger] fs.file(n) == old(fs).file(
                    n,
                ));
        }
        let base = self.remove_hash_from_filename(clean.as_str());
        let (stem, ext) = crate::versioner::split_stem_ext(base.as_str());
        let ghost fs_e = *fs;
        match self.find_and_delete_old_hash_files(
            fs,
            dirp.as_str(),
            stem.as_str(),
            ext.as_str(),
            final_hash.as_str(),
        ) {
            Ok(u) => u,
            Err(e) => {
                proof {
                    assert(false);
                }
                return Err(e);
            }
        };
        proof {
            crate::fs_model::lemma_prefix_trans(old(fs).log@, fs_e.log@, fs.log@);
            assert(base@ == bn);
            // the final copy is not a stale sibling of its own base: its
            // fingerprint is the current one
            if crate::versioner::gc_stale(
                final_path@,
                dirp@,
                stem@,
                ext@,
                w as nat,
                final_hash@,
            ) {
                let h = choose|h: Seq<char>|
                    h.len() == w as nat && crate::codec::is_hex_run(h) && h != final_hash@
                        && final_path@ == #[trigger] (dirp@ + crate::versioner::sibling_name(
                        stem@,
                        ext@,
                        h,
                    ));
                crate::versioner::lemma_stem_ext_insert(bn, h);
                assert(dirp@ + crate::codec::insert_raw_spec(bn, h) == dirp@
                    + crate::codec::insert_raw_spec(bn, final_hash@));
                assert(crate::codec::insert_raw_spec(bn, h) =~= (dirp@
                    + crate::codec::insert_raw_spec(bn, h)).skip(dirp@.len() as int));
                assert(crate::codec::insert_raw_spec(bn, final_hash@) =~= (dirp@
                    + crate::codec::insert_raw_spec(bn, final_hash@)).skip(dirp@.len() as int));
                crate::versioner::lemma_insert_raw_injective(bn, h, final_hash@);
                assert(false);
            }
            assert(fs.has(final_path@));
            assert(fs.file(final_path@) == Some(rw0));
            // every sibling with another fingerprint is gone
            assert forall|n: Seq<char>, h: Seq<char>|
                crate::versioner::is_sibling(n, css_path@, w as nat, h) && h
                    != final_hash@ implies !fs.has(n) by {
                crate::versioner::lemma_stem_ext_insert(bn, h);
                assert(n == #[trigger] (dirp@ + crate::versioner::sibling_name(stem@, ext@, h)));
                assert(crate::versioner::gc_stale(n, dirp@, stem@, ext@, w as nat, final_hash@));
            }
            // fingerprint-free names were untouched, by the garbage
            // collection as by every step before it
            assert forall|n: Seq<char>|
                crate::versioner::fp_free(n, w as nat) implies #[trigger] fs.file(n) == old(
                fs,
            ).file(n) by {
                if crate::versioner::gc_stale(n, dirp@, stem@, ext@, w as nat, final_hash@) {
                    let h = choose|h: Seq<char>|
                        h.len() == w as nat && crate::codec::is_hex_run(h) && h != final_hash@ && n
                            == #[trigger] (dirp@ + crate::versioner::sibling_name(stem@, ext@, h));
                    crate::versioner::lemma_stem_ext_insert(bn, h);
                    crate::versioner::lemma_sibling_not_fp_free(css_path@, w as nat, h, n);
                }
                assert(fs.file(n) == fs_e.file(n));
                assert(fs_e.file(n) == old(fs).file(n));
            }
            if old(fs).has(crate::versioner::clean_path_of(css_path@, w as nat))
                && crate::codec::strip_spec(
                crate::versioner::clean_name_of(css_path@, w as nat),
                w as nat,
            ) == crate::versioner::clean_name_of(css_path@, w as nat) {
                crate::versioner::lemma_clean_path_fp_free(css_path@, w as nat);
            }
        }
        Ok(
            FileInfo {
                original_path: orig,
                hashed_path: final_path,
                hash: final_hash,
                renamed: true,
            },
        )
    }

    fn wants_main_resources(&self, fname: &str, basename: &str) -> (r: bool)
        ensures
            r == (self.config.process_main_resources@.len() > 0 && exists|k: int|
                0 <= k < self.config.process_main_resources@.len() && (
                #[trigger] self.config.process_main_resources@[k]@ == fname@
                    || self.config.process_main_resources@[k]@ == basename@)),
    {
        if self.config.process_main_resources.is_empty() {
            return false;
        }
        let mut k: usize = 0;
        while k < self.config.process_main_resources.len()
            invariant
                k <= self.config.process_main_resources@.len(),
                forall|j: int|
                    0 <= j < k ==> !(#[trigger] self.config.process_main_resources@[j]@ == fname@
                        || self.config.process_main_resources@[j]@ == basename@),
            decreases self.config.process_main_resources@.len() - k,
        {
            let name = self.config.process_main_resources[k].as_str();
            if crate::text::str_eq(name, fname) || crate::text::str_eq(name, basename) {
                return true;
            }
            k += 1;
        }
        false
    }

    /// Drive one document through the pipeline: version its main script
    /// and stylesheet when the allow-list names it, version its component
    /// resources through the registry, and rewrite its references last.
    /// A missing document is the one fatal failure.
    pub fn process_html_file(&mut self, fs: &mut Directory, html_path: &str) -> (r: Result<
        (),
        VersionError,
    >)
        requires
            old(fs).wf(),
        ensures
            doc_step(*old(self), *final(self), *old(fs), *final(fs), html_path@, r is Ok),
            r matches Err(e) ==> is_not_found(e, html_path@),
            // when the allow-list does not name the document and it
            // references no admitted components, main assets are left
            // alone: nothing changes but the document itself, and neither
            // the registry nor the hash log grows
            ({
                let doc = html_path@;
                let dirp = dir_prefix_of(doc);
                let fname = crate::paths::file_name_of(doc);
                let wants = old(self).config.process_main_resources@.len() > 0 && exists|k: int|
                    0 <= k < old(self).config.process_main_resources@.len() && (
                    #[trigger] old(self).config.process_main_resources@[k]@ == fname || old(
                        self,
                    ).config.process_main_resources@[k]@ == crate::versioner::stem_of(fname));
                (old(fs).has(doc) && !wants && filter_components(
                    *old(self),
                    *old(fs),
                    dirp,
                    scan_refs_from(old(fs).file(doc)->0, link_tag(), href_attr(), css_ext(), 0),
                    0,
                ).len() == 0 && filter_components(
                    *old(self),
                    *old(fs),
                    dirp,
                    scan_refs_from(old(fs).file(doc)->0, script_tag(), src_attr(), js_ext(), 0),
                    0,
                ).len() == 0) ==> {
                    &&& final(self).processed_files == old(self).processed_files
                    &&& final(self).hash_log@ == old(self).hash_log@
                    &&& forall|n: Seq<char>|
                        n != doc ==> #[trigger] final(fs).file(n) == old(fs).file(n)
                }
            }),
    {
        if !fs.exists_file(html_path) {
            return Err(VersionError::NotFound { path: html_path.to_owned() });
        }
        let (dirp, fname) = crate::paths::split_path(html_path);
        let (basename, _) = crate::versioner::split_stem_ext(fname.as_str());
        let should_main = self.wants_main_resources(fname.as_str(), basename.as_str());
        let mut maps = ReferenceMaps { css: Vec::new(), js: Vec::new() };
        if should_main {
            let mut candidates: Vec<String> = Vec::new();
            candidates.push(concat_str(dirp.as_str(), concat_str(basename.as_str(), ".js").as_str()));
            candidates.push(
                concat_str(
                    dirp.as_str(),
                    concat_str("js/", concat_str(basename.as_str(), ".js").as_str()).as_str(),
                ),
            );
            candidates.push(
                concat_str(
                    dirp.as_str(),
                    concat_str("scripts/js/", concat_str(basename.as_str(), ".js").as_str()).as_str(),
                ),
            );
            let mut ci: usize = 0;
            let mut done = false;
            while ci < candidates.len()
                invariant
                    fs.wf(),
                    old(fs).log@.is_prefix_of(fs.log@),
                    self.config == old(self).config,
                    self.debug_mode == old(self).debug_mode,
                    forall|p: Seq<char>|
                        old(self).processed_files.has_path(p)
                            ==> self.processed_files.has_path(p),
                    forall|n: Seq<char>|
                        crate::versioner::fp_free(n, old(self).width()) ==> #[trigger] fs.file(n)
                            == old(fs).file(n),
                decreases candidates@.len() - ci,
            {
                let ghost fs_a = *fs;
                if !done {
                    if let Some(actual) = self.find_file(fs, candidates[ci].as_str()) {
                        if let Ok(info) = self.rename_file_with_hash(fs, actual.as_str()) {
                            let key = strip_dotslash(rel_norm(actual.as_str(), dirp.as_str()).as_str());
                            let val = rel_norm(info.hashed_path.as_str(), dirp.as_str());
                            maps.js.push((key, val));
                            done = true;
                        }
                    }
                }
                proof {
                    crate::fs_model::lemma_prefix_trans(old(fs).log@, fs_a.log@, fs.log@);
                    assert forall|n: Seq<char>|
                        crate::versioner::fp_free(n, old(self).width()) implies #[trigger] fs.file(
                        n,
                    ) == old(fs).file(n) by {
                        assert(fs_a.file(n) == old(fs).file(n));
                        assert(fs.file(n) == fs_a.file(n));
                    }
                }
                ci += 1;
            }
            let mut ccand: Vec<String> = Vec::new();
            ccand.push(concat_str(dirp.as_str(), concat_str(basename.as_str(), ".css").as_str()));
            ccand.push(
                concat_str(
                    dirp.as_str(),
                    concat_str("css/", concat_str(basename.as_str(), ".css").as_str()).as_str(),
                ),
            );
            let mut cj: usize = 0;
            let mut cdone = false;
            while cj < ccand.len()
                invariant
                    fs.wf(),
                    old(fs).log@.is_prefix_of(fs.log@),
                    self.config == old(self).config,
                    self.debug_mode == old(self).debug_mode,
                    forall|p: Seq<char>|
                        old(self).processed_files.has_path(p)
                            ==> self.processed_files.has_path(p),
                    forall|n: Seq<char>|
                        crate::versioner::fp_free(n, old(self).width()) ==> #[trigger] fs.file(n)
                            == old(fs).file(n),
                decreases ccand@.len() - cj,
            {
                let ghost fs_a = *fs;
                let ghost self_a = *self;
                if !cdone {
                    if let Some(actual) = self.find_file(fs, ccand[cj].as_str()) {
                        if let Ok(info) = self.process_component_css(fs, actual.as_str()) {
                            let key = strip_dotslash(rel_norm(actual.as_str(), dirp.as_str()).as_str());
                            let val = rel_norm(info.hashed_path.as_str(), dirp.as_str());
                            maps.css.push((key, val));
                            cdone = true;
                        }
                    }
                }
                proof {
                    crate::fs_model::lemma_prefix_trans(old(fs).log@, fs_a.log@, fs.log@);
                    assert forall|p: Seq<char>|
                        old(self).processed_files.has_path(p) implies self.processed_files.has_path(
                        p,
                    ) by {
                        assert(self_a.processed_files.has_path(p));
                    }
                    assert forall|n: Seq<char>|
                        crate::versioner::fp_free(n, old(self).width()) implies #[trigger] fs.file(
                        n,
                    ) == old(fs).file(n) by {
                        assert(fs_a.file(n) == old(fs).file(n));
                        assert(fs.file(n) == fs_a.file(n));
                    }
                }
                cj += 1;
            }
        }
        let lists = match self.collect_resources_from_html(fs, html_path) {
            Ok(l) => l,
            Err(e) => {
                return Err(e);
            }
        };
        let ghost pre_js_fs = *fs;
        let ghost pre_js_self = *self;
        let mut ji: usize = 0;
        while ji < lists.js.len()
            invariant
                lists.js@.len() == 0 ==> (*fs == pre_js_fs && *self == pre_js_self),
                fs.wf(),
                old(fs).log@.is_prefix_of(fs.log@),
                self.config == old(self).config,
                self.debug_mode == old(self).debug_mode,
                forall|p: Seq<char>|
                    old(self).processed_files.has_path(p) ==> self.processed_files.has_path(p),
                forall|n: Seq<char>|
                    crate::versioner::fp_free(n, old(self).width()) ==> #[trigger] fs.file(n)
                        == old(fs).file(n),
            decreases lists.js@.len() - ji,
        {
            let ghost fs_a = *fs;
            let ghost self_a = *self;
            let jv = to_chars(lists.js[ji].as_str());
            let jn = norm_slashes_exec(&jv);
            let key = strip_dotslash(from_chars(&jn).as_str());
            if !map_contains_key(&maps.js, key.as_str()) {
                match self.process_component_resource(fs, dirp.as_str(), lists.js[ji].as_str()) {
                    Ok(info) => {
                        let val = rel_norm(info.hashed_path.as_str(), dirp.as_str());
                        maps.js.push((key, val));
                    }
                    Err(_) => {},
                }
            }
            proof {
                crate::fs_model::lemma_prefix_trans(old(fs).log@, fs_a.log@, fs.log@);
                assert forall|p: Seq<char>|
                    old(self).processed_files.has_path(p) implies self.processed_files.has_path(
                    p,
                ) by {
                    assert(self_a.processed_files.has_path(p));
                }
                assert forall|n: Seq<char>|
                    crate::versioner::fp_free(n, old(self).width()) implies #[trigger] fs.file(
                    n,
                ) == old(fs).file(n) by {
                    assert(fs_a.file(n) == old(fs).file(n));
                    assert(fs.file(n) == fs_a.file(n));
                }
            }
            ji += 1;
        }
        let ghost pre_css_fs = *fs;
        let ghost pre_css_self = *self;
        let mut cli: usize = 0;
        while cli < lists.css.len()
            invariant
                lists.css@.len() == 0 ==> (*fs == pre_css_fs && *self == pre_css_self),
                fs.wf(),
                old(fs).log@.is_prefix_of(fs.log@),
                self.config == old(self).config,
                self.debug_mode == old(self).debug_mode,
                forall|p: Seq<char>|
                    old(self).processed_files.has_path(p) ==> self.processed_files.has_path(p),
                forall|n: Seq<char>|
                    crate::versioner::fp_free(n, old(self).width()) ==> #[trigger] fs.file(n)
                        == old(fs).file(n),
            decreases lists.css@.len() - cli,
        {
            let ghost fs_a = *fs;
            let ghost self_a = *self;
            let cv = to_chars(lists.css[cli].as_str());
            let cn = norm_slashes_exec(&cv);
            let key = strip_dotslash(from_chars(&cn).as_str());
            if !map_contains_key(&maps.css, key.as_str()) {
                match self.process_component_resource(fs, dirp.as_str(), lists.css[cli].as_str()) {
                    Ok(info) => {
                        let val = rel_norm(info.hashed_path.as_str(), dirp.as_str());
                        maps.css.push((key, val));
                    }
                    Err(_) => {},
                }
            }
            proof {
                crate::fs_model::lemma_prefix_trans(old(fs).log@, fs_a.log@, fs.log@);
                assert forall|p: Seq<char>|
                    old(self).processed_files.has_path(p) implies self.processed_files.has_path(
                    p,
                ) by {
                    assert(self_a.processed_files.has_path(p));
                }
                assert forall|n: Seq<char>|
                    crate::versioner::fp_free(n, old(self).width()) implies #[trigger] fs.file(
                    n,
                ) == old(fs).file(n) by {
                    assert(fs_a.file(n) == old(fs).file(n));
                    assert(fs.file(n) == fs_a.file(n));
                }
            }
            cli += 1;
        }
        let ghost fs_b = *fs;
        let res = self.update_html_references(fs, html_path, &maps);
        proof {
            let up = html_update_spec(
                fs_b.file(html_path@)->0,
                maps.css@,
                maps.js@,
                self.config.cdn_domain@,
            );
            if res is Ok {
                if up.1 {
                    assert(fs.log@.take(fs_b.log@.len() as int) == fs_b.log@);
                }
            }
            crate::fs_model::lemma_prefix_trans(old(fs).log@, fs_b.log@, fs.log@);
            assert forall|n: Seq<char>|
                crate::versioner::fp_free(n, old(self).width()) && n != html_path@ implies
                #[trigger] fs.file(n) == old(fs).file(n) by {
                assert(fs_b.file(n) == old(fs).file(n));
            }
            if res is Ok && crate::versioner::fp_free(html_path@, old(self).width()) {
                assert(fs_b.file(html_path@) == old(fs).file(html_path@));
                if up.1 {
                    assert(fs.file(html_path@) == Some(up.0));
                } else {
                    crate::html::lemma_html_rewrite_no_change(
                        fs_b.file(html_path@)->0,
                        link_tag(),
                        href_attr(),
                        maps.css@,
                        self.config.cdn_domain@,
                    );
                    let a = crate::html::rewrite_html_from(
                        fs_b.file(html_path@)->0,
                        link_tag(),
                        href_attr(),
                        maps.css@,
                        self.config.cdn_domain@,
                        0,
                    );
                    crate::html::lemma_html_rewrite_no_change(
                        a.0,
                        script_tag(),
                        src_attr(),
                        maps.js@,
                        self.config.cdn_domain@,
                    );
                    assert(fs.file(html_path@) == Some(up.0));
                }
            }
        }
        res
    }

    /// Drive a batch of documents, each resolved against the root
    /// directory and carried through one full document pass in order; a
    /// failing document is skipped and the batch goes on.
    pub fn process_multiple_html_files(&mut self, fs: &mut Directory, html_paths: Vec<String>)
        requires
            old(fs).wf(),
        ensures
            final(fs).wf(),
            old(fs).log@.is_prefix_of(final(fs).log@),
            final(self).config == old(self).config,
            final(self).debug_mode == old(self).debug_mode,
            forall|p: Seq<char>|
                old(self).processed_files.has_path(p) ==> final(self).processed_files.has_path(p),
            batch_steps(*old(self), *final(self), *old(fs), *final(fs), html_paths@),
    {
        let ghost mut fss: Seq<Directory> = seq![*fs];
        let ghost mut vms: Seq<VersionManager> = seq![*self];
        let ghost mut oks: Seq<bool> = Seq::<bool>::empty();
        let mut i: usize = 0;
        while i < html_paths.len()
            invariant
                fs.wf(),
                old(fs).log@.is_prefix_of(fs.log@),
                self.config == old(self).config,
                self.debug_mode == old(self).debug_mode,
                forall|p: Seq<char>|
                    old(self).processed_files.has_path(p) ==> self.processed_files.has_path(p),
                i <= html_paths@.len(),
                fss.len() == i + 1,
                vms.len() == i + 1,
                oks.len() == i,
                fss[0] == *old(fs),
                vms[0] == *old(self),
                fss[i as int] == *fs,
                vms[i as int] == *self,
                forall|j: int|
                    0 <= j < i ==> doc_step(
                        #[trigger] vms[j],
                        vms[j + 1],
                        fss[j],
                        fss[j + 1],
                        normalize_spec(
                            crate::paths::join_spec(
                                old(self).config.root_dir@,
                                html_paths@[j]@,
                            ),
                        ),
                        oks[j],
                    ),
            decreases html_paths@.len() - i,
        {
            let ghost fs_a = *fs;
            let ghost self_a = *self;
            let joined = crate::paths::join_dir(
                self.config.root_dir.clone().as_str(),
                html_paths[i].as_str(),
            );
            let abs = normalize_path(joined.as_str());
            let r = self.process_html_file(fs, abs.as_str());
            proof {
                crate::fs_model::lemma_prefix_trans(old(fs).log@, fs_a.log@, fs.log@);
                assert forall|p: Seq<char>|
                    old(self).processed_files.has_path(p) implies self.processed_files.has_path(
                    p,
                ) by {
                    assert(self_a.processed_files.has_path(p));
                }
                fss = fss.push(*fs);
                vms = vms.push(*self);
                oks = oks.push(r is Ok);
                assert(abs@ == normalize_spec(
                    crate::paths::join_spec(old(self).config.root_dir@, html_paths@[i as int]@),
                ));
                assert forall|j: int|
                    0 <= j < i + 1 implies doc_step(
                    #[trigger] vms[j],
                    vms[j + 1],
                    fss[j],
                    fss[j + 1],
                    normalize_spec(
                        crate::paths::join_spec(old(self).config.root_dir@, html_paths@[j]@),
                    ),
                    oks[j],
                ) by {
                    if j < i {
                        assert(doc_step(
                            vms[j],
                            vms[j + 1],
                            fss[j],
                            fss[j + 1],
                            normalize_spec(
                                crate::paths::join_spec(
                                    old(self).config.root_dir@,
                                    html_paths@[j]@,
                                ),
                            ),
                            oks[j],
                        ));
                    } else {
                        assert(vms[j] == self_a && fss[j] == fs_a);
                        assert(vms[j + 1] == *self && fss[j + 1] == *fs);
                    }
                }
            }
            i += 1;
        }
        proof {
            assert(fss[html_paths@.len() as int] == *fs);
            assert(vms[html_paths@.len() as int] == *self);
        }
    }

    /// Should the tree walk descend into a directory with this name?
    pub fn should_visit_dir(&self, name: &str) -> (r: bool)
        ensures
            r == !(exists|k: int|
                0 <= k < self.config.exclude_dirs@.len()
                    && #[trigger] self.config.exclude_dirs@[k]@ == name@),
    {
        let mut k: usize = 0;
        while k < self.config.exclude_dirs.len()
            invariant
                k <= self.config.exclude_dirs@.len(),
                forall|j: int| 0 <= j < k ==> #[trigger] self.config.exclude_dirs@[j]@ != name@,
            decreases self.config.exclude_dirs@.len() - k,
        {
            if crate::text::str_eq(self.config.exclude_dirs[k].as_str(), name) {
                return false;
            }
            k += 1;
        }
        true
    }
}

/// Does the file name denote a document the batch walk should process?
pub fn is_html_file_name(name: &str) -> (r: bool)
    ensures
        r == (name@.len() >= 5 && name@.skip(name@.len() - 5) == seq!['.', 'h', 't', 'm', 'l']),
{
    let v = to_chars(name);
    let mut ext: Vec<char> = Vec::new();
    ext.push('.');
    ext.push('h');
    ext.push('t');
    ext.push('m');
    ext.push('l');
    proof {
        assert(ext@ =~= seq!['.', 'h', 't', 'm', 'l']);
    }
    crate::text::ends_with_chars(&v, &ext)
}

} // verus!
