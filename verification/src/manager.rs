use vstd::prelude::*;
use crate::codec::{strip_spec, insert_spec, strip_fingerprint, insert_fingerprint, is_hex_run};
use crate::hashing::{eff_width, eff_width_exec, fingerprint_of, content_fingerprint};
use crate::fs_model::Directory;
use crate::registry::ProcessedRegistry;
use crate::text::{
    to_chars, contains_chars, ends_with_chars, starts_with_chars, contains_seq, concat_str,
};
use crate::paths::{file_name_of, split_path};

verus! {

/// The configuration the engine consumes; validated values only, owned by
/// the caller.
pub struct Config {
    pub root_dir: String,
    pub cdn_domain: String,
    pub hash_length: usize,
    pub single_html_file: String,
    pub html_files: Vec<String>,
    pub exclude_dirs: Vec<String>,
    pub home_html_file: String,
    pub company_html_file: String,
    pub include_components: Vec<String>,
    pub process_main_resources: Vec<String>,
}

pub fn default_root_dir() -> (r: String)
    ensures
        r@ == "."@,
{
    (".").to_owned()
}

pub fn default_hash_length() -> (r: usize)
    ensures
        r == 8,
{
    8
}

pub fn default_exclude_dirs() -> (r: Vec<String>)
    ensures
        r@.len() == 4,
        r@[0]@ == "node_modules"@,
        r@[1]@ == ".git"@,
        r@[2]@ == "dist"@,
        r@[3]@ == "build"@,
{
    let mut v: Vec<String> = Vec::new();
    v.push(("node_modules").to_owned());
    v.push((".git").to_owned());
    v.push(("dist").to_owned());
    v.push(("build").to_owned());
    v
}

/// Fill in the defaults a freshly parsed configuration may lack, and pick
/// the single document path by the machine flag, preferring the home path
/// when the flag is "1" and the company path otherwise.
pub fn resolve_config(config: Config, is_home: &str) -> (r: Config)
    ensures
        r.root_dir@ == if config.root_dir@.len() == 0 {
            "."@
        } else {
            config.root_dir@
        },
        r.hash_length == if config.hash_length == 0 {
            8usize
        } else {
            config.hash_length
        },
        config.exclude_dirs@.len() > 0 ==> r.exclude_dirs == config.exclude_dirs,
        config.exclude_dirs@.len() == 0 ==> r.exclude_dirs@.len() == 4 && r.exclude_dirs@[0]@
            == "node_modules"@ && r.exclude_dirs@[1]@ == ".git"@ && r.exclude_dirs@[2]@ == "dist"@
            && r.exclude_dirs@[3]@ == "build"@,
        r.single_html_file@ == if config.home_html_file@.len() > 0
            || config.company_html_file@.len() > 0 {
            if is_home@ == "1"@ {
                if config.home_html_file@.len() > 0 {
                    config.home_html_file@
                } else {
                    config.single_html_file@
                }
            } else {
                if config.company_html_file@.len() > 0 {
                    config.company_html_file@
                } else {
                    config.single_html_file@
                }
            }
        } else {
            config.single_html_file@
        },
        r.cdn_domain == config.cdn_domain,
        r.html_files == config.html_files,
        r.home_html_file == config.home_html_file,
        r.company_html_file == config.company_html_file,
        r.include_components == config.include_components,
        r.process_main_resources == config.process_main_resources,
{
    let mut config = config;
    if config.root_dir.as_str().is_empty() {
        config.root_dir = (".").to_owned();
    }
    if config.hash_length == 0 {
        config.hash_length = 8;
    }
    if config.exclude_dirs.is_empty() {
        config.exclude_dirs = default_exclude_dirs();
    }
    if !config.home_html_file.as_str().is_empty() || !config.company_html_file.as_str().is_empty() {
        if crate::text::str_eq(is_home, "1") {
            if !config.home_html_file.as_str().is_empty() {
                config.single_html_file = config.home_html_file.clone();
            }
        } else {
            if !config.company_html_file.as_str().is_empty() {
                config.single_html_file = config.company_html_file.clone();
            }
        }
    }
    config
}

/// The one failure the engine itself can produce: a path that is not in
/// the snapshot.
#[derive(Debug)]
pub enum VersionError {
    NotFound { path: String },
}

pub open spec fn is_not_found(e: VersionError, p: Seq<char>) -> bool {
    &&& e matches VersionError::NotFound { path }
    &&& path@ == p
}

impl VersionError {
    /// A readable description of the failure.
    pub fn message(&self) -> (r: String)
        ensures
            self matches VersionError::NotFound { path } ==> r@ == "file does not exist: "@
                + path@,
    {
        match self {
            VersionError::NotFound { path } => concat_str("file does not exist: ", path.as_str()),
        }
    }
}

/// The record of one successfully versioned file.
#[derive(Debug, Clone)]
pub struct FileInfo {
    pub original_path: String,
    pub hashed_path: String,
    pub hash: String,
    pub renamed: bool,
}

/// One `url()` occurrence found in a stylesheet, resolved against the
/// stylesheet's own directory.
#[derive(Debug, Clone)]
pub struct ImageReference {
    pub original_path: String,
    pub absolute_path: String,
    pub relative_path: String,
}

pub struct VersionManager {
    pub config: Config,
    pub processed_files: ProcessedRegistry,
    pub hash_log: Vec<String>,
    pub debug_mode: bool,
}

/// Does `path` name the component called `name`: by a directory segment,
/// by a final segment, or by a file named `name.<ext>`?
pub open spec fn component_match(path: Seq<char>, name: Seq<char>) -> bool {
    ||| contains_seq(path, seq!['/'] + name + seq!['/'])
    ||| contains_seq(path, seq!['\\'] + name + seq!['\\'])
    ||| (name.len() + 1 <= path.len() && path.skip(path.len() - (name.len() + 1)) == seq!['/']
        + name)
    ||| (name.len() + 1 <= path.len() && path.skip(path.len() - (name.len() + 1)) == seq!['\\']
        + name)
    ||| (name.len() + 1 <= file_name_of(path).len() && file_name_of(path).take(
        (name.len() + 1) as int,
    ) == name + seq!['.'])
}

impl VersionManager {
    /// The effective fingerprint width of this configuration.
    pub open spec fn width(self) -> nat {
        eff_width(self.config.hash_length as nat)
    }

    pub open spec fn should_process_spec(self, path: Seq<char>) -> bool {
        if self.config.include_components@.len() == 0 {
            true
        } else {
            exists|k: int|
                0 <= k < self.config.include_components@.len() && component_match(
                    path,
                    #[trigger] self.config.include_components@[k]@,
                )
        }
    }

    pub fn new(config: Config, debug_mode: bool) -> (r: VersionManager)
        ensures
            r.config == config,
            r.debug_mode == debug_mode,
            forall|p: Seq<char>| !(#[trigger] r.processed_files.has_path(p)),
            r.hash_log@ == Seq::<String>::empty(),
    {
        VersionManager {
            processed_files: ProcessedRegistry::new(),
            config,
            hash_log: Vec::new(),
            debug_mode,
        }
    }

    /// Is this component within the configured include list (an empty list
    /// admits every component)?
    pub fn should_process_component(&self, component_path: &str) -> (r: bool)
        ensures
            r == self.should_process_spec(component_path@),
    {
        if self.config.include_components.is_empty() {
            return true;
        }
        let v = to_chars(component_path);
        let (_, fname_s) = split_path(component_path);
        let fname = to_chars(fname_s.as_str());
        let mut k: usize = 0;
        while k < self.config.include_components.len()
            invariant
                k <= self.config.include_components@.len(),
                v@ == component_path@,
                fname@ == file_name_of(component_path@),
                forall|j: int|
                    0 <= j < k ==> !component_match(
                        component_path@,
                        #[trigger] self.config.include_components@[j]@,
                    ),
            decreases self.config.include_components@.len() - k,
        {
            let name = to_chars(self.config.include_components[k].as_str());
            let mut seg_slash: Vec<char> = Vec::new();
            seg_slash.push('/');
            seg_slash.extend_from_slice(name.as_slice());
            let mut end_slash = seg_slash.clone();
            seg_slash.push('/');
            let mut seg_back: Vec<char> = Vec::new();
            seg_back.push('\\');
            seg_back.extend_from_slice(name.as_slice());
            let mut end_back = seg_back.clone();
            seg_back.push('\\');
            let mut pref = name.clone();
            pref.push('.');
            proof {
                let nm = self.config.include_components@[k as int]@;
                assert(seg_slash@ =~= seq!['/'] + nm + seq!['/']);
                assert(seg_back@ =~= seq!['\\'] + nm + seq!['\\']);
                assert(end_slash@ =~= seq!['/'] + nm);
                assert(end_back@ =~= seq!['\\'] + nm);
                assert(pref@ =~= nm + seq!['.']);
            }
            if contains_chars(&v, &seg_slash) || contains_chars(&v, &seg_back) || ends_with_chars(
                &v,
                &end_slash,
            ) || ends_with_chars(&v, &end_back) || starts_with_chars(&fname, &pref) {
                return true;
            }
            k += 1;
        }
        false
    }

    /// Strip a fingerprint of this configuration's width from a filename.
    pub fn remove_hash_from_filename(&self, filename: &str) -> (r: String)
        ensures
            r@ == strip_spec(filename@, self.width()),
    {
        strip_fingerprint(filename, eff_width_exec(self.config.hash_length))
    }

    /// Insert a fingerprint into a filename, stripping any old one first.
    pub fn add_hash_to_filename(&self, filename: &str, hash: &str) -> (r: String)
        ensures
            r@ == insert_spec(filename@, hash@, self.width()),
    {
        insert_fingerprint(filename, hash, eff_width_exec(self.config.hash_length))
    }

    /// Fingerprint the content stored under `file_path`, recording the path
    /// in the hash log; fails when the path is not in the snapshot.
    pub fn calculate_file_hash(&mut self, fs: &Directory, file_path: &str) -> (r: Result<
        String,
        VersionError,
    >)
        requires
            fs.wf(),
        ensures
            r is Ok <==> fs.has(file_path@),
            r matches Ok(h) ==> {
                &&& h@ == fingerprint_of(fs.file(file_path@)->0, old(self).config.hash_length as nat)
                &&& h@.len() == old(self).width()
                &&& is_hex_run(h@)
            },
            r matches Err(e) ==> is_not_found(e, file_path@),
            final(self).config == old(self).config,
            final(self).processed_files == old(self).processed_files,
            final(self).debug_mode == old(self).debug_mode,
            r is Ok ==> final(self).hash_log@.len() == old(self).hash_log@.len() + 1
                && final(self).hash_log@.take(old(self).hash_log@.len() as int) == old(
                self,
            ).hash_log@ && final(self).hash_log@.last()@ == file_path@,
            r is Err ==> final(self).hash_log@ == old(self).hash_log@,
    {
        match fs.read(file_path) {
            Some(content) => {
                let content = content.clone();
                let h = content_fingerprint(content.as_str(), self.config.hash_length);
                self.hash_log.push(file_path.to_owned());
                proof {
                    assert(self.hash_log@.take(old(self).hash_log@.len() as int) =~= old(
                        self,
                    ).hash_log@);
                }
                Ok(h)
            }
            None => Err(VersionError::NotFound { path: file_path.to_owned() }),
        }
    }
}

} // verus!
