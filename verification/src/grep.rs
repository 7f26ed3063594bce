use vstd::prelude::*;
use crate::text::{
    lines_of, lower_of, lowercase, contains_seq, contains_chars, split_lines, to_chars, str_eq,
};

verus! {

// A small line searcher: a parsed invocation, and case-sensitive and
// case-insensitive search over a text's lines, each match with its
// zero-based line number.

#[derive(Debug, PartialEq)]
pub struct Config {
    pub target: String,
    pub path: String,
    pub show_line_number: bool,
    pub case_sensitive: bool,
}

/// The numbered lines whose text contains the query.
pub open spec fn matches_sensitive(lines: Seq<Seq<char>>, q: Seq<char>, i: int) -> Seq<
    (int, Seq<char>),
>
    decreases lines.len() - i,
{
    if !(0 <= i < lines.len()) {
        Seq::<(int, Seq<char>)>::empty()
    } else if contains_seq(lines[i], q) {
        seq![(i, lines[i])] + matches_sensitive(lines, q, i + 1)
    } else {
        matches_sensitive(lines, q, i + 1)
    }
}

/// The numbered lines that contain the query when both are lowercased.
pub open spec fn matches_insensitive(lines: Seq<Seq<char>>, q: Seq<char>, i: int) -> Seq<
    (int, Seq<char>),
>
    decreases lines.len() - i,
{
    if !(0 <= i < lines.len()) {
        Seq::<(int, Seq<char>)>::empty()
    } else if contains_seq(lower_of(lines[i]), lower_of(q)) {
        seq![(i, lines[i])] + matches_insensitive(lines, q, i + 1)
    } else {
        matches_insensitive(lines, q, i + 1)
    }
}

fn slice_contains(args: &[String], what: &str) -> (r: bool)
    ensures
        r == exists|k: int| 0 <= k < args@.len() && #[trigger] args@[k]@ == what@,
{
    let n = args.len();
    let mut i: usize = 0;
    while i < n
        invariant
            n == args@.len(),
            i <= n,
            forall|k: int| 0 <= k < i ==> #[trigger] args@[k]@ != what@,
        decreases n - i,
    {
        if str_eq(vstd::slice::slice_index_get(args, i).as_str(), what) {
            return true;
        }
        i += 1;
    }
    false
}

fn filter_sens_rec<'a>(lines: &Vec<&'a str>, q: &Vec<char>, i: usize) -> (r: Vec<(usize, &'a str)>)
    requires
        i <= lines@.len(),
    ensures
        r@.map(|k: int, p: (usize, &'a str)| (p.0 as int, p.1@)) == matches_sensitive(
            lines@.map(|k: int, l: &str| l@),
            q@,
            i as int,
        ),
    decreases lines@.len() - i,
{
    let ghost lm = lines@.map(|k: int, l: &str| l@);
    if i >= lines.len() {
        let out: Vec<(usize, &'a str)> = Vec::new();
        proof {
            assert(out@.map(|k: int, p: (usize, &'a str)| (p.0 as int, p.1@)) =~= matches_sensitive(
                lm,
                q@,
                i as int,
            ));
        }
        return out;
    }
    let mut rest = filter_sens_rec(lines, q, i + 1);
    let lv = to_chars(lines[i]);
    proof {
        assert(lm[i as int] == lines@[i as int]@);
    }
    if contains_chars(&lv, q) {
        let mut out: Vec<(usize, &'a str)> = Vec::new();
        out.push((i, lines[i]));
        out.append(&mut rest);
        proof {
            assert(out@.map(|k: int, p: (usize, &'a str)| (p.0 as int, p.1@)) =~= matches_sensitive(
                lm,
                q@,
                i as int,
            ));
        }
        out
    } else {
        proof {
            assert(rest@.map(|k: int, p: (usize, &'a str)| (p.0 as int, p.1@))
                =~= matches_sensitive(lm, q@, i as int));
        }
        rest
    }
}

fn filter_insens_rec<'a>(lines: &Vec<&'a str>, lq: &Vec<char>, q: &str, i: usize) -> (r: Vec<
    (usize, &'a str),
>)
    requires
        i <= lines@.len(),
        lq@ == lower_of(q@),
    ensures
        r@.map(|k: int, p: (usize, &'a str)| (p.0 as int, p.1@)) == matches_insensitive(
            lines@.map(|k: int, l: &str| l@),
            q@,
            i as int,
        ),
    decreases lines@.len() - i,
{
    let ghost lm = lines@.map(|k: int, l: &str| l@);
    if i >= lines.len() {
        let out: Vec<(usize, &'a str)> = Vec::new();
        proof {
            assert(out@.map(|k: int, p: (usize, &'a str)| (p.0 as int, p.1@))
                =~= matches_insensitive(lm, q@, i as int));
        }
        return out;
    }
    let mut rest = filter_insens_rec(lines, lq, q, i + 1);
    let ll = lowercase(lines[i]);
    let lv = to_chars(ll.as_str());
    proof {
        assert(lm[i as int] == lines@[i as int]@);
    }
    if contains_chars(&lv, lq) {
        let mut out: Vec<(usize, &'a str)> = Vec::new();
        out.push((i, lines[i]));
        out.append(&mut rest);
        proof {
            assert(out@.map(|k: int, p: (usize, &'a str)| (p.0 as int, p.1@))
                =~= matches_insensitive(lm, q@, i as int));
        }
        out
    } else {
        proof {
            assert(rest@.map(|k: int, p: (usize, &'a str)| (p.0 as int, p.1@))
                =~= matches_insensitive(lm, q@, i as int));
        }
        rest
    }
}

impl Config {
    /// Parse an invocation: the query, the file path, and the `-n` and
    /// `-s` flags, in that order; fewer than three arguments are rejected.
    pub fn new(args: &[String]) -> (r: Result<Config, &'static str>)
        ensures
            args@.len() < 3 ==> (r matches Err(m) && m@ == "not enough arguments"@),
            args@.len() >= 3 ==> (r matches Ok(c) && c.target@ == args@[1]@ && c.path@ == args@[2]@
                && c.show_line_number == (exists|k: int|
                0 <= k < args@.len() && #[trigger] args@[k]@ == "-n"@) && c.case_sensitive == (
            exists|k: int| 0 <= k < args@.len() && #[trigger] args@[k]@ == "-s"@)),
    {
        if args.len() < 3 {
            return Err("not enough arguments");
        }
        let target = vstd::slice::slice_index_get(args, 1).clone();
        let path = vstd::slice::slice_index_get(args, 2).clone();
        let show_line_number = slice_contains(args, "-n");
        let case_sensitive = slice_contains(args, "-s");
        Ok(Config { target, path, show_line_number, case_sensitive })
    }

    /// The lines of `contents` that contain `query`, each with its
    /// zero-based line number.
    pub fn search_case_sensitive<'a>(query: &str, contents: &'a str) -> (r: Vec<(usize, &'a str)>)
        ensures
            r@.map(|k: int, p: (usize, &'a str)| (p.0 as int, p.1@)) == matches_sensitive(
                lines_of(contents@),
                query@,
                0,
            ),
    {
        let lines = split_lines(contents);
        let qv = to_chars(query);
        filter_sens_rec(&lines, &qv, 0)
    }

    /// The lines of `contents` that contain `query` ignoring case, each
    /// with its zero-based line number.
    pub fn search_case_insensitive<'a>(query: &str, contents: &'a str) -> (r: Vec<
        (usize, &'a str),
    >)
        ensures
            r@.map(|k: int, p: (usize, &'a str)| (p.0 as int, p.1@)) == matches_insensitive(
                lines_of(contents@),
                query@,
                0,
            ),
    {
        let lines = split_lines(contents);
        let lq = lowercase(query);
        let lqv = to_chars(lq.as_str());
        filter_insens_rec(&lines, &lqv, query, 0)
    }
}

} // verus!
