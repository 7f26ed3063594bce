use vstd::prelude::*;
use crate::text::{
    lines_of, lower_of, lowercase, contains_seq, contains_chars, split_lines, to_chars,
};

verus! {

// The plain variant of the line searcher: a query and a file path, and the
// two search modes returning the matching lines alone.

#[derive(Debug, PartialEq)]
pub struct Config {
    pub target: String,
    pub path: String,
}

/// The lines whose text contains the query.
pub open spec fn found_sensitive(lines: Seq<Seq<char>>, q: Seq<char>, i: int) -> Seq<Seq<char>>
    decreases lines.len() - i,
{
    if !(0 <= i < lines.len()) {
        Seq::<Seq<char>>::empty()
    } else if contains_seq(lines[i], q) {
        seq![lines[i]] + found_sensitive(lines, q, i + 1)
    } else {
        found_sensitive(lines, q, i + 1)
    }
}

/// The lines that contain the query when both are lowercased.
pub open spec fn found_insensitive(lines: Seq<Seq<char>>, q: Seq<char>, i: int) -> Seq<Seq<char>>
    decreases lines.len() - i,
{
    if !(0 <= i < lines.len()) {
        Seq::<Seq<char>>::empty()
    } else if contains_seq(lower_of(lines[i]), lower_of(q)) {
        seq![lines[i]] + found_insensitive(lines, q, i + 1)
    } else {
        found_insensitive(lines, q, i + 1)
    }
}

fn keep_sens_rec<'a>(lines: &Vec<&'a str>, q: &Vec<char>, i: usize) -> (r: Vec<&'a str>)
    requires
        i <= lines@.len(),
    ensures
        r@.map(|k: int, l: &str| l@) == found_sensitive(
            lines@.map(|k: int, l: &str| l@),
            q@,
            i as int,
        ),
    decreases lines@.len() - i,
{
    let ghost lm = lines@.map(|k: int, l: &str| l@);
    if i >= lines.len() {
        let out: Vec<&'a str> = Vec::new();
        proof {
            assert(out@.map(|k: int, l: &str| l@) =~= found_sensitive(lm, q@, i as int));
        }
        return out;
    }
    let mut rest = keep_sens_rec(lines, q, i + 1);
    let lv = to_chars(lines[i]);
    proof {
        assert(lm[i as int] == lines@[i as int]@);
    }
    if contains_chars(&lv, q) {
        let mut out: Vec<&'a str> = Vec::new();
        out.push(lines[i]);
        out.append(&mut rest);
        proof {
            assert(out@.map(|k: int, l: &str| l@) =~= found_sensitive(lm, q@, i as int));
        }
        out
    } else {
        proof {
            assert(rest@.map(|k: int, l: &str| l@) =~= found_sensitive(lm, q@, i as int));
        }
        rest
    }
}

fn keep_insens_rec<'a>(lines: &Vec<&'a str>, lq: &Vec<char>, q: &str, i: usize) -> (r: Vec<
    &'a str,
>)
    requires
        i <= lines@.len(),
        lq@ == lower_of(q@),
    ensures
        r@.map(|k: int, l: &str| l@) == found_insensitive(
            lines@.map(|k: int, l: &str| l@),
            q@,
            i as int,
        ),
    decreases lines@.len() - i,
{
    let ghost lm = lines@.map(|k: int, l: &str| l@);
    if i >= lines.len() {
        let out: Vec<&'a str> = Vec::new();
        proof {
            assert(out@.map(|k: int, l: &str| l@) =~= found_insensitive(lm, q@, i as int));
        }
        return out;
    }
    let mut rest = keep_insens_rec(lines, lq, q, i + 1);
    let ll = lowercase(lines[i]);
    let lv = to_chars(ll.as_str());
    proof {
        assert(lm[i as int] == lines@[i as int]@);
    }
    if contains_chars(&lv, lq) {
        let mut out: Vec<&'a str> = Vec::new();
        out.push(lines[i]);
        out.append(&mut rest);
        proof {
            assert(out@.map(|k: int, l: &str| l@) =~= found_insensitive(lm, q@, i as int));
        }
        out
    } else {
        proof {
            assert(rest@.map(|k: int, l: &str| l@) =~= found_insensitive(lm, q@, i as int));
        }
        rest
    }
}

impl Config {
    /// Parse an invocation: the query and the file path; fewer than three
    /// arguments are rejected.
    pub fn new(args: &[String]) -> (r: Result<Config, &'static str>)
        ensures
            args@.len() < 3 ==> (r matches Err(m) && m@ == "not enough arguments"@),
            args@.len() >= 3 ==> (r matches Ok(c) && c.target@ == args@[1]@ && c.path@
                == args@[2]@),
    {
        if args.len() < 3 {
            return Err("not enough arguments");
        }
        let target = vstd::slice::slice_index_get(args, 1).clone();
        let path = vstd::slice::slice_index_get(args, 2).clone();
        Ok(Config { target, path })
    }

    /// The lines of `contents` that contain `query`.
    pub fn search_case_sensitive<'a>(query: &str, contents: &'a str) -> (r: Vec<&'a str>)
        ensures
            r@.map(|k: int, l: &str| l@) == found_sensitive(lines_of(contents@), query@, 0),
    {
        let lines = split_lines(contents);
        let qv = to_chars(query);
        keep_sens_rec(&lines, &qv, 0)
    }

    /// The lines of `contents` that contain `query` ignoring case.
    pub fn search_case_insensitive<'a>(query: &str, contents: &'a str) -> (r: Vec<&'a str>)
        ensures
            r@.map(|k: int, l: &str| l@) == found_insensitive(lines_of(contents@), query@, 0),
    {
        let lines = split_lines(contents);
        let lq = lowercase(query);
        let lqv = to_chars(lq.as_str());
        keep_insens_rec(&lines, &lqv, query, 0)
    }
}

} // verus!
