use vstd::prelude::*;

verus! {

/// Convert a string slice to the vector of its characters.
pub fn to_chars(s: &str) -> (v: Vec<char>)
    ensures
        v@ == s@,
{
    let n = s.unicode_len();
    let mut v: Vec<char> = Vec::new();
    let mut i: usize = 0;
    while i < n
        invariant
            n == s@.len(),
            i <= n,
            v@ == s@.take(i as int),
        decreases n - i,
    {
        v.push(s.get_char(i));
        assert(v@ =~= s@.take(i + 1 as int));
        i += 1;
    }
    assert(v@ =~= s@);
    v
}

/// Relies on String::push: appends one character at the end of the string.
#[verifier::external_body]
pub(crate) fn push_char(s: &mut String, c: char)
    ensures
        final(s)@ == old(s)@.push(c),
{
    s.push(c)
}

/// Build a string out of a vector of characters.
pub fn from_chars(v: &Vec<char>) -> (s: String)
    ensures
        s@ == v@,
{
    let mut s = String::new();
    let mut i: usize = 0;
    while i < v.len()
        invariant
            i <= v@.len(),
            s@ == v@.take(i as int),
        decreases v@.len() - i,
    {
        push_char(&mut s, v[i]);
        assert(s@ =~= v@.take(i + 1 as int));
        i += 1;
    }
    assert(s@ =~= v@);
    s
}

/// Character-by-character equality of two vectors of characters.
pub fn chars_eq(a: &Vec<char>, b: &Vec<char>) -> (r: bool)
    ensures
        r == (a@ == b@),
{
    if a.len() != b.len() {
        return false;
    }
    let mut i: usize = 0;
    while i < a.len()
        invariant
            a@.len() == b@.len(),
            i <= a@.len(),
            forall|j: int| 0 <= j < i ==> a@[j] == b@[j],
        decreases a@.len() - i,
    {
        if a[i] != b[i] {
            return false;
        }
        i += 1;
    }
    assert(a@ =~= b@);
    true
}

/// Equality of two string slices.
pub fn str_eq(a: &str, b: &str) -> (r: bool)
    ensures
        r == (a@ == b@),
{
    let va = to_chars(a);
    let vb = to_chars(b);
    chars_eq(&va, &vb)
}

/// Equality of two ranges of characters.
#[verifier::loop_isolation(false)]
pub fn subrange_eq(a: &Vec<char>, af: usize, at: usize, b: &Vec<char>, bf: usize, bt: usize) -> (r:
    bool)
    requires
        af <= at <= a@.len(),
        bf <= bt <= b@.len(),
    ensures
        r == (a@.subrange(af as int, at as int) == b@.subrange(bf as int, bt as int)),
{
    let alen = at - af;
    if alen != bt - bf {
        assert(a@.subrange(af as int, at as int).len() != b@.subrange(bf as int, bt as int).len());
        return false;
    }
    let mut i: usize = 0;
    while i < alen
        invariant
            af + alen <= a@.len(),
            bf + alen <= b@.len(),
            i <= alen,
            forall|j: int| 0 <= j < i ==> #[trigger] a@[af + j] == b@[bf + j],
        decreases alen - i,
    {
        if a[af + i] != b[bf + i] {
            assert(a@.subrange(af as int, at as int)[i as int] == a@[af + i]);
            assert(b@.subrange(bf as int, bt as int)[i as int] == b@[bf + i]);
            return false;
        }
        i += 1;
    }
    proof {
        assert forall|j: int| 0 <= j < alen implies a@.subrange(af as int, at as int)[j]
            == b@.subrange(bf as int, bt as int)[j] by {
            assert(a@[af + j] == b@[bf + j]);
        }
        assert(a@.subrange(af as int, at as int) =~= b@.subrange(bf as int, bt as int));
    }
    true
}

/// The needle occurs in the haystack at position `i`.
pub open spec fn occurs_at(hay: Seq<char>, needle: Seq<char>, i: int) -> bool {
    &&& 0 <= i
    &&& i + needle.len() <= hay.len()
    &&& hay.subrange(i, i + needle.len()) == needle
}

pub open spec fn contains_seq(hay: Seq<char>, needle: Seq<char>) -> bool {
    exists|i: int| occurs_at(hay, needle, i)
}

/// Leftmost occurrence of the needle at or after `from`, if any.
#[verifier::loop_isolation(false)]
pub fn find_from(hay: &Vec<char>, needle: &Vec<char>, from: usize) -> (r: Option<usize>)
    ensures
        match r {
            Some(i) => from <= i && occurs_at(hay@, needle@, i as int) && forall|j: int|
                from <= j < i ==> !occurs_at(hay@, needle@, j),
            None => forall|j: int| from <= j ==> !occurs_at(hay@, needle@, j),
        },
{
    if needle.len() == 0 {
        if from <= hay.len() {
            assert(occurs_at(hay@, needle@, from as int)) by {
                assert(hay@.subrange(from as int, from as int) =~= needle@);
            }
            return Some(from);
        } else {
            return None;
        }
    }
    if needle.len() > hay.len() {
        return None;
    }
    let last = hay.len() - needle.len();
    if from > last {
        return None;
    }
    let mut i: usize = from;
    while i <= last
        invariant
            needle@.len() <= hay@.len(),
            last == hay@.len() - needle@.len(),
            from <= i <= last + 1,
            forall|j: int| from <= j < i ==> !occurs_at(hay@, needle@, j),
        decreases last + 1 - i,
    {
        if subrange_eq(hay, i, i + needle.len(), needle, 0, needle.len()) {
            proof {
                assert(needle@.subrange(0, needle@.len() as int) =~= needle@);
            }
            return Some(i);
        }
        proof {
            assert(needle@.subrange(0, needle@.len() as int) =~= needle@);
        }
        i += 1;
    }
    None
}

pub fn contains_chars(hay: &Vec<char>, needle: &Vec<char>) -> (r: bool)
    ensures
        r == contains_seq(hay@, needle@),
{
    find_from(hay, needle, 0).is_some()
}

pub fn starts_with_chars(v: &Vec<char>, p: &Vec<char>) -> (r: bool)
    ensures
        r == (p@.len() <= v@.len() && v@.take(p@.len() as int) == p@),
{
    if p.len() > v.len() {
        return false;
    }
    let r = subrange_eq(v, 0, p.len(), p, 0, p.len());
    proof {
        assert(v@.subrange(0, p@.len() as int) =~= v@.take(p@.len() as int));
        assert(p@.subrange(0, p@.len() as int) =~= p@);
    }
    r
}

pub fn ends_with_chars(v: &Vec<char>, p: &Vec<char>) -> (r: bool)
    ensures
        r == (p@.len() <= v@.len() && v@.skip(v@.len() - p@.len()) == p@),
{
    if p.len() > v.len() {
        return false;
    }
    let r = subrange_eq(v, v.len() - p.len(), v.len(), p, 0, p.len());
    proof {
        assert(v@.subrange(v@.len() - p@.len(), v@.len() as int) =~= v@.skip(v@.len() - p@.len()));
        assert(p@.subrange(0, p@.len() as int) =~= p@);
    }
    r
}

/// The lowercase form that str::to_lowercase assigns to a string; a fixed
/// function of the characters alone.
pub uninterp spec fn lower_of(s: Seq<char>) -> Seq<char>;

/// Relies on str::to_lowercase: the result depends on the characters alone.
#[verifier::external_body]
pub(crate) fn lowercase(s: &str) -> (r: String)
    ensures
        r@ == lower_of(s@),
{
    s.to_lowercase()
}

/// Length of the run without a line break starting at `i`.
pub open spec fn count_line(s: Seq<char>, i: int) -> nat
    decreases s.len() - i,
{
    if 0 <= i < s.len() && s[i] != '\n' {
        1 + count_line(s, i + 1)
    } else {
        0
    }
}

/// A line with one trailing carriage return removed.
pub open spec fn strip_cr(line: Seq<char>) -> Seq<char> {
    if line.len() > 0 && line.last() == '\r' {
        line.drop_last()
    } else {
        line
    }
}

/// The lines of the text from position `i` on, split at newlines, each
/// without its line break; a trailing newline opens no extra empty line.
pub open spec fn lines_from(s: Seq<char>, i: int) -> Seq<Seq<char>>
    decreases s.len() - i,
{
    if !(0 <= i < s.len()) {
        Seq::<Seq<char>>::empty()
    } else {
        let l = count_line(s, i);
        seq![strip_cr(s.subrange(i, i + l))] + if i + l < s.len() {
            lines_from(s, i + l + 1)
        } else {
            Seq::<Seq<char>>::empty()
        }
    }
}

pub open spec fn lines_of(s: Seq<char>) -> Seq<Seq<char>> {
    lines_from(s, 0)
}

fn count_line_exec(v: &Vec<char>, i: usize) -> (r: usize)
    requires
        i <= v@.len(),
    ensures
        r == count_line(v@, i as int),
        i + r <= v@.len(),
    decreases v@.len() - i,
{
    if i < v.len() && v[i] != '\n' {
        1 + count_line_exec(v, i + 1)
    } else {
        0
    }
}

fn split_lines_rec<'a>(s: &'a str, v: &Vec<char>, pos: usize) -> (r: Vec<&'a str>)
    requires
        v@ == s@,
        pos <= v@.len(),
    ensures
        r@.map(|k: int, l: &str| l@) == lines_from(s@, pos as int),
    decreases v@.len() - pos,
{
    if pos >= v.len() {
        let out: Vec<&'a str> = Vec::new();
        proof {
            assert(out@.map(|k: int, l: &str| l@) =~= lines_from(s@, pos as int));
        }
        return out;
    }
    let l = count_line_exec(v, pos);
    let en = pos + l;
    let line_end = if l > 0 && v[en - 1] == '\r' {
        en - 1
    } else {
        en
    };
    let line: &'a str = s.substring_char(pos, line_end);
    proof {
        let sl = v@.subrange(pos as int, en as int);
        if l > 0 && v@[en - 1] == '\r' {
            assert(sl.last() == v@[en - 1]);
            assert(sl.drop_last() =~= v@.subrange(pos as int, en - 1));
        }
        assert(line@ == strip_cr(sl));
    }
    let mut rest: Vec<&'a str> = if en < v.len() {
        split_lines_rec(s, v, en + 1)
    } else {
        Vec::new()
    };
    let mut out: Vec<&'a str> = Vec::new();
    out.push(line);
    out.append(&mut rest);
    proof {
        assert(out@.map(|k: int, l2: &str| l2@) =~= lines_from(s@, pos as int));
    }
    out
}

/// The lines of a text, as borrowed slices of it.
pub fn split_lines<'a>(contents: &'a str) -> (r: Vec<&'a str>)
    ensures
        r@.map(|k: int, l: &str| l@) == lines_of(contents@),
{
    let v = to_chars(contents);
    split_lines_rec(contents, &v, 0)
}

/// Concatenation of two string slices.
pub fn concat_str(a: &str, b: &str) -> (r: String)
    ensures
        r@ == a@ + b@,
{
    a.to_owned().concat(b)
}

/// Index of the last occurrence of the character `c`, if any.
pub open spec fn rfind_char(s: Seq<char>, c: char) -> Option<int>
    decreases s.len(),
{
    if s.len() == 0 {
        None
    } else if s[s.len() - 1] == c {
        Some(s.len() - 1)
    } else {
        rfind_char(s.drop_last(), c)
    }
}

pub proof fn lemma_rfind_char_extend(x: Seq<char>, c: char, e: Seq<char>)
    requires
        forall|i: int| 0 <= i < e.len() ==> #[trigger] e[i] != c,
    ensures
        rfind_char(x + seq![c] + e, c) == Some(x.len() as int),
    decreases e.len(),
{
    let s = x + seq![c] + e;
    if e.len() == 0 {
        assert(s.len() == x.len() + 1);
        assert(s[s.len() - 1] == c);
    } else {
        assert(s[s.len() - 1] == e[e.len() - 1]);
        assert(s[s.len() - 1] != c);
        assert(s.drop_last() =~= x + seq![c] + e.drop_last());
        lemma_rfind_char_extend(x, c, e.drop_last());
    }
}

pub proof fn lemma_rfind_char_props(s: Seq<char>, c: char)
    ensures
        match rfind_char(s, c) {
            Some(i) => 0 <= i < s.len() && s[i] == c && (forall|j: int|
                i < j < s.len() ==> s[j] != c),
            None => forall|j: int| 0 <= j < s.len() ==> s[j] != c,
        },
    decreases s.len(),
{
    if s.len() == 0 {
    } else if s[s.len() - 1] == c {
    } else {
        lemma_rfind_char_props(s.drop_last(), c);
        let t = s.drop_last();
        match rfind_char(t, c) {
            Some(i) => {
                assert(s[i] == t[i]);
                assert forall|j: int| i < j < s.len() implies s[j] != c by {
                    if j < t.len() {
                        assert(s[j] == t[j]);
                    }
                }
            }
            None => {
                assert forall|j: int| 0 <= j < s.len() implies s[j] != c by {
                    if j < t.len() {
                        assert(s[j] == t[j]);
                    }
                }
            }
        }
    }
}

pub fn find_last_char(v: &Vec<char>, c: char) -> (r: Option<usize>)
    ensures
        rfind_char(v@, c) == match r {
            Some(i) => Some(i as int),
            None => None,
        },
{
    let mut i: usize = v.len();
    assert(v@.take(i as int) =~= v@);
    while i > 0
        invariant
            i <= v@.len(),
            rfind_char(v@, c) == rfind_char(v@.take(i as int), c),
        decreases i,
    {
        if v[i - 1] == c {
            assert(v@.take(i as int)[i - 1] == v@[i - 1]);
            return Some(i - 1);
        }
        assert(v@.take(i as int).drop_last() =~= v@.take(i - 1));
        i -= 1;
    }
    assert(v@.take(0) =~= Seq::<char>::empty());
    None
}

} // verus!
