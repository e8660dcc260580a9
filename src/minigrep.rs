//! Line search over a text: the lines that contain a query, with or without
//! regard to case, and the command-line configuration that selects between them.
use vstd::prelude::*;

verus! {

/// Whether `pat` occurs in `text` as a contiguous run of characters.
pub open spec fn has_substring(text: Seq<char>, pat: Seq<char>) -> bool {
    exists|i: int|
        0 <= i && i + pat.len() <= text.len() && #[trigger] text.subrange(i, i + pat.len()) == pat
}

/// Relies on str::chars: it yields the characters of the string, in order.
#[verifier::external_body]
fn chars_of(s: &str) -> (r: Vec<char>)
    ensures
        r@ == s@,
{
    s.chars().collect()
}

fn matches_at(text: &Vec<char>, pat: &Vec<char>, i: usize) -> (r: bool)
    requires
        i + pat@.len() <= text@.len(),
    ensures
        r == (text@.subrange(i as int, i + pat@.len()) == pat@),
{
    let len = text.len();
    let mut j: usize = 0;
    while j < pat.len()
        invariant
            len == text@.len(),
            i + pat@.len() <= text@.len(),
            j <= pat@.len(),
            forall|k: int| 0 <= k < j ==> text@[i + k] == pat@[k],
        decreases pat@.len() - j,
    {
        if text[i + j] != pat[j] {
            assert(text@.subrange(i as int, i + pat@.len())[j as int] != pat@[j as int]);
            return false;
        }
        j = j + 1;
    }
    assert(text@.subrange(i as int, i + pat@.len()) =~= pat@);
    true
}

/// Whether `pattern` occurs in `text`.
pub fn contains(text: &str, pattern: &str) -> (r: bool)
    ensures
        r == has_substring(text@, pattern@),
{
    let t = chars_of(text);
    let p = chars_of(pattern);
    if p.len() > t.len() {
        return false;
    }
    let last = t.len() - p.len();
    let mut i: usize = 0;
    loop
        invariant
            t@ == text@,
            p@ == pattern@,
            last == t@.len() - p@.len(),
            i <= last,
            forall|k: int| 0 <= k < i ==> #[trigger] t@.subrange(k, k + p@.len()) != p@,
        decreases last - i,
    {
        if matches_at(&t, &p, i) {
            return true;
        }
        if i == last {
            return false;
        }
        i = i + 1;
    }
}


/// Where the line that starts at `i` ends: the index of the next '\n' at or
/// after `i`, or the length of `s` when there is none.
pub open spec fn line_end(s: Seq<char>, i: int) -> int
    decreases s.len() - i,
{
    if i < 0 || i >= s.len() || s[i] == '\n' {
        i
    } else {
        line_end(s, i + 1)
    }
}

pub proof fn lemma_line_end_bounds(s: Seq<char>, i: int)
    requires
        0 <= i <= s.len(),
    ensures
        i <= line_end(s, i) <= s.len(),
        line_end(s, i) < s.len() ==> s[line_end(s, i)] == '\n',
    decreases s.len() - i,
{
    if i < s.len() && s[i] != '\n' {
        lemma_line_end_bounds(s, i + 1);
    }
}

/// The lines of `s` from index `i` on. A line ends at '\n', which is not part
/// of it, and so does a '\r' just before that '\n'; a final '\n' opens no
/// further line.
pub open spec fn lines_from(s: Seq<char>, i: int) -> Seq<Seq<char>>
    decreases s.len() + 1 - i,
{
    if i < 0 || i >= s.len() {
        Seq::empty()
    } else {
        proof {
            lemma_line_end_bounds(s, i);
        }
        let e = line_end(s, i);
        let raw = s.subrange(i, e);
        let line = if e < s.len() && raw.len() > 0 && raw.last() == '\r' {
            raw.drop_last()
        } else {
            raw
        };
        seq![line] + lines_from(s, e + 1)
    }
}

/// The lines of `s`.
pub open spec fn lines_of(s: Seq<char>) -> Seq<Seq<char>> {
    lines_from(s, 0)
}

/// The text of each string of `v`.
pub open spec fn views_of(v: Seq<String>) -> Seq<Seq<char>> {
    v.map_values(|l: String| l@)
}

/// The lines of `s`, each as a string of its own.
pub fn split_lines(s: &str) -> (r: Vec<String>)
    ensures
        views_of(r@) == lines_of(s@),
{
    let cs = chars_of(s);
    let n = cs.len();
    let mut out: Vec<String> = Vec::new();
    let mut start: usize = 0;
    while start < n
        invariant
            cs@ == s@,
            n == s@.len(),
            start <= n,
            views_of(out@) + lines_from(s@, start as int) == lines_of(s@),
        decreases n - start,
    {
        let mut e: usize = start;
        while e < n && cs[e] != '\n'
            invariant
                cs@ == s@,
                n == s@.len(),
                start <= e <= n,
                line_end(s@, start as int) == line_end(s@, e as int),
            decreases n - e,
        {
            e = e + 1;
        }
        let mut end: usize = e;
        if e < n && end > start && cs[end - 1] == '\r' {
            end = end - 1;
        }
        let line = String::from_str(s.substring_char(start, end));
        let ghost rest = lines_from(s@, e + 1);
        proof {
            let raw = s@.subrange(start as int, e as int);
            if e < n && raw.len() > 0 && raw.last() == '\r' {
                assert(line@ =~= raw.drop_last());
            } else {
                assert(line@ =~= raw);
            }
            assert(lines_from(s@, start as int) == seq![line@] + rest);
            assert(views_of(out@.push(line)) =~= views_of(out@).push(line@));
            assert(views_of(out@.push(line)) + rest =~= views_of(out@) + (seq![line@] + rest));
        }
        out.push(line);
        if e == n {
            start = n;
        } else {
            start = e + 1;
        }
    }
    assert(views_of(out@) + lines_from(s@, start as int) =~= views_of(out@));
    out
}


/// The characters that Unicode gives the White_Space property.
pub open spec fn is_white_space(c: char) -> bool {
    let u = c as u32;
    ||| 0x9 <= u <= 0xd
    ||| u == 0x20
    ||| u == 0x85
    ||| u == 0xa0
    ||| u == 0x1680
    ||| 0x2000 <= u <= 0x200a
    ||| u == 0x2028
    ||| u == 0x2029
    ||| u == 0x202f
    ||| u == 0x205f
    ||| u == 0x3000
}

/// How many white-space characters `s` starts with.
pub open spec fn leading_white(s: Seq<char>) -> nat
    decreases s.len(),
{
    if s.len() > 0 && is_white_space(s[0]) {
        1 + leading_white(s.drop_first())
    } else {
        0
    }
}

/// How many white-space characters `s` ends with.
pub open spec fn trailing_white(s: Seq<char>) -> nat
    decreases s.len(),
{
    if s.len() > 0 && is_white_space(s.last()) {
        1 + trailing_white(s.drop_last())
    } else {
        0
    }
}

/// `s` without its leading and trailing white space.
pub open spec fn trimmed(s: Seq<char>) -> Seq<char> {
    if leading_white(s) >= s.len() {
        Seq::empty()
    } else {
        s.subrange(leading_white(s) as int, s.len() - trailing_white(s))
    }
}

/// Relies on str::trim: it removes the leading and trailing characters that
/// have the Unicode White_Space property.
#[verifier::external_body]
fn trim(s: &str) -> (r: String)
    ensures
        r@ == trimmed(s@),
{
    s.trim().to_string()
}

/// What `s` becomes under Unicode lowercase mapping; it depends on `s` alone.
pub uninterp spec fn lower_of(s: Seq<char>) -> Seq<char>;

/// Relies on str::to_lowercase: the Unicode lowercase mapping of the string.
#[verifier::external_body]
fn to_lowercase(s: &str) -> (r: String)
    ensures
        r@ == lower_of(s@),
{
    s.to_lowercase()
}

/// The lines of `ls` that contain `query`, trimmed, in order.
pub open spec fn select_lines(ls: Seq<Seq<char>>, query: Seq<char>) -> Seq<Seq<char>>
    decreases ls.len(),
{
    if ls.len() == 0 {
        Seq::empty()
    } else {
        let before = select_lines(ls.drop_last(), query);
        if has_substring(ls.last(), query) {
            before.push(trimmed(ls.last()))
        } else {
            before
        }
    }
}

/// The lines of `ls` whose lowercase form contains `lower_query`, trimmed, in order.
pub open spec fn select_lines_folded(ls: Seq<Seq<char>>, lower_query: Seq<char>) -> Seq<Seq<char>>
    decreases ls.len(),
{
    if ls.len() == 0 {
        Seq::empty()
    } else {
        let before = select_lines_folded(ls.drop_last(), lower_query);
        if has_substring(lower_of(ls.last()), lower_query) {
            before.push(trimmed(ls.last()))
        } else {
            before
        }
    }
}

/// The lines of `contents` that contain `query`, trimmed.
pub fn search(query: &str, contents: &str) -> (r: Vec<String>)
    ensures
        views_of(r@) == select_lines(lines_of(contents@), query@),
{
    let lines = split_lines(contents);
    let ghost ls = views_of(lines@);
    let mut out: Vec<String> = Vec::new();
    let mut i: usize = 0;
    while i < lines.len()
        invariant
            ls == views_of(lines@),
            i <= lines@.len(),
            views_of(out@) == select_lines(ls.take(i as int), query@),
        decreases lines@.len() - i,
    {
        let line = lines[i].as_str();
        let ghost before = out@;
        if contains(line, query) {
            out.push(trim(line));
            assert(views_of(out@) =~= views_of(before).push(out@.last()@));
        }
        assert(ls.take(i + 1).drop_last() =~= ls.take(i as int));
        i = i + 1;
    }
    assert(ls.take(i as int) =~= ls);
    out
}

/// The lines of `contents` that contain `query` when both are lowercased, trimmed.
pub fn search_case_insensitive(query: &str, contents: &str) -> (r: Vec<String>)
    ensures
        views_of(r@) == select_lines_folded(lines_of(contents@), lower_of(query@)),
{
    let query = to_lowercase(query);
    let lines = split_lines(contents);
    let ghost ls = views_of(lines@);
    let mut out: Vec<String> = Vec::new();
    let mut i: usize = 0;
    while i < lines.len()
        invariant
            ls == views_of(lines@),
            i <= lines@.len(),
            views_of(out@) == select_lines_folded(ls.take(i as int), query@),
        decreases lines@.len() - i,
    {
        let line = lines[i].as_str();
        let ghost before = out@;
        let lowered = to_lowercase(line);
        if contains(lowered.as_str(), query.as_str()) {
            out.push(trim(line));
            assert(views_of(out@) =~= views_of(before).push(out@.last()@));
        }
        assert(ls.take(i + 1).drop_last() =~= ls.take(i as int));
        i = i + 1;
    }
    assert(ls.take(i as int) =~= ls);
    out
}


/// What to search for, where, and whether case matters.
pub struct Config {
    pub query: String,
    pub filename: String,
    pub case_sensitive: bool,
}

impl Config {
    /// Reads the configuration from the command line `args`, whose first entry
    /// is the program's own name: the query comes next, then the file name;
    /// later entries are ignored. `case_insensitive` tells whether the user
    /// asked for a search without regard to case.
    pub fn new(args: Vec<String>, case_insensitive: bool) -> (r: Result<Config, &'static str>)
        ensures
            args@.len() < 2 ==> (r matches Err(e) && e@ == "Didn't get a query string"@),
            args@.len() == 2 ==> (r matches Err(e) && e@ == "Didn't get a file name"@),
            args@.len() > 2 ==> (r matches Ok(c) && c.query@ == args@[1]@ && c.filename@
                == args@[2]@ && c.case_sensitive == !case_insensitive),
    {
        if args.len() < 2 {
            return Err("Didn't get a query string");
        }
        if args.len() < 3 {
            return Err("Didn't get a file name");
        }
        let query = args[1].clone();
        let filename = args[2].clone();
        Ok(Config { query, filename, case_sensitive: !case_insensitive })
    }

    /// The lines of `contents` that match the query, trimmed: with regard to
    /// case when the search is case sensitive, else after lowercasing both.
    pub fn matching_lines(&self, contents: &str) -> (r: Vec<String>)
        ensures
            self.case_sensitive ==> views_of(r@) == select_lines(lines_of(contents@), self.query@),
            !self.case_sensitive ==> views_of(r@) == select_lines_folded(
                lines_of(contents@),
                lower_of(self.query@),
            ),
    {
        if self.case_sensitive {
            search(self.query.as_str(), contents)
        } else {
            search_case_insensitive(self.query.as_str(), contents)
        }
    }
}

} // verus!
