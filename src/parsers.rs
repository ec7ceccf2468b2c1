//! The grammar of a heading line: marker prefix, TODO word, priority, title
//! and trailing tag block; and of a `:KEY: value` property line.
use vstd::prelude::*;

use crate::header::{OrgHeader, OrgPriority, OrgTodo};
use crate::parser::index_from;
use crate::query::lemma_index_from_bounds;
use crate::searcher::{header_at, line_views, props_at, read_header, read_props};
use crate::text::{alphanumeric, chars_of, string_of, trim, trimmed, uppercase};

pub use crate::datetime::{date_time_range, org_date_time};

verus! {

/// Number of copies of `m` that `s` holds from position `i` on.
pub open spec fn marker_run(s: Seq<char>, m: char, i: int) -> int
    decreases s.len() - i,
{
    if 0 <= i < s.len() && s[i] == m {
        marker_run(s, m, i + 1)
    } else {
        i
    }
}

/// Depth of a heading line: one or more markers `m` at the start, then a space.
pub open spec fn header_depth(s: Seq<char>, m: char) -> Option<nat> {
    let n = marker_run(s, m, 0);
    if 1 <= n < s.len() && s[n] == ' ' {
        Some(n as nat)
    } else {
        None
    }
}

/// Start of the run of alphanumeric characters that ends at `j`, looking no
/// further left than `lo`.
pub open spec fn alnum_run_start(s: Seq<char>, lo: int, j: int) -> int
    decreases j - lo,
{
    if lo < j && j <= s.len() && alphanumeric(s[j - 1]) {
        alnum_run_start(s, lo, j - 1)
    } else {
        j
    }
}

/// Start of the longest block `:tag:...:tag` that ends at position `j`.
pub open spec fn block_start(s: Seq<char>, lo: int, j: int) -> int
    decreases j - lo,
{
    let k = alnum_run_start(s, lo, j);
    if lo < k < j && s[k - 1] == ':' {
        block_start(s, lo, k - 1)
    } else {
        j
    }
}

/// Where the trailing tag block `:tag1:tag2:...:` of `s[lo..]` begins (the
/// length of `s` when there is none).
pub open spec fn tags_start(s: Seq<char>, lo: int) -> int {
    let e = s.len() - 1;
    if lo < s.len() && s[e] == ':' && block_start(s, lo, e) < e {
        block_start(s, lo, e)
    } else {
        s.len() as int
    }
}

/// First position in `[i, e)` that holds a colon, or `e`.
pub open spec fn colon_from(s: Seq<char>, i: int, e: int) -> int
    decreases e - i,
{
    if i < e && s[i] != ':' {
        colon_from(s, i + 1, e)
    } else {
        i
    }
}

/// The pieces of `s[i..e]` between colons.
pub open spec fn split_colons(s: Seq<char>, i: int, e: int) -> Seq<Seq<char>>
    decreases e + 1 - i,
{
    if i >= e {
        Seq::empty()
    } else {
        let k = colon_from(s, i, e);
        if k < i || k > e {
            Seq::empty()
        } else {
            seq![s.subrange(i, k)] + split_colons(s, k + 1, e)
        }
    }
}

/// The tags of the trailing tag block of `s[lo..]`, in the order written.
pub open spec fn tags_of(s: Seq<char>, lo: int) -> Seq<Seq<char>> {
    let t = tags_start(s, lo);
    if t < s.len() {
        split_colons(s, t + 1, s.len() - 1)
    } else {
        Seq::empty()
    }
}

/// The views of a vector of strings.
pub open spec fn views(v: Seq<String>) -> Seq<Seq<char>> {
    v.map_values(|t: String| t@)
}

fn find_block_start(s: &Vec<char>, lo: usize, j0: usize) -> (r: usize)
    requires
        lo <= j0 < s@.len(),
    ensures
        r == block_start(s@, lo as int, j0 as int),
        lo <= r <= j0,
{
    let mut j = j0;
    loop
        invariant
            lo <= j <= j0 < s@.len(),
            block_start(s@, lo as int, j as int) == block_start(s@, lo as int, j0 as int),
        decreases j,
    {
        let mut k = j;
        while k > lo && s[k - 1].is_alphanumeric()
            invariant
                lo <= k <= j < s@.len(),
                alnum_run_start(s@, lo as int, k as int) == alnum_run_start(s@, lo as int, j as int),
            decreases k,
        {
            k = k - 1;
        }
        if lo < k && k < j && s[k - 1] == ':' {
            j = k - 1;
        } else {
            return j;
        }
    }
}

fn split_tags(s: &Vec<char>, i0: usize, e: usize) -> (r: Vec<String>)
    requires
        i0 <= e,
        e < s@.len(),
    ensures
        views(r@) == split_colons(s@, i0 as int, e as int),
{
    let mut r: Vec<String> = Vec::new();
    let n = s.len();
    let mut i = i0;
    assert(views(r@) == Seq::<Seq<char>>::empty());
    while i < e
        invariant
            i <= e + 1,
            e < n,
            n == s@.len(),
            split_colons(s@, i0 as int, e as int) == views(r@) + split_colons(s@, i as int, e as int),
        decreases e + 1 - i,
    {
        let mut k = i;
        while k < e && s[k] != ':'
            invariant
                i <= k <= e < n,
                n == s@.len(),
                colon_from(s@, i as int, e as int) == colon_from(s@, k as int, e as int),
            decreases e - k,
        {
            k = k + 1;
        }
        let t = string_of(s.as_slice(), i, k);
        proof {
            assert(views(r@.push(t)) == views(r@).push(t@));
        }
        r.push(t);
        i = k + 1;
    }
    r
}

/// Splits `s[lo..]` at its trailing tag block: the tags, and where the block
/// begins.
pub fn tags_split(s: &Vec<char>, lo: usize) -> (r: (Vec<String>, usize))
    requires
        lo <= s@.len(),
    ensures
        views(r.0@) == tags_of(s@, lo as int),
        r.1 == tags_start(s@, lo as int),
        lo <= r.1 <= s@.len(),
{
    let n = s.len();
    if lo < n && s[n - 1] == ':' {
        let b = find_block_start(s, lo, n - 1);
        if b < n - 1 {
            let tags = split_tags(s, b + 1, n - 1);
            return (tags, b);
        }
    }
    (Vec::new(), n)
}

/// Splits `line` at its trailing tag block `:tag1:tag2:...:`: the tags in the
/// order written, and the text before the block.
pub fn org_tags(line: &str) -> (r: (Vec<String>, String))
    ensures
        views(r.0@) == tags_of(line@, 0),
        r.1@ == line@.subrange(0, tags_start(line@, 0)),
{
    let s = chars_of(line);
    let (tags, b) = tags_split(&s, 0);
    let rest = string_of(s.as_slice(), 0, b);
    (tags, rest)
}

/// End of the run of characters with `class` that starts at `i`, looking no
/// further right than `e`.
pub open spec fn run_end(s: Seq<char>, i: int, e: int, class: spec_fn(char) -> bool) -> int
    decreases e - i,
{
    if 0 <= i < e && i < s.len() && class(s[i]) {
        run_end(s, i + 1, e, class)
    } else {
        i
    }
}

/// A space character.
pub open spec fn is_space(c: char) -> bool {
    c == ' '
}

/// `TODO`.
pub open spec fn todo_keyword() -> Seq<char> {
    seq!['T', 'O', 'D', 'O']
}

/// `DONE`.
pub open spec fn done_keyword() -> Seq<char> {
    seq!['D', 'O', 'N', 'E']
}

/// The TODO state that word `w` names, as [`OrgTodo::view`] gives it.
pub open spec fn todo_of_word(w: Seq<char>) -> (int, Seq<char>) {
    if w == todo_keyword() {
        (0, Seq::empty())
    } else if w == done_keyword() {
        (1, Seq::empty())
    } else {
        (2, w)
    }
}

/// A TODO word at `lo` (one or more upper-case letters, then a space) and the
/// position after its space; no word and `lo` otherwise.
pub open spec fn todo_at(s: Seq<char>, lo: int, e: int) -> (Option<(int, Seq<char>)>, int) {
    let k = run_end(s, lo, e, |c: char| uppercase(c));
    if lo < k < e && s[k] == ' ' {
        (Some(todo_of_word(s.subrange(lo, k))), k + 1)
    } else {
        (None, lo)
    }
}

/// A priority `[#X]` at `i` (X alphanumeric, possibly empty) and the position
/// after it; none and `i` otherwise.
pub open spec fn priority_at(s: Seq<char>, i: int, e: int) -> (Option<Seq<char>>, int) {
    if 0 <= i && i + 1 < e && e <= s.len() && s[i] == '[' && s[i + 1] == '#' {
        let k = run_end(s, i + 2, e, |c: char| alphanumeric(c));
        if k < e && s[k] == ']' {
            (Some(s.subrange(i + 2, k)), k + 1)
        } else {
            (None, i)
        }
    } else {
        (None, i)
    }
}

/// The TODO word, the priority, and where the title begins, in `s[lo..e]`.
pub open spec fn todo_priority(s: Seq<char>, lo: int, e: int) -> (Option<(int, Seq<char>)>, Option<Seq<char>>, int) {
    let (t, p1) = todo_at(s, lo, e);
    let p2 = run_end(s, p1, e, |c: char| is_space(c));
    let (pr, p3) = priority_at(s, p2, e);
    (t, pr, run_end(s, p3, e, |c: char| is_space(c)))
}

/// What a heading line holds.
pub struct HeaderLine {
    pub depth: nat,
    pub content: Seq<char>,
    pub tags: Seq<Seq<char>>,
    pub todo: Option<(int, Seq<char>)>,
    pub priority: Option<Seq<char>>,
}

/// The heading that line `s` is, with marker `m`: the depth, then after the
/// prefix an optional TODO word, an optional priority, the title (trimmed) and
/// an optional trailing tag block.
pub open spec fn header_line(s: Seq<char>, m: char) -> Option<HeaderLine> {
    match header_depth(s, m) {
        None => None,
        Some(n) => {
            let lo = n + 1int;
            let e = tags_start(s, lo);
            let (t, pr, p) = todo_priority(s, lo, e);
            Some(
                HeaderLine {
                    depth: n,
                    content: trim(s.subrange(p, e)),
                    tags: tags_of(s, lo),
                    todo: t,
                    priority: pr,
                },
            )
        },
    }
}

fn spaces_end(s: &Vec<char>, i: usize, e: usize) -> (r: usize)
    requires
        i <= e <= s@.len(),
    ensures
        r == run_end(s@, i as int, e as int, |c: char| is_space(c)),
        i <= r <= e,
{
    let mut k = i;
    while k < e && s[k] == ' '
        invariant
            i <= k <= e <= s@.len(),
            run_end(s@, i as int, e as int, |c: char| is_space(c)) == run_end(s@, k as int, e as int, |c: char| is_space(c)),
        decreases e - k,
    {
        k = k + 1;
    }
    k
}

fn same_chars(s: &Vec<char>, lo: usize, hi: usize, w: &Vec<char>) -> (r: bool)
    requires
        lo <= hi <= s@.len(),
    ensures
        r == (s@.subrange(lo as int, hi as int) == w@),
{
    if hi - lo != w.len() {
        return false;
    }
    let mut k: usize = 0;
    while k < w.len()
        invariant
            lo <= hi <= s@.len(),
            hi - lo == w@.len(),
            k <= w@.len(),
            forall|j: int| 0 <= j < k ==> s@[lo + j] == w@[j],
        decreases w@.len() - k,
    {
        if s[lo + k] != w[k] {
            assert(s@.subrange(lo as int, hi as int)[k as int] != w@[k as int]);
            return false;
        }
        k = k + 1;
    }
    assert(s@.subrange(lo as int, hi as int) == w@);
    true
}

/// The TODO word, the priority and where the title begins, in `s[lo..e]`.
pub fn todo_and_priority(s: &Vec<char>, lo: usize, e: usize) -> (r: (Option<OrgTodo>, Option<OrgPriority>, usize))
    requires
        lo <= e <= s@.len(),
    ensures
        ({
            let (t, pr, p) = todo_priority(s@, lo as int, e as int);
            &&& r.2 == p
            &&& lo <= p <= e
            &&& match r.0 {
                Some(x) => t == Some(x.view()),
                None => t is None,
            }
            &&& match r.1 {
                Some(x) => pr == Some(x.0@),
                None => pr is None,
            }
        }),
{
    let mut k = lo;
    while k < e && s[k].is_uppercase()
        invariant
            lo <= k <= e <= s@.len(),
            run_end(s@, lo as int, e as int, |c: char| uppercase(c)) == run_end(s@, k as int, e as int, |c: char| uppercase(c)),
        decreases e - k,
    {
        k = k + 1;
    }
    let (todo, p1) = if lo < k && k < e && s[k] == ' ' {
        let todo_w = vec!['T', 'O', 'D', 'O'];
        let done_w = vec!['D', 'O', 'N', 'E'];
        assert(todo_w@ == todo_keyword());
        assert(done_w@ == done_keyword());
        let t = if same_chars(s, lo, k, &todo_w) {
            OrgTodo::TODO
        } else if same_chars(s, lo, k, &done_w) {
            OrgTodo::DONE
        } else {
            OrgTodo::Other(string_of(s.as_slice(), lo, k))
        };
        (Some(t), k + 1)
    } else {
        (None, lo)
    };
    let p2 = spaces_end(s, p1, e);
    let mut pr: Option<OrgPriority> = None;
    let mut p3 = p2;
    if p2 < e && e - p2 > 1 && s[p2] == '[' && s[p2 + 1] == '#' {
        let mut k = p2 + 2;
        while k < e && s[k].is_alphanumeric()
            invariant
                p2 + 2 <= k <= e <= s@.len(),
                run_end(s@, p2 + 2, e as int, |c: char| alphanumeric(c)) == run_end(s@, k as int, e as int, |c: char| alphanumeric(c)),
            decreases e - k,
        {
            k = k + 1;
        }
        if k < e && s[k] == ']' {
            pr = Some(OrgPriority(string_of(s.as_slice(), p2 + 2, k)));
            p3 = k + 1;
        }
    }
    let p = spaces_end(s, p3, e);
    (todo, pr, p)
}

/// Reads the TODO word and the priority that `s` begins with: the two, and
/// the text after them.
pub fn org_todo(s: &str) -> (r: ((Option<OrgTodo>, Option<OrgPriority>), String))
    ensures
        ({
            let (t, pr, p) = todo_priority(s@, 0, s@.len() as int);
            &&& r.1@ == s@.subrange(p, s@.len() as int)
            &&& match r.0.0 {
                Some(x) => t == Some(x.view()),
                None => t is None,
            }
            &&& match r.0.1 {
                Some(x) => pr == Some(x.0@),
                None => pr is None,
            }
        }),
{
    let cs = chars_of(s);
    let (t, pr, p) = todo_and_priority(&cs, 0, cs.len());
    ((t, pr), string_of(cs.as_slice(), p, cs.len()))
}

/// Depth of heading line `s` with marker `m`: one or more markers, then a space.
pub fn header_prefix(s: &Vec<char>, m: char) -> (r: Option<usize>)
    ensures
        match header_depth(s@, m) {
            Some(n) => r == Some(n as usize) && n < s@.len(),
            None => r is None,
        },
{
    let mut n: usize = 0;
    while n < s.len() && s[n] == m
        invariant
            n <= s@.len(),
            marker_run(s@, m, 0) == marker_run(s@, m, n as int),
        decreases s@.len() - n,
    {
        n = n + 1;
    }
    if 1 <= n && n < s.len() && s[n] == ' ' {
        Some(n)
    } else {
        None
    }
}

/// Depth of an outline heading line: one or more `*`, then a space.
pub fn org_header_prefix(line: &str) -> (r: Option<usize>)
    ensures
        match header_depth(line@, '*') {
            Some(n) => r == Some(n as usize),
            None => r is None,
        },
{
    let s = chars_of(line);
    header_prefix(&s, '*')
}

/// Reads heading line `s` with marker `m`, found on line `line`; no timestamp
/// or properties yet.
pub fn parse_header_line(s: &Vec<char>, m: char, line: usize) -> (r: Option<OrgHeader>)
    ensures
        match header_line(s@, m) {
            Some(h) => r matches Some(x) && {
                let v = x.view();
                &&& v.line == line
                &&& v.depth == h.depth
                &&& v.content == h.content
                &&& v.tags == h.tags
                &&& v.todo == h.todo
                &&& v.priority == h.priority
                &&& v.properties.len() == 0
                &&& v.datetime is None
            },
            None => r is None,
        },
{
    // `n + 1` below stays within `usize`: `n` is below this length.
    let slen = s.len();
    let n = match header_prefix(s, m) {
        Some(n) => n,
        None => return None,
    };
    assert(n < slen);
    let lo = n + 1;
    let (tags, e) = tags_split(s, lo);
    let (todo, priority, p) = todo_and_priority(s, lo, e);
    let content = trimmed(s.as_slice(), p, e);
    let properties: Vec<(String, String)> = Vec::new();
    let r = OrgHeader { line, depth: n, content, tags, properties, datetime: None, todo, priority };
    proof {
        assert(r.view().tags == views(tags@));
        assert(r.view().properties =~= Seq::empty());
    }
    Some(r)
}

/// A property line `:KEY: value`: the key (one or more characters, no colon)
/// and the value (the rest of the line after the spaces, trimmed, at least one
/// character before trimming).
pub open spec fn property_of(s: Seq<char>) -> Option<(Seq<char>, Seq<char>)> {
    if s.len() > 0 && s[0] == ':' {
        let k = colon_from(s, 1, s.len() as int);
        if 1 < k < s.len() {
            let p = run_end(s, k + 1, s.len() as int, |c: char| is_space(c));
            if p < s.len() {
                Some((s.subrange(1, k), trim(s.subrange(p, s.len() as int))))
            } else {
                None
            }
        } else {
            None
        }
    } else {
        None
    }
}

/// Reads a property line `:KEY: value`.
pub fn org_property(line: &str) -> (r: Option<(String, String)>)
    ensures
        match property_of(line@) {
            Some((k, v)) => r matches Some(x) && x.0@ == k && x.1@ == v,
            None => r is None,
        },
{
    let s = chars_of(line);
    let n = s.len();
    if n == 0 || s[0] != ':' {
        return None;
    }
    let mut k: usize = 1;
    while k < n && s[k] != ':'
        invariant
            1 <= k <= n,
            n == s@.len(),
            colon_from(s@, 1, n as int) == colon_from(s@, k as int, n as int),
        decreases n - k,
    {
        k = k + 1;
    }
    if !(1 < k && k < n) {
        return None;
    }
    let p = spaces_end(&s, k + 1, n);
    if p >= n {
        return None;
    }
    Some((string_of(s.as_slice(), 1, k), trimmed(s.as_slice(), p, n)))
}

/// The lines of `s`: the pieces between newlines.
pub open spec fn lines_of(s: Seq<char>) -> Seq<Seq<char>>
    decreases s.len(),
    via lines_of_decreases
{
    let k = index_from(s, 0, '\n');
    if k >= s.len() {
        seq![s]
    } else {
        seq![s.subrange(0, k)] + lines_of(s.skip(k + 1))
    }
}

#[via_fn]
proof fn lines_of_decreases(s: Seq<char>) {
    lemma_index_from_bounds(s, 0, '\n');
}

/// Splits `text` into its lines, at each newline.
pub fn split_lines(text: &str) -> (r: Vec<String>)
    ensures
        line_views(r@) == lines_of(text@),
{
    let s = chars_of(text);
    let mut r: Vec<String> = Vec::new();
    let mut start: usize = 0;
    let mut i: usize = 0;
    let n = s.len();
    assert(s@.skip(0) == s@);
    assert(line_views(r@) =~= Seq::<Seq<char>>::empty());
    while i < n
        invariant
            n == s@.len(),
            start <= i <= n,
            lines_of(s@) == line_views(r@) + lines_of(s@.skip(start as int)),
            index_from(s@.skip(start as int), 0, '\n') == index_from(s@.skip(start as int), i - start, '\n'),
        decreases n - i,
    {
        if s[i] == '\n' {
            let ghost rest = s@.skip(start as int);
            assert(rest[i - start] == '\n');
            assert(index_from(rest, i - start, '\n') == i - start);
            let piece = string_of(s.as_slice(), start, i);
            assert(rest.subrange(0, i - start) == s@.subrange(start as int, i as int));
            assert(rest.skip(i - start + 1) == s@.skip(i + 1));
            assert(line_views(r@.push(piece)) == line_views(r@).push(piece@));
            assert(lines_of(rest) == seq![piece@] + lines_of(s@.skip(i + 1)));
            r.push(piece);
            start = i + 1;
            assert(s@.skip(start as int).skip(0) == s@.skip(start as int));
        }
        i = i + 1;
    }
    let ghost rest = s@.skip(start as int);
    assert(index_from(rest, n - start, '\n') == n - start);
    let piece = string_of(s.as_slice(), start, n);
    assert(piece@ == rest);
    assert(line_views(r@.push(piece)) == line_views(r@).push(piece@));
    r.push(piece);
    r
}

/// Reads an outline heading at the start of `text`, with the timestamp and the
/// property block on the lines below it.
pub fn org_header(text: &str) -> (r: Option<OrgHeader>)
    ensures
        match header_at(lines_of(text@), 0, '*') {
            Some((h, _)) => r matches Some(x) && x.view() == h,
            None => r is None,
        },
{
    let lines = split_lines(text);
    if lines.len() == 0 {
        return None;
    }
    match read_header(&lines, 0, '*') {
        Some((h, _)) => Some(h),
        None => None,
    }
}

/// Reads a property block (`:PROPERTIES:`, `:KEY: value` lines, `:END:`) at the
/// start of `text`; nothing when `text` does not open one.
pub fn org_properties(text: &str) -> (r: Option<Vec<(String, String)>>)
    ensures
        ({
            let lines = lines_of(text@);
            let (ps, q) = props_at(lines, 0);
            if q > 0 {
                r matches Some(v) && crate::header::pair_views(v@) == ps
            } else {
                r is None
            }
        }),
{
    let lines = split_lines(text);
    let (props, q) = read_props(&lines, 0);
    if q > 0 {
        Some(props)
    } else {
        None
    }
}

} // verus!
