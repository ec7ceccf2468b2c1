//! The per-file search: walks the lines of a document, keeps the chain of
//! open headings, filters sections by their headings and scores the lines.
use vstd::prelude::*;

use crate::args::Args;
use crate::datetime::{deadline_word, org_date_time, scheduled_word, timestamp_of, CalendarDate, DateTimeView, OrgDateTime, Timestamp};
use crate::header::{priority_cmp, HeaderView, OrgHeader};
use fuzzy_matcher::FuzzyMatcher;
use std::cmp::Ordering;
use crate::parsers::{header_line, org_property, parse_header_line, property_of};
use crate::query::literal_match;
use crate::result::{ResultView, SearchResult};
use crate::text::{chars_of, chars_start_with_i, starts_with_ignore_case};

verus! {

/// Kind of document: the marker of its headings.
#[derive(Debug, Clone, Copy, PartialEq, Eq, Structural)]
pub enum DocType {
    Markdown,
    OrgMode,
}

/// `#` for markdown, `*` for outline documents.
pub open spec fn marker_of(t: DocType) -> char {
    match t {
        DocType::Markdown => '#',
        DocType::OrgMode => '*',
    }
}

/// `:PROPERTIES:`, which opens a property block.
pub open spec fn properties_label() -> Seq<char> {
    seq![':', 'P', 'R', 'O', 'P', 'E', 'R', 'T', 'I', 'E', 'S', ':']
}

/// `:END:`, which closes a property block.
pub open spec fn end_label() -> Seq<char> {
    seq![':', 'E', 'N', 'D', ':']
}

/// A line that carries a timestamp for the heading above it.
pub open spec fn is_schedule_line(l: Seq<char>) -> bool {
    starts_with_ignore_case(l, deadline_word()) || starts_with_ignore_case(l, scheduled_word())
}

/// Position of key `k` among the pairs `ps`, or -1.
pub open spec fn key_index(ps: Seq<(Seq<char>, Seq<char>)>, k: Seq<char>) -> int
    decreases ps.len(),
{
    if ps.len() == 0 {
        -1
    } else if ps.last().0 == k {
        ps.len() - 1
    } else {
        key_index(ps.drop_last(), k)
    }
}

/// The pairs `ps` with `k` set to `v`: the value replaced where `k` is a key
/// already, the pair added at the end otherwise.
pub open spec fn insert_prop(ps: Seq<(Seq<char>, Seq<char>)>, k: Seq<char>, v: Seq<char>) -> Seq<(Seq<char>, Seq<char>)> {
    let j = key_index(ps, k);
    if j >= 0 {
        ps.update(j, (k, v))
    } else {
        ps.push((k, v))
    }
}

/// The properties read from line `i` on, after a `:PROPERTIES:` line, added to
/// `acc`; and the next line to read. Reading stops after an `:END:` line, after
/// a line that is no property, or at the end.
pub open spec fn props_from(
    lines: Seq<Seq<char>>,
    i: int,
    acc: Seq<(Seq<char>, Seq<char>)>,
) -> (Seq<(Seq<char>, Seq<char>)>, int)
    decreases lines.len() - i,
{
    if i < 0 || i >= lines.len() {
        (acc, i)
    } else if starts_with_ignore_case(lines[i], end_label()) {
        (acc, i + 1)
    } else {
        match property_of(lines[i]) {
            Some((k, v)) => props_from(lines, i + 1, insert_prop(acc, k, v)),
            None => (acc, i + 1),
        }
    }
}

/// The timestamp of the line at `i`, if it is a timestamp line, and the next
/// line to read.
pub open spec fn datetime_at(lines: Seq<Seq<char>>, i: int) -> (Option<DateTimeView>, int) {
    if 0 <= i < lines.len() && is_schedule_line(lines[i]) {
        (timestamp_of(lines[i]), i + 1)
    } else {
        (None, i)
    }
}

/// The property block that begins at line `i`, if one does, and the next line
/// to read.
pub open spec fn props_at(lines: Seq<Seq<char>>, i: int) -> (Seq<(Seq<char>, Seq<char>)>, int) {
    if 0 <= i < lines.len() && starts_with_ignore_case(lines[i], properties_label()) {
        props_from(lines, i + 1, Seq::empty())
    } else {
        (Seq::empty(), i)
    }
}

/// The heading on line `i` with marker `m`, with the timestamp and the
/// properties on the lines below it; and the next line to read.
pub open spec fn header_at(lines: Seq<Seq<char>>, i: int, m: char) -> Option<(HeaderView, int)> {
    if 0 <= i < lines.len() {
        match header_line(lines[i], m) {
            None => None,
            Some(h) => {
                let (dt, p) = datetime_at(lines, i + 1);
                let (props, q) = props_at(lines, p);
                Some(
                    (
                        HeaderView {
                            line: i as nat,
                            depth: h.depth,
                            content: h.content,
                            tags: h.tags,
                            properties: props,
                            datetime: dt,
                            todo: h.todo,
                            priority: h.priority,
                        },
                        q,
                    ),
                )
            },
        }
    } else {
        None
    }
}

/// The views of the lines.
pub open spec fn line_views(v: Seq<String>) -> Seq<Seq<char>> {
    v.map_values(|l: String| l@)
}

/// Views of headers.
pub open spec fn header_views(v: Seq<OrgHeader>) -> Seq<HeaderView> {
    v.map_values(|h: OrgHeader| h.view())
}

/// The state of a search through one file.
pub struct Searcher<'a> {
    pub args: &'a Args,
    pub filename: &'a str,
    pub filepath: &'a str,
    pub doc_type: DocType,
    /// The chain of open headings, outermost first.
    pub headers: Vec<OrgHeader>,
    /// Depth of the last heading seen, 0 before the first.
    pub last_depth: usize,
    /// Whether lines are being left out.
    pub skip_section: bool,
    /// The lines of the file.
    pub lines: Vec<String>,
    /// The next line to read.
    pub pos: usize,
}

/// A searcher at the start of file `filename` (found at `filepath`) whose
/// lines are `lines`.
pub fn new_searcher<'a>(
    args: &'a Args,
    filename: &'a str,
    filepath: &'a str,
    doc_type: DocType,
    lines: Vec<String>,
) -> (r: Searcher<'a>)
    ensures
        r.args == args,
        r.filename@ == filename@,
        r.filepath@ == filepath@,
        r.doc_type == doc_type,
        r.headers@.len() == 0,
        r.last_depth == 0,
        !r.skip_section,
        r.lines@ == lines@,
        r.pos == 0,
{
    Searcher {
        args,
        filename,
        filepath,
        doc_type,
        headers: Vec::new(),
        last_depth: 0,
        skip_section: false,
        lines,
        pos: 0,
    }
}

/// Reads the timestamp line at `pos`, if it is one: the timestamp (when it
/// can be read) and the next line to read.
pub fn read_datetime(lines: &Vec<String>, pos: usize) -> (r: (Option<OrgDateTime>, usize))
    requires
        pos <= lines@.len(),
    ensures
        ({
            let (dt, p) = datetime_at(line_views(lines@), pos as int);
            &&& r.1 == p
            &&& match r.0 {
                Some(d) => dt == Some(d.view()),
                None => dt is None,
            }
        }),
        r.1 <= lines@.len(),
{
    if pos >= lines.len() {
        return (None, pos);
    }
    let line = chars_of(lines[pos].as_str());
    let deadline = vec!['D', 'E', 'A', 'D', 'L', 'I', 'N', 'E', ':'];
    let scheduled = vec!['S', 'C', 'H', 'E', 'D', 'U', 'L', 'E', 'D', ':'];
    assert(deadline@ == deadline_word());
    assert(scheduled@ == scheduled_word());
    assert(line_views(lines@)[pos as int] == line@);
    if chars_start_with_i(line.as_slice(), deadline.as_slice()) || chars_start_with_i(
        line.as_slice(),
        scheduled.as_slice(),
    ) {
        let r = match org_date_time(lines[pos].as_str()) {
            Ok(d) => Some(d),
            Err(_) => None,
        };
        (r, pos + 1)
    } else {
        (None, pos)
    }
}

/// Reads the property block at `pos`, if the line there opens one: the
/// properties and the next line to read.
pub fn read_props(lines: &Vec<String>, pos: usize) -> (r: (Vec<(String, String)>, usize))
    requires
        pos <= lines@.len(),
    ensures
        ({
            let (ps, p) = props_at(line_views(lines@), pos as int);
            &&& r.1 == p
            &&& crate::header::pair_views(r.0@) == ps
        }),
        r.1 <= lines@.len(),
{
    let mut props: Vec<(String, String)> = Vec::new();
    let ghost lv = line_views(lines@);
    assert(crate::header::pair_views(props@) =~= Seq::empty());
    if pos >= lines.len() {
        return (props, pos);
    }
    let first = chars_of(lines[pos].as_str());
    let label = vec![':', 'P', 'R', 'O', 'P', 'E', 'R', 'T', 'I', 'E', 'S', ':'];
    assert(label@ == properties_label());
    assert(lv[pos as int] == first@);
    if !chars_start_with_i(first.as_slice(), label.as_slice()) {
        return (props, pos);
    }
    let mut i = pos + 1;
    let end = vec![':', 'E', 'N', 'D', ':'];
    assert(end@ == end_label());
    while i < lines.len()
        invariant
            lv == line_views(lines@),
            pos < i <= lines@.len(),
            end@ == end_label(),
            props_at(lv, pos as int) == props_from(lv, pos + 1, Seq::empty()),
            props_from(lv, pos + 1, Seq::empty()) == props_from(lv, i as int, crate::header::pair_views(props@)),
        decreases lines@.len() - i,
    {
        let line = chars_of(lines[i].as_str());
        assert(lv[i as int] == line@);
        let ghost acc = crate::header::pair_views(props@);
        if chars_start_with_i(line.as_slice(), end.as_slice()) {
            assert(props_from(lv, i as int, acc) == (acc, i + 1));
            return (props, i + 1);
        }
        match org_property(lines[i].as_str()) {
            Some((k, v)) => {
                insert_property(&mut props, k, v);
                assert(props_from(lv, i as int, acc) == props_from(lv, i + 1, insert_prop(acc, k@, v@)));
            },
            None => {
                assert(props_from(lv, i as int, acc) == (acc, i + 1));
                return (props, i + 1);
            },
        }
        i = i + 1;
    }
    (props, i)
}

/// Reads line `idx` as a heading with marker `m`, with the timestamp and the
/// property block below it: the heading and the next line to read.
pub fn read_header(lines: &Vec<String>, idx: usize, m: char) -> (r: Option<(OrgHeader, usize)>)
    requires
        idx < lines@.len(),
    ensures
        match header_at(line_views(lines@), idx as int, m) {
            Some((h, q)) => r matches Some(x) && x.0.view() == h && x.1 == q,
            None => r is None,
        },
{
    // `idx + 1` below stays within `usize`: `idx` is below this length.
    let _len = lines.len();
    let line = chars_of(lines[idx].as_str());
    assert(line_views(lines@)[idx as int] == line@);
    match parse_header_line(&line, m, idx) {
        None => None,
        Some(h) => {
            let (datetime, p) = read_datetime(lines, idx + 1);
            let (properties, q) = read_props(lines, p);
            Some((OrgHeader { datetime, properties, ..h }, q))
        },
    }
}

impl<'a> Searcher<'a> {
    /// Reads the timestamp line below a heading, if the next line is one.
    fn parse_org_date_time(&mut self) -> (r: Option<OrgDateTime>)
        requires
            old(self).pos <= old(self).lines@.len(),
        ensures
            ({
                let (dt, p) = datetime_at(line_views(old(self).lines@), old(self).pos as int);
                &&& final(self).pos == p
                &&& match r {
                    Some(d) => dt == Some(d.view()),
                    None => dt is None,
                }
            }),
            final(self).lines == old(self).lines,
            final(self).args == old(self).args,
            final(self).filename == old(self).filename,
            final(self).filepath == old(self).filepath,
            final(self).doc_type == old(self).doc_type,
            final(self).headers == old(self).headers,
            final(self).last_depth == old(self).last_depth,
            final(self).skip_section == old(self).skip_section,
            final(self).pos <= final(self).lines@.len(),
    {
        let (d, p) = read_datetime(&self.lines, self.pos);
        self.pos = p;
        d
    }

    /// Reads the property block below a heading (and its timestamp), if the
    /// next line opens one.
    fn parse_org_props(&mut self) -> (r: Vec<(String, String)>)
        requires
            old(self).pos <= old(self).lines@.len(),
        ensures
            ({
                let (ps, p) = props_at(line_views(old(self).lines@), old(self).pos as int);
                &&& final(self).pos == p
                &&& crate::header::pair_views(r@) == ps
            }),
            final(self).lines == old(self).lines,
            final(self).args == old(self).args,
            final(self).filename == old(self).filename,
            final(self).filepath == old(self).filepath,
            final(self).doc_type == old(self).doc_type,
            final(self).headers == old(self).headers,
            final(self).last_depth == old(self).last_depth,
            final(self).skip_section == old(self).skip_section,
            final(self).pos <= final(self).lines@.len(),
    {
        let (props, p) = read_props(&self.lines, self.pos);
        self.pos = p;
        props
    }
}

/// Sets key `k` to `v` among the pairs `props`.
fn insert_property(props: &mut Vec<(String, String)>, k: String, v: String)
    ensures
        crate::header::pair_views(final(props)@) == insert_prop(
            crate::header::pair_views(old(props)@),
            k@,
            v@,
        ),
{
    let ghost ps = crate::header::pair_views(props@);
    let mut i = props.len();
    assert(ps.take(i as int) == ps);
    while i > 0
        invariant
            i <= props@.len(),
            ps == crate::header::pair_views(props@),
            ps == crate::header::pair_views(old(props)@),
            key_index(ps, k@) == key_index(ps.take(i as int), k@),
        decreases i,
    {
        assert(ps.take(i as int).drop_last() == ps.take(i - 1));
        if props[i - 1].0 == k {
            assert(key_index(ps, k@) == i - 1);
            props.set(i - 1, (k, v));
            assert(crate::header::pair_views(props@) =~= ps.update(i - 1, (k@, v@)));
            return;
        }
        i = i - 1;
    }
    assert(key_index(ps.take(0), k@) == -1);
    props.push((k, v));
    assert(crate::header::pair_views(props@) =~= ps.push((k@, v@)));
}

/// `d` falls on the schedule `s`: same plan, and the same day when `s` starts
/// at midnight, the same moment otherwise.
pub open spec fn schedule_matches(d: DateTimeView, s: DateTimeView) -> bool {
    d.date_plan == s.date_plan && if s.date_start.is_midnight() {
        d.date_start.spec_date() == s.date_start.spec_date()
    } else {
        d.date_start == s.date_start
    }
}

/// Value of key `k` among the pairs `ps`.
pub open spec fn prop_value(ps: Seq<(Seq<char>, Seq<char>)>, k: Seq<char>) -> Option<Seq<char>> {
    let j = key_index(ps, k);
    if j >= 0 {
        Some(ps[j].1)
    } else {
        None
    }
}

/// Some heading of the chain `hs` carries tag `t`.
pub open spec fn chain_has_tag_spec(hs: Seq<HeaderView>, t: Seq<char>) -> bool {
    exists|j: int| 0 <= j < hs.len() && (#[trigger] hs[j]).tags.contains(t)
}

/// Some heading of the chain `hs` has property `k` with value `v`.
pub open spec fn chain_has_prop(hs: Seq<HeaderView>, k: Seq<char>, v: Seq<char>) -> bool {
    exists|j: int| 0 <= j < hs.len() && prop_value((#[trigger] hs[j]).properties, k) == Some(v)
}

/// Some requested tag is on no heading of the chain `hs`.
pub open spec fn tags_fail(a: Args, hs: Seq<HeaderView>) -> bool {
    !(forall|i: int| 0 <= i < a.tagged@.len() ==> chain_has_tag_spec(hs, (#[trigger] a.tagged@[i])@))
}

/// Some requested property is on no heading of the chain `hs`.
pub open spec fn props_fail(a: Args, hs: Seq<HeaderView>) -> bool {
    !(forall|i: int|
        0 <= i < a.prop@.len() ==> chain_has_prop(hs, (#[trigger] a.prop@[i]).0@, a.prop@[i].1@))
}

/// TODO states are requested and `h` has none of them.
pub open spec fn todo_fail(a: Args, h: HeaderView) -> bool {
    a.todo@.len() > 0 && !(exists|i: int| 0 <= i < a.todo@.len() && h.todo == Some((#[trigger] a.todo@[i]).view()))
}

/// Priorities are requested and `h` has none of them.
pub open spec fn priority_fail(a: Args, h: HeaderView) -> bool {
    a.priority@.len() > 0 && !(exists|i: int|
        0 <= i < a.priority@.len() && h.priority == Some((#[trigger] a.priority@[i]).0@))
}

/// A lowest priority is requested and `h` has no priority above it.
pub open spec fn priority_gt_fail(a: Args, h: HeaderView) -> bool {
    match a.priority_gt {
        Some(p) => !(match h.priority {
            Some(x) => priority_cmp(x, p.0@) == Ordering::Greater,
            None => false,
        }),
        None => false,
    }
}

/// A highest priority is requested and `h` has no priority below it.
pub open spec fn priority_lt_fail(a: Args, h: HeaderView) -> bool {
    match a.priority_lt {
        Some(p) => !(match h.priority {
            Some(x) => priority_cmp(x, p.0@) == Ordering::Less,
            None => false,
        }),
        None => false,
    }
}

/// A schedule is requested and `h` is not scheduled on it.
pub open spec fn schedule_fail(a: Args, h: HeaderView) -> bool {
    match a.scheduled_at {
        Some(s) => !(match h.datetime {
            Some(d) => schedule_matches(d, s.view()),
            None => false,
        }),
        None => false,
    }
}

/// Some filter fails for the chain `hs`, whose last heading is the current one.
pub open spec fn header_fails(a: Args, hs: Seq<HeaderView>) -> bool {
    let h = hs.last();
    ||| tags_fail(a, hs)
    ||| props_fail(a, hs)
    ||| todo_fail(a, h)
    ||| priority_fail(a, h)
    ||| priority_gt_fail(a, h)
    ||| priority_lt_fail(a, h)
    ||| schedule_fail(a, h)
}

/// Some filter on headings is requested.
pub open spec fn structural(a: Args) -> bool {
    ||| a.tagged@.len() > 0
    ||| a.prop@.len() > 0
    ||| a.todo@.len() > 0
    ||| a.priority@.len() > 0
    ||| a.priority_lt is Some
    ||| a.priority_gt is Some
    ||| a.scheduled_at is Some
}

/// What the search keeps between lines.
pub struct ScanState {
    pub headers: Seq<HeaderView>,
    pub last_depth: int,
    pub skip: bool,
}

/// The chain `hs` after heading `h`, the last heading having had depth `last`:
/// deeper headings are pushed, one at the same depth replaces the last, and a
/// shallower one cuts the chain to its depth and replaces the last left.
pub open spec fn push_header(hs: Seq<HeaderView>, last: int, h: HeaderView) -> Seq<HeaderView> {
    let d = h.depth as int;
    if d > last {
        hs.push(h)
    } else if d == last {
        hs.update(hs.len() - 1, h)
    } else {
        let t = if d < hs.len() {
            hs.take(d)
        } else {
            hs
        };
        t.update(t.len() - 1, h)
    }
}

/// The state after a line that is heading `h` (or no heading).
pub open spec fn after_header(a: Args, st: ScanState, h: Option<HeaderView>) -> ScanState {
    let st2 = match h {
        None => st,
        Some(h) => {
            let hs = push_header(st.headers, st.last_depth, h);
            ScanState { headers: hs, last_depth: h.depth as int, skip: header_fails(a, hs) }
        },
    };
    if st2.last_depth == 0 && structural(a) {
        ScanState { skip: true, ..st2 }
    } else {
        st2
    }
}

/// The chain of headings is well formed: empty before the first heading, and
/// never longer than the depth of the last heading.
pub open spec fn chain_ok(st: ScanState) -> bool {
    &&& st.headers.len() <= st.last_depth
    &&& (st.last_depth == 0 <==> st.headers.len() == 0)
}

/// Tags that some heading of `hs` carries: `t` is among them.
pub fn check_tags(searcher: &Searcher, curr_header: &OrgHeader) -> (r: bool)
    ensures
        r == tags_fail(*searcher.args, header_views(searcher.headers@)),
{
    let ghost hs = header_views(searcher.headers@);
    let mut i: usize = 0;
    while i < searcher.args.tagged.len()
        invariant
            hs == header_views(searcher.headers@),
            i <= searcher.args.tagged@.len(),
            forall|k: int| 0 <= k < i ==> chain_has_tag_spec(hs, (#[trigger] searcher.args.tagged@[k])@),
        decreases searcher.args.tagged@.len() - i,
    {
        if !chain_has_tag(&searcher.headers, &searcher.args.tagged[i]) {
            assert(!chain_has_tag_spec(hs, searcher.args.tagged@[i as int]@));
            assert(tags_fail(*searcher.args, hs));
            return true;
        }
        i = i + 1;
    }
    false
}

fn chain_has_tag(headers: &Vec<OrgHeader>, t: &String) -> (r: bool)
    ensures
        r == chain_has_tag_spec(header_views(headers@), t@),
{
    let ghost hs = header_views(headers@);
    let mut j: usize = 0;
    while j < headers.len()
        invariant
            hs == header_views(headers@),
            j <= headers@.len(),
            forall|k: int| 0 <= k < j ==> !(#[trigger] hs[k]).tags.contains(t@),
        decreases headers@.len() - j,
    {
        let tags = &headers[j].tags;
        assert(hs[j as int].tags == tags@.map_values(|x: String| x@));
        let mut k: usize = 0;
        while k < tags.len()
            invariant
                hs == header_views(headers@),
                j < headers@.len(),
                hs[j as int].tags == tags@.map_values(|x: String| x@),
                k <= tags@.len(),
                forall|m: int| 0 <= m < k ==> tags@[m]@ != t@,
            decreases tags@.len() - k,
        {
            if tags[k] == *t {
                assert(hs[j as int].tags[k as int] == t@);
                return true;
            }
            k = k + 1;
        }
        assert(!hs[j as int].tags.contains(t@));
        j = j + 1;
    }
    false
}

/// Value of key `k` among the pairs `props`.
fn lookup_prop<'p>(props: &'p Vec<(String, String)>, k: &String) -> (r: Option<&'p String>)
    ensures
        match prop_value(crate::header::pair_views(props@), k@) {
            Some(v) => r matches Some(x) && x@ == v,
            None => r is None,
        },
{
    let ghost ps = crate::header::pair_views(props@);
    let mut i = props.len();
    assert(ps.take(i as int) == ps);
    while i > 0
        invariant
            i <= props@.len(),
            ps == crate::header::pair_views(props@),
            key_index(ps, k@) == key_index(ps.take(i as int), k@),
        decreases i,
    {
        assert(ps.take(i as int).drop_last() == ps.take(i - 1));
        if props[i - 1].0 == *k {
            return Some(&props[i - 1].1);
        }
        i = i - 1;
    }
    None
}

fn chain_has_prop_exec(headers: &Vec<OrgHeader>, k: &String, v: &String) -> (r: bool)
    ensures
        r == chain_has_prop(header_views(headers@), k@, v@),
{
    let ghost hs = header_views(headers@);
    let mut j: usize = 0;
    while j < headers.len()
        invariant
            hs == header_views(headers@),
            j <= headers@.len(),
            forall|m: int| 0 <= m < j ==> prop_value((#[trigger] hs[m]).properties, k@) != Some(v@),
        decreases headers@.len() - j,
    {
        match lookup_prop(&headers[j].properties, k) {
            Some(x) => {
                if *x == *v {
                    assert(prop_value(hs[j as int].properties, k@) == Some(v@));
                    return true;
                }
            },
            None => {},
        }
        j = j + 1;
    }
    false
}

/// Whether some requested property is on no heading of the chain.
pub fn check_props(searcher: &Searcher, curr_header: &OrgHeader) -> (r: bool)
    ensures
        r == props_fail(*searcher.args, header_views(searcher.headers@)),
{
    let ghost hs = header_views(searcher.headers@);
    let mut i: usize = 0;
    while i < searcher.args.prop.len()
        invariant
            hs == header_views(searcher.headers@),
            i <= searcher.args.prop@.len(),
            forall|k: int|
                0 <= k < i ==> chain_has_prop(hs, (#[trigger] searcher.args.prop@[k]).0@, searcher.args.prop@[k].1@),
        decreases searcher.args.prop@.len() - i,
    {
        if !chain_has_prop_exec(&searcher.headers, &searcher.args.prop[i].0, &searcher.args.prop[i].1) {
            return true;
        }
        i = i + 1;
    }
    false
}

/// Whether TODO states are requested and the current heading has none of them.
pub fn check_todo(searcher: &Searcher, curr_header: &OrgHeader) -> (r: bool)
    ensures
        r == todo_fail(*searcher.args, curr_header.view()),
{
    if searcher.args.todo.len() == 0 {
        return false;
    }
    let mut i: usize = 0;
    while i < searcher.args.todo.len()
        invariant
            i <= searcher.args.todo@.len(),
            forall|k: int| 0 <= k < i ==> Some((#[trigger] searcher.args.todo@[k]).view()) != curr_header.view().todo,
        decreases searcher.args.todo@.len() - i,
    {
        match &curr_header.todo {
            Some(y) => {
                if *y == searcher.args.todo[i] {
                    assert(curr_header.view().todo == Some(searcher.args.todo@[i as int].view()));
                    return false;
                }
            },
            None => {},
        }
        i = i + 1;
    }
    true
}

/// Whether priorities are requested and the current heading has none of them.
pub fn check_priority(searcher: &Searcher, curr_header: &OrgHeader) -> (r: bool)
    ensures
        r == priority_fail(*searcher.args, curr_header.view()),
{
    if searcher.args.priority.len() == 0 {
        return false;
    }
    let mut i: usize = 0;
    while i < searcher.args.priority.len()
        invariant
            i <= searcher.args.priority@.len(),
            forall|k: int| 0 <= k < i ==> curr_header.view().priority != Some((#[trigger] searcher.args.priority@[k]).0@),
        decreases searcher.args.priority@.len() - i,
    {
        match &curr_header.priority {
            Some(y) => {
                if searcher.args.priority[i] == *y {
                    assert(curr_header.view().priority == Some(searcher.args.priority@[i as int].0@));
                    return false;
                }
            },
            None => {},
        }
        i = i + 1;
    }
    true
}

/// Whether a highest priority is requested and the current heading has no
/// priority below it.
pub fn check_priority_lt(searcher: &Searcher, curr_header: &OrgHeader) -> (r: bool)
    ensures
        r == priority_lt_fail(*searcher.args, curr_header.view()),
{
    match &searcher.args.priority_lt {
        Some(priority) => match &curr_header.priority {
            Some(x) => !(*x < *priority),
            None => true,
        },
        None => false,
    }
}

/// Whether a lowest priority is requested and the current heading has no
/// priority above it.
pub fn check_priority_gt(searcher: &Searcher, curr_header: &OrgHeader) -> (r: bool)
    ensures
        r == priority_gt_fail(*searcher.args, curr_header.view()),
{
    match &searcher.args.priority_gt {
        Some(priority) => match &curr_header.priority {
            Some(x) => !(*x > *priority),
            None => true,
        },
        None => false,
    }
}

/// Whether a schedule is requested and the current heading is not on it.
pub fn check_schedule(searcher: &Searcher, curr_header: &OrgHeader) -> (r: bool)
    ensures
        r == schedule_fail(*searcher.args, curr_header.view()),
{
    let same_moment = |a: &Timestamp, b: &Timestamp| -> (e: bool)
        ensures
            e == (a == b),
        {
            let same = *a == *b;
            same
        };
    let same_day = |a: &CalendarDate, b: &CalendarDate| -> (e: bool)
        ensures
            e == (a == b),
        {
            let same = *a == *b;
            same
        };
    match &searcher.args.scheduled_at {
        Some(schedule) => match &curr_header.datetime {
            Some(datetime) => !datetime.compare_with(schedule, same_moment, same_day),
            None => true,
        },
        None => false,
    }
}

/// Whether lines above the first heading are left out: they are whenever a
/// filter on headings is requested.
pub fn check_zero_level(searcher: &Searcher) -> (r: bool)
    ensures
        r == structural(*searcher.args),
{
    searcher.args.tagged.len() > 0 || searcher.args.prop.len() > 0 || searcher.args.todo.len() > 0
        || searcher.args.priority.len() > 0 || searcher.args.priority_lt.is_some()
        || searcher.args.priority_gt.is_some() || searcher.args.scheduled_at.is_some()
}

/// What `fuzzy_matcher`'s `SkimMatcherV2::fuzzy_match` (default settings)
/// scores term `term` against `text`.
pub uninterp spec fn fuzzy_score(text: Seq<char>, term: Seq<char>) -> Option<i64>;

/// Relies on `fuzzy_matcher::skim::SkimMatcherV2::fuzzy_match` with the
/// default settings: the score of `term` in `text`, if it matches at all.
#[verifier::external_body]
fn fuzzy_match(text: &str, term: &str) -> (r: Option<i64>)
    ensures
        r == fuzzy_score(text@, term@),
{
    fuzzy_matcher::skim::SkimMatcherV2::default().fuzzy_match(text, term)
}

/// The scores of the terms that match `text`, in the order of the terms.
pub open spec fn points(text: Seq<char>, terms: Seq<Seq<char>>) -> Seq<i64>
    decreases terms.len(),
{
    if terms.len() == 0 {
        Seq::empty()
    } else {
        let p = points(text, terms.drop_last());
        match fuzzy_score(text, terms.last()) {
            Some(x) => p.push(x),
            None => p,
        }
    }
}

/// The sum of the scores `ps`.
pub open spec fn sum(ps: Seq<i64>) -> int
    decreases ps.len(),
{
    if ps.len() == 0 {
        0
    } else {
        sum(ps.drop_last()) + ps.last() as int
    }
}

/// ` / `, which joins the titles of a chain of headings.
pub open spec fn title_separator() -> Seq<char> {
    seq![' ', '/', ' ']
}

/// The titles of the chain `hs` joined by ` / `.
pub open spec fn join_titles(hs: Seq<HeaderView>) -> Seq<char>
    decreases hs.len(),
{
    if hs.len() == 0 {
        Seq::empty()
    } else if hs.len() == 1 {
        hs[0].content
    } else {
        join_titles(hs.drop_last()) + title_separator() + hs.last().content
    }
}

/// The text a line is searched in: the titles of its headings, then the line
/// itself unless it is a heading, then the file name when file names are
/// searched too.
pub open spec fn composite(a: Args, file: Seq<char>, hs: Seq<HeaderView>, line: Seq<char>, is_header: bool) -> Seq<char> {
    join_titles(hs) + (if is_header {
        Seq::empty()
    } else {
        line
    }) + (if a.search_filename {
        file
    } else {
        Seq::empty()
    })
}

/// The titles of the chain `hs`.
pub open spec fn titles(hs: Seq<HeaderView>) -> Seq<Seq<char>> {
    hs.map_values(|h: HeaderView| h.content)
}

/// The result for line `i` (text `line`) under the chain `hs`, if the line
/// matches: the exact parts of the query must pass, and some fuzzy word must
/// score unless the query has none.
pub open spec fn line_result(
    a: Args,
    file: Seq<char>,
    path: Seq<char>,
    hs: Seq<HeaderView>,
    i: int,
    line: Seq<char>,
    is_header: bool,
) -> Seq<ResultView> {
    let full = composite(a, file, hs, line, is_header);
    let ps = points(full, a.query@.rest);
    if literal_match(a.query@, full) && (ps.len() > 0 || a.query@.rest.len() == 0) {
        seq![
            ResultView {
                score: sum(ps),
                line: (i + 1) as nat,
                file_path: path,
                headers: titles(hs),
                header_line: if hs.len() > 0 {
                    Some(hs.last().line)
                } else {
                    None
                },
                content: line,
                is_header,
            },
        ]
    } else {
        Seq::empty()
    }
}

proof fn lemma_props_from_moves(lines: Seq<Seq<char>>, i: int, acc: Seq<(Seq<char>, Seq<char>)>)
    requires
        i >= 0,
    ensures
        props_from(lines, i, acc).1 >= i,
    decreases lines.len() - i,
{
    if i < lines.len() && !starts_with_ignore_case(lines[i], end_label()) {
        match property_of(lines[i]) {
            Some((k, v)) => lemma_props_from_moves(lines, i + 1, insert_prop(acc, k, v)),
            None => {},
        }
    }
}

/// A heading line and what is read with it take at least one line.
pub proof fn lemma_header_at_moves(lines: Seq<Seq<char>>, i: int, m: char)
    ensures
        header_at(lines, i, m) matches Some((h, q)) ==> i < q <= lines.len() && h.line == i,
{
    if 0 <= i < lines.len() {
        let p = datetime_at(lines, i + 1).1;
        if 0 <= p < lines.len() && starts_with_ignore_case(lines[p], properties_label()) {
            lemma_props_from_moves(lines, p + 1, Seq::empty());
            lemma_props_from_bound(lines, p + 1, Seq::empty());
        }
    }
}

proof fn lemma_props_from_bound(lines: Seq<Seq<char>>, i: int, acc: Seq<(Seq<char>, Seq<char>)>)
    requires
        0 <= i <= lines.len(),
    ensures
        props_from(lines, i, acc).1 <= lines.len(),
    decreases lines.len() - i,
{
    if i < lines.len() && !starts_with_ignore_case(lines[i], end_label()) {
        match property_of(lines[i]) {
            Some((k, v)) => lemma_props_from_bound(lines, i + 1, insert_prop(acc, k, v)),
            None => {},
        }
    }
}

/// The results of the lines from `i` on, in state `st`: each line is read as a
/// heading where it is one (with the lines it takes along), the state is
/// updated, and the line gives a result unless its section is left out or it
/// does not match.
pub open spec fn scan(a: Args, file: Seq<char>, path: Seq<char>, m: char, lines: Seq<Seq<char>>, i: int, st: ScanState) -> Seq<ResultView>
    decreases lines.len() - i,
    via scan_decreases
{
    if i < 0 || i >= lines.len() {
        Seq::empty()
    } else {
        let (h, next) = match header_at(lines, i, m) {
            Some((h, q)) => (Some(h), q),
            None => (None, i + 1),
        };
        let st2 = after_header(a, st, h);
        let out = if st2.skip {
            Seq::empty()
        } else {
            line_result(a, file, path, st2.headers, i, lines[i], h is Some)
        };
        out + scan(a, file, path, m, lines, next, st2)
    }
}

#[via_fn]
proof fn scan_decreases(a: Args, file: Seq<char>, path: Seq<char>, m: char, lines: Seq<Seq<char>>, i: int, st: ScanState) {
    lemma_header_at_moves(lines, i, m);
}

/// The state before the first line.
pub open spec fn initial_state() -> ScanState {
    ScanState { headers: Seq::empty(), last_depth: 0, skip: false }
}

/// The results of a whole file.
pub open spec fn search_results(a: Args, file: Seq<char>, path: Seq<char>, t: DocType, lines: Seq<Seq<char>>) -> Seq<ResultView> {
    scan(a, file, path, marker_of(t), lines, 0, initial_state())
}

/// Views of results.
pub open spec fn result_views(v: Seq<SearchResult>) -> Seq<ResultView> {
    v.map_values(|r: SearchResult| r.view())
}

proof fn lemma_join_step(hs: Seq<HeaderView>, j: int)
    requires
        0 <= j < hs.len(),
    ensures
        join_titles(hs.take(j + 1)) == if j == 0 {
            hs[0].content
        } else {
            join_titles(hs.take(j)) + title_separator() + hs[j].content
        },
{
    assert(hs.take(j + 1).drop_last() == hs.take(j));
}

impl<'a> Searcher<'a> {
    /// The search state as plain values.
    pub open spec fn state(&self) -> ScanState {
        ScanState {
            headers: header_views(self.headers@),
            last_depth: self.last_depth as int,
            skip: self.skip_section,
        }
    }

    /// The marker of this file's headings.
    fn marker(&self) -> (r: char)
        ensures
            r == marker_of(self.doc_type),
    {
        match self.doc_type {
            DocType::Markdown => '#',
            DocType::OrgMode => '*',
        }
    }

    /// Reads line `idx` as a heading, with the timestamp and the property
    /// block below it.
    fn parse_header(&mut self, idx: usize) -> (r: Option<OrgHeader>)
        requires
            old(self).pos == idx + 1,
            idx < old(self).lines@.len(),
        ensures
            match header_at(line_views(old(self).lines@), idx as int, marker_of(old(self).doc_type)) {
                Some((h, q)) => r matches Some(x) && x.view() == h && final(self).pos == q,
                None => r is None && final(self).pos == idx + 1,
            },
            final(self).lines == old(self).lines,
            final(self).args == old(self).args,
            final(self).filename == old(self).filename,
            final(self).filepath == old(self).filepath,
            final(self).doc_type == old(self).doc_type,
            final(self).headers == old(self).headers,
            final(self).last_depth == old(self).last_depth,
            final(self).skip_section == old(self).skip_section,
            final(self).pos <= final(self).lines@.len(),
    {
        let line = chars_of(self.lines[idx].as_str());
        assert(line_views(self.lines@)[idx as int] == line@);
        let marker = self.marker();
        match parse_header_line(&line, marker, idx) {
            None => None,
            Some(h) => {
                let datetime = self.parse_org_date_time();
                let properties = self.parse_org_props();
                let h = OrgHeader { datetime, properties, ..h };
                Some(h)
            },
        }
    }

    /// Takes heading `header_info` (if the line is one) into the chain and
    /// decides whether the section is left out.
    fn handle_header(&mut self, header_info: Option<OrgHeader>)
        requires
            chain_ok(old(self).state()),
            header_info matches Some(h) ==> h.depth >= 1,
        ensures
            final(self).state() == after_header(
                *old(self).args,
                old(self).state(),
                match header_info {
                    Some(h) => Some(h.view()),
                    None => None,
                },
            ),
            chain_ok(final(self).state()),
            final(self).lines == old(self).lines,
            final(self).args == old(self).args,
            final(self).filename == old(self).filename,
            final(self).filepath == old(self).filepath,
            final(self).doc_type == old(self).doc_type,
            final(self).pos == old(self).pos,
    {
        let ghost hs0 = header_views(self.headers@);
        match header_info {
            Some(header) => {
                let ghost hv = header.view();
                let current_depth = header.depth;
                if current_depth > self.last_depth {
                    self.headers.push(header);
                    assert(header_views(self.headers@) =~= hs0.push(hv));
                } else if current_depth == self.last_depth {
                    let lastn = self.headers.len() - 1;
                    self.headers.set(lastn, header);
                    assert(header_views(self.headers@) =~= hs0.update(lastn as int, hv));
                } else {
                    self.headers.truncate(current_depth);
                    let ghost ht = header_views(self.headers@);
                    assert(ht =~= if (current_depth as int) < hs0.len() { hs0.take(current_depth as int) } else { hs0 });
                    let curr_len = self.headers.len();
                    self.headers.set(curr_len - 1, header);
                    assert(header_views(self.headers@) =~= ht.update(curr_len - 1, hv));
                }
                self.last_depth = current_depth;
                let n = self.headers.len();
                let cur = &self.headers[n - 1];
                assert(header_views(self.headers@).last() == cur.view());
                self.skip_section = check_tags(self, cur) || check_props(self, cur) || check_todo(self, cur)
                    || check_priority(self, cur) || check_priority_gt(self, cur) || check_priority_lt(self, cur)
                    || check_schedule(self, cur);
            },
            None => {},
        }
        if self.last_depth == 0 && check_zero_level(self) {
            self.skip_section = true;
        }
    }

    /// The text line `idx` is searched in.
    fn build_current_result_line(&self, idx: usize, is_current_header: bool) -> (r: String)
        requires
            idx < self.lines@.len(),
        ensures
            r@ == composite(*self.args, self.filename@, self.state().headers, line_views(self.lines@)[idx as int], is_current_header),
    {
        let ghost hs = header_views(self.headers@);
        let mut result = String::new();
        let mut j: usize = 0;
        proof {
            reveal_strlit(" / ");
        }
        while j < self.headers.len()
            invariant
                hs == header_views(self.headers@),
                j <= self.headers@.len(),
                result@ == join_titles(hs.take(j as int)),
                " / "@ == title_separator(),
            decreases self.headers@.len() - j,
        {
            proof {
                lemma_join_step(hs, j as int);
            }
            if j > 0 {
                result.append(" / ");
            } else {
                assert(hs.take(0) =~= Seq::<HeaderView>::empty());
            }
            result.append(self.headers[j].content.as_str());
            j = j + 1;
        }
        assert(hs.take(j as int) == hs);
        if !is_current_header {
            result.append(self.lines[idx].as_str());
        }
        if self.args.search_filename {
            result.append(self.filename);
        }
        proof {
            assert(line_views(self.lines@)[idx as int] == self.lines@[idx as int]@);
        }
        result
    }

    /// The scores of the fuzzy words of the query in `full`: how many words
    /// matched, and the sum of their scores.
    fn fuzzy_points(&self, full: &String) -> (r: (usize, i128))
        ensures
            r.0 == points(full@, self.args.query@.rest).len(),
            r.1 == sum(points(full@, self.args.query@.rest)),
    {
        let ghost terms = self.args.query@.rest;
        let mut count: usize = 0;
        let mut total: i128 = 0;
        let mut k: usize = 0;
        let n = self.args.query.rest.len();
        assert(terms.take(0) =~= Seq::<Seq<char>>::empty());
        while k < n
            invariant
                n == self.args.query.rest@.len(),
                terms == self.args.query@.rest,
                k <= n,
                count <= k,
                count == points(full@, terms.take(k as int)).len(),
                total == sum(points(full@, terms.take(k as int))),
                -(count as int) * 0x8000_0000_0000_0000 <= total <= (count as int) * 0x8000_0000_0000_0000,
            decreases n - k,
        {
            assert(terms.take(k + 1).drop_last() == terms.take(k as int));
            assert(terms[k as int] == self.args.query.rest@[k as int]@);
            match fuzzy_match(full.as_str(), self.args.query.rest[k].as_str()) {
                Some(x) => {
                    proof {
                        let p = points(full@, terms.take(k as int));
                        assert(points(full@, terms.take(k + 1)) == p.push(x));
                        assert(p.push(x).drop_last() == p);
                    }
                    total = total + x as i128;
                    count = count + 1;
                },
                None => {},
            }
            k = k + 1;
        }
        assert(terms.take(n as int) == terms);
        (count, total)
    }

    /// Searches the whole file: the results, in the order of the lines.
    pub fn search(&mut self) -> (r: Vec<SearchResult>)
        requires
            old(self).pos == 0,
            old(self).headers@.len() == 0,
            old(self).last_depth == 0,
            !old(self).skip_section,
        ensures
            result_views(r@) == search_results(
                *old(self).args,
                old(self).filename@,
                old(self).filepath@,
                old(self).doc_type,
                line_views(old(self).lines@),
            ),
    {
        let mut results: Vec<SearchResult> = Vec::new();
        let ghost a = *self.args;
        let ghost file = self.filename@;
        let ghost path = self.filepath@;
        let ghost m = marker_of(self.doc_type);
        let ghost lines = line_views(self.lines@);
        assert(self.state() == initial_state()) by {
            assert(header_views(self.headers@) =~= Seq::<HeaderView>::empty());
        }
        assert(result_views(results@) =~= Seq::<ResultView>::empty());
        while self.pos < self.lines.len()
            invariant
                a == *self.args,
                file == self.filename@,
                path == self.filepath@,
                m == marker_of(self.doc_type),
                lines == line_views(self.lines@),
                self.pos <= self.lines@.len(),
                chain_ok(self.state()),
                result_views(results@) + scan(a, file, path, m, lines, self.pos as int, self.state())
                    == scan(a, file, path, m, lines, 0, initial_state()),
            decreases self.lines@.len() - self.pos,
        {
            let idx = self.pos;
            let ghost st = self.state();
            self.pos = self.pos + 1;
            let header_info = self.parse_header(idx);
            let is_header = header_info.is_some();
            let ghost hv = match &header_info {
                Some(h) => Some(h.view()),
                None => None,
            };
            proof {
                lemma_header_at_moves(lines, idx as int, m);
                if header_info is Some {
                    assert(header_at(lines, idx as int, m) is Some);
                    assert(hv->0.depth >= 1);
                }
            }
            self.handle_header(header_info);
            let ghost st2 = self.state();
            let ghost next = self.pos as int;
            let ghost out = if st2.skip {
                Seq::empty()
            } else {
                line_result(a, file, path, st2.headers, idx as int, lines[idx as int], is_header)
            };
            assert(scan(a, file, path, m, lines, idx as int, st) == out + scan(a, file, path, m, lines, next, st2));
            if self.skip_section {
                assert(result_views(results@) + out =~= result_views(results@));
                continue;
            }
            let full = self.build_current_result_line(idx, is_header);
            if !self.query_matches(full.as_str()) {
                assert(out =~= Seq::<ResultView>::empty());
                assert(result_views(results@) + out =~= result_views(results@));
                continue;
            }
            let (count, score) = self.fuzzy_points(&full);
            if count > 0 || self.args.query.rest.len() == 0 {
                let res = self.make_result(idx, score, is_header);
                proof {
                    assert(out == seq![res.view()]);
                    assert(result_views(results@.push(res)) =~= result_views(results@) + out);
                }
                results.push(res);
            } else {
                assert(out =~= Seq::<ResultView>::empty());
                assert(result_views(results@) + out =~= result_views(results@));
            }
        }
        assert(scan(a, file, path, m, lines, self.pos as int, self.state()) =~= Seq::<ResultView>::empty());
        assert(result_views(results@) + Seq::<ResultView>::empty() =~= result_views(results@));
        results
    }

    /// The result for line `idx` with score `score`.
    fn make_result(&self, idx: usize, score: i128, is_header: bool) -> (r: SearchResult)
        requires
            idx < self.lines@.len(),
        ensures
            r.view() == (ResultView {
                score: score as int,
                line: (idx + 1) as nat,
                file_path: self.filepath@,
                headers: titles(self.state().headers),
                header_line: if self.headers@.len() > 0 {
                    Some(self.state().headers.last().line)
                } else {
                    None
                },
                content: line_views(self.lines@)[idx as int],
                is_header,
            }),
    {
        let ghost hs = header_views(self.headers@);
        // `idx + 1` below stays within `usize`: `idx` is below this length.
        let _len = self.lines.len();
        let mut headers: Vec<String> = Vec::new();
        let mut j: usize = 0;
        while j < self.headers.len()
            invariant
                hs == header_views(self.headers@),
                j <= self.headers@.len(),
                headers@.map_values(|t: String| t@) == titles(hs.take(j as int)),
            decreases self.headers@.len() - j,
        {
            let t = self.headers[j].content.clone();
            proof {
                assert(headers@.push(t).map_values(|t: String| t@) =~= headers@.map_values(|t: String| t@).push(t@));
                assert(titles(hs.take(j + 1)) =~= titles(hs.take(j as int)).push(hs[j as int].content));
            }
            headers.push(t);
            j = j + 1;
        }
        assert(hs.take(j as int) == hs);
        let header_line = if self.headers.len() > 0 {
            Some(self.headers[self.headers.len() - 1].line)
        } else {
            None
        };
        SearchResult {
            score,
            line: idx + 1,
            file_path: self.filepath.to_owned(),
            headers,
            header_line,
            content: self.lines[idx].clone(),
            is_header,
        }
    }

    /// Whether `full` passes the exact parts of the query.
    fn query_matches(&self, full: &str) -> (r: bool)
        ensures
            r == literal_match(self.args.query@, full@),
    {
        self.args.query.matches(full)
    }
}

/// With a query without words, every line that is not left out is a result,
/// with score 0.
pub proof fn lemma_empty_query_matches_every_line(
    a: Args,
    file: Seq<char>,
    path: Seq<char>,
    hs: Seq<HeaderView>,
    i: int,
    line: Seq<char>,
    is_header: bool,
)
    requires
        a.query@.musts.len() == 0,
        a.query@.nones.len() == 0,
        a.query@.regexes.len() == 0,
        a.query@.rest.len() == 0,
    ensures
        line_result(a, file, path, hs, i, line, is_header).len() == 1,
        line_result(a, file, path, hs, i, line, is_header)[0].score == 0,
        line_result(a, file, path, hs, i, line, is_header)[0].content == line,
{
    crate::query::lemma_empty_query_passes(a.query@, composite(a, file, hs, line, is_header));
    let full = composite(a, file, hs, line, is_header);
    assert(points(full, a.query@.rest) =~= Seq::<i64>::empty());
}

/// A heading shallower than the last one cuts the chain to its own depth and
/// takes the last place: the chain keeps the ancestors above that depth and
/// ends with the new heading (not at depth minus one, since depths may jump).
pub proof fn lemma_shallower_header_truncates(st: ScanState, h: HeaderView)
    requires
        chain_ok(st),
        1 <= h.depth < st.last_depth,
    ensures
        ({
            let hs = push_header(st.headers, st.last_depth, h);
            let n = if (h.depth as int) < st.headers.len() { h.depth as int } else { st.headers.len() as int };
            &&& hs.len() == n
            &&& hs.last() == h
            &&& hs.drop_last() == st.headers.take(n - 1)
        }),
{
    let n = if (h.depth as int) < st.headers.len() { h.depth as int } else { st.headers.len() as int };
    let hs = push_header(st.headers, st.last_depth, h);
    assert(hs.drop_last() =~= st.headers.take(n - 1));
}

/// Headings at depths 1, 3 and 2, in that order, leave a chain of two: the
/// first and the last, the one at depth 3 gone.
pub proof fn lemma_depth_jump(h1: HeaderView, h3: HeaderView, h2: HeaderView)
    requires
        h1.depth == 1,
        h3.depth == 3,
        h2.depth == 2,
    ensures
        push_header(push_header(push_header(Seq::empty(), 0, h1), 1, h3), 3, h2) == seq![h1, h2],
{
    let s1 = push_header(Seq::empty(), 0, h1);
    let s2 = push_header(s1, 1, h3);
    assert(s2 == seq![h1, h3]);
    assert(push_header(s2, 3, h2) =~= seq![h1, h2]);
}

/// Lines above the first heading are left out whenever a filter on headings
/// is requested.
pub proof fn lemma_nothing_above_first_heading(a: Args, st: ScanState)
    requires
        structural(a),
        st.last_depth == 0,
    ensures
        after_header(a, st, None).skip,
{
}

/// A line above the first heading gives no result when a filter on headings
/// is requested, whatever tags the file declares there: the search goes on
/// from the next line with the section left out.
pub proof fn lemma_preamble_gives_nothing(
    a: Args,
    file: Seq<char>,
    path: Seq<char>,
    m: char,
    lines: Seq<Seq<char>>,
    i: int,
    st: ScanState,
)
    requires
        structural(a),
        st.last_depth == 0,
        0 <= i < lines.len(),
        header_at(lines, i, m) is None,
    ensures
        scan(a, file, path, m, lines, i, st) == scan(a, file, path, m, lines, i + 1, after_header(a, st, None)),
        after_header(a, st, None).skip,
{
    assert(Seq::<ResultView>::empty() + scan(a, file, path, m, lines, i + 1, after_header(a, st, None))
        == scan(a, file, path, m, lines, i + 1, after_header(a, st, None)));
}

/// Tags are inherited: when only tags are requested and every one of them is
/// on some heading of the chain, a deeper heading without tags opens a
/// section that is not left out.
pub proof fn lemma_tags_inherited(a: Args, st: ScanState, h: HeaderView)
    requires
        chain_ok(st),
        a.prop@.len() == 0,
        a.todo@.len() == 0,
        a.priority@.len() == 0,
        a.priority_lt is None,
        a.priority_gt is None,
        a.scheduled_at is None,
        forall|i: int| 0 <= i < a.tagged@.len() ==> chain_has_tag_spec(st.headers, (#[trigger] a.tagged@[i])@),
        h.depth > st.last_depth,
    ensures
        !after_header(a, st, Some(h)).skip,
{
    let hs = st.headers.push(h);
    assert forall|i: int| 0 <= i < a.tagged@.len() implies chain_has_tag_spec(hs, (#[trigger] a.tagged@[i])@) by {
        let j = choose|j: int| 0 <= j < st.headers.len() && (#[trigger] st.headers[j]).tags.contains(a.tagged@[i]@);
        assert(hs[j] == st.headers[j]);
    }
}

} // verus!
