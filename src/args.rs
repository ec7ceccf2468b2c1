//! The options of a search run.
use vstd::prelude::*;

use crate::datetime::{date_time_range, date_time_range_at, DateTimeView, OrgDatePlan, OrgDateTime, TimestampError};
use crate::header::{OrgPriority, OrgTodo};
use crate::parser::index_from;
use crate::parsers::todo_of_word;
use crate::query::{lex, texts_of, Query, QueryError};
use crate::text::{chars_of, string_of};

verus! {

/// Options of a search run: the filters that headings must pass, the query,
/// and how files are chosen and results shown.
#[derive(Debug)]
pub struct Args {
    /// Activate debug mode
    pub debug: bool,
    /// How many results to show.
    pub count: Option<usize>,
    /// TODO states.
    pub todo: Vec<OrgTodo>,
    /// List of priorities. Items without priorites do not match if this is set.
    pub priority: Vec<OrgPriority>,
    /// Maximum priority.
    pub priority_lt: Option<OrgPriority>,
    /// Minimum priority.
    pub priority_gt: Option<OrgPriority>,
    /// Scheduled date.
    pub scheduled_at: Option<OrgDateTime>,
    /// Scheduled before.
    pub scheduled_before: Option<OrgDateTime>,
    /// Scheduled after.
    pub scheduled_after: Option<OrgDateTime>,
    /// Tags that headers should contain. Headers inherit parents tags.
    pub tagged: Vec<String>,
    /// key=value pairs that headers should hold among their properties.
    pub prop: Vec<(String, String)>,
    /// Print only matching headers.
    pub only_headers: bool,
    /// Extensions of outline files.
    pub org_extension: Vec<String>,
    /// Extensions of markdown files.
    pub md_extension: Vec<String>,
    /// Don't search outline files.
    pub no_org: bool,
    /// Don't search markdown files.
    pub no_markdown: bool,
    /// Whether to search in file names too.
    pub search_filename: bool,
    /// Don't use colors for the output.
    pub no_color: bool,
    /// Print a null byte after file name.
    pub null: bool,
    /// Don't include headers in the output.
    pub no_headers: bool,
    /// A seperator to insert between headers while outputting.
    pub header_seperator: String,
    /// Folder names to leave out.
    pub blacklist_folder: Vec<String>,
    /// The query.
    pub query: Query,
    /// Where to search.
    pub path: String,
}

/// What `str::to_uppercase` gives for `s`.
pub uninterp spec fn upper_of(s: Seq<char>) -> Seq<char>;

/// Relies on `str::to_uppercase`: the upper-case form of `s`, which depends on
/// `s` alone.
#[verifier::external_body]
fn to_upper(s: &str) -> (r: String)
    ensures
        r@ == upper_of(s@),
{
    s.to_uppercase()
}

/// The start of the message for a pair without `=`.
pub open spec fn props_message_start() -> Seq<char> {
    "invalid PROP=value: no `=` found in `"@
}

/// Reads a `KEY=value` pair, split at the first `=`.
pub fn parse_props(s: &str) -> (r: Result<(String, String), String>)
    ensures
        ({
            let k = index_from(s@, 0, '=');
            if k < s@.len() {
                r matches Ok(p) && p.0@ == s@.subrange(0, k) && p.1@ == s@.subrange(k + 1, s@.len() as int)
            } else {
                r matches Err(m) && m@ == props_message_start() + s@ + "`"@
            }
        }),
{
    let cs = chars_of(s);
    let mut k: usize = 0;
    while k < cs.len() && cs[k] != '='
        invariant
            cs@ == s@,
            k <= cs@.len(),
            index_from(s@, 0, '=') == index_from(s@, k as int, '='),
        decreases cs@.len() - k,
    {
        k = k + 1;
    }
    if k < cs.len() {
        Ok((string_of(cs.as_slice(), 0, k), string_of(cs.as_slice(), k + 1, cs.len())))
    } else {
        let mut m = String::new();
        m.append("invalid PROP=value: no `=` found in `");
        m.append(s);
        m.append("`");
        Err(m)
    }
}

/// Reads a TODO state, without regard to case.
pub fn parse_todos(s: &str) -> (r: Result<OrgTodo, String>)
    ensures
        r matches Ok(t) && t.view() == todo_of_word(upper_of(s@)),
{
    let u = to_upper(s);
    let cs = chars_of(u.as_str());
    let todo_w = vec!['T', 'O', 'D', 'O'];
    let done_w = vec!['D', 'O', 'N', 'E'];
    assert(todo_w@ == crate::parsers::todo_keyword());
    assert(done_w@ == crate::parsers::done_keyword());
    assert(cs@.subrange(0, cs@.len() as int) == cs@);
    if same_chars(&cs, &todo_w) {
        Ok(OrgTodo::TODO)
    } else if same_chars(&cs, &done_w) {
        Ok(OrgTodo::DONE)
    } else {
        Ok(OrgTodo::Other(u))
    }
}

fn same_chars(a: &Vec<char>, b: &Vec<char>) -> (r: bool)
    ensures
        r == (a@ == b@),
{
    if a.len() != b.len() {
        return false;
    }
    let mut k: usize = 0;
    while k < a.len()
        invariant
            a@.len() == b@.len(),
            k <= a@.len(),
            forall|j: int| 0 <= j < k ==> a@[j] == b@[j],
        decreases a@.len() - k,
    {
        if a[k] != b[k] {
            return false;
        }
        k = k + 1;
    }
    assert(a@ == b@);
    true
}

/// Reads a priority token.
pub fn parse_priority(s: &str) -> (r: Result<OrgPriority, String>)
    ensures
        r matches Ok(p) && p.0@ == s@,
{
    Ok(OrgPriority(s.to_owned()))
}

/// Reads a date with optional weekday and time range (`2021-08-28 Sat 10:00`)
/// as an active timestamp with plan `date_plan`.
pub fn parse_org_date_time(s: &str, date_plan: OrgDatePlan) -> (r: Result<OrgDateTime, TimestampError>)
    ensures
        match date_time_range_at(s@, 0) {
            Some((start, end, _)) => r matches Ok(d) && d.view() == (DateTimeView {
                is_active: true,
                date_plan,
                date_start: start,
                date_end: end,
                invertal: None,
            }),
            None => r is Err,
        },
{
    let cs = chars_of(s);
    match date_time_range(&cs, 0) {
        Some((date_start, date_end, _)) => Ok(
            OrgDateTime { is_active: true, date_plan, date_start, date_end, invertal: None },
        ),
        None => Err(TimestampError),
    }
}

/// Reads a date as a SCHEDULED timestamp.
pub fn parse_org_scheduled(s: &str) -> (r: Result<OrgDateTime, TimestampError>)
    ensures
        match date_time_range_at(s@, 0) {
            Some((start, end, _)) => r matches Ok(d) && d.view() == (DateTimeView {
                is_active: true,
                date_plan: OrgDatePlan::Scheduled,
                date_start: start,
                date_end: end,
                invertal: None,
            }),
            None => r is Err,
        },
{
    parse_org_date_time(s, OrgDatePlan::Scheduled)
}

/// Reads the query.
pub fn parse_query(s: &str) -> (r: Result<Query, QueryError>)
    ensures
        match lex(s@) {
            None => r matches Err(QueryError::Unterminated),
            Some(t) => if forall|i: int| 0 <= i < t.len() && (#[trigger] t[i]).0 == 1 ==> crate::query::regex_compiles(t[i].1) {
                r matches Ok(q) && q@ == (crate::query::QueryView {
                    full: s@,
                    musts: texts_of(t, 0),
                    regexes: texts_of(t, 1),
                    nones: texts_of(t, 2),
                    rest: texts_of(t, 3),
                })
            } else {
                r matches Err(QueryError::InvalidRegex(_))
            },
        },
{
    Query::new(s)
}

} // verus!
