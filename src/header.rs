//! Headings of a document: TODO state, priority and the header record itself.
use vstd::prelude::*;

use crate::datetime::{DateTimeView, OrgDateTime};
use crate::number::{all_digits, decimal_u32, parse_u32};
use crate::parsers::views;
use crate::query::same_strings;
use crate::text::{alphabetic, chars_of};
use std::cmp::Ordering;

verus! {

/// A priority token, as written between `[#` and `]`.
#[derive(Debug)]
pub struct OrgPriority(pub String);

/// Every character of `s` is alphabetic.
pub open spec fn all_alphabetic(s: Seq<char>) -> bool {
    forall|i: int| 0 <= i < s.len() ==> alphabetic(#[trigger] s[i])
}

/// Lexicographic order of character sequences, the order of `String`.
pub open spec fn lex_cmp(a: Seq<char>, b: Seq<char>) -> Ordering
    decreases a.len(),
{
    if a.len() == 0 {
        if b.len() == 0 {
            Ordering::Equal
        } else {
            Ordering::Less
        }
    } else if b.len() == 0 {
        Ordering::Greater
    } else if a[0] < b[0] {
        Ordering::Less
    } else if a[0] > b[0] {
        Ordering::Greater
    } else {
        lex_cmp(a.drop_first(), b.drop_first())
    }
}

/// Order of two integers.
pub open spec fn int_cmp(a: int, b: int) -> Ordering {
    if a < b {
        Ordering::Less
    } else if a > b {
        Ordering::Greater
    } else {
        Ordering::Equal
    }
}

/// How priority `a` compares with priority `b`: letters in reverse (`A` above
/// `B`) when `a` is all letters, numbers by value when `a` is all digits (a
/// token that is no `u32` counting as 0), string order otherwise.
pub open spec fn priority_cmp(a: Seq<char>, b: Seq<char>) -> Ordering {
    if all_alphabetic(a) {
        lex_cmp(b, a)
    } else if all_digits(a) {
        int_cmp(
            match decimal_u32(a) {
                Some(v) => v as int,
                None => 0,
            },
            match decimal_u32(b) {
                Some(v) => v as int,
                None => 0,
            },
        )
    } else {
        lex_cmp(a, b)
    }
}

/// Lexicographic comparison of two character vectors.
pub fn compare_chars(a: &Vec<char>, b: &Vec<char>) -> (r: Ordering)
    ensures
        r == lex_cmp(a@, b@),
{
    let mut i: usize = 0;
    assert(a@.skip(0) == a@ && b@.skip(0) == b@);
    while i < a.len() && i < b.len() && a[i] == b[i]
        invariant
            i <= a@.len(),
            i <= b@.len(),
            lex_cmp(a@, b@) == lex_cmp(a@.skip(i as int), b@.skip(i as int)),
        decreases a@.len() - i,
    {
        assert(a@.skip(i as int).drop_first() == a@.skip(i + 1));
        assert(b@.skip(i as int).drop_first() == b@.skip(i + 1));
        i = i + 1;
    }
    if i == a.len() {
        if i == b.len() {
            Ordering::Equal
        } else {
            Ordering::Less
        }
    } else if i == b.len() {
        Ordering::Greater
    } else if a[i] < b[i] {
        Ordering::Less
    } else {
        Ordering::Greater
    }
}

fn chars_all_alphabetic(s: &Vec<char>) -> (r: bool)
    ensures
        r == all_alphabetic(s@),
{
    let mut i: usize = 0;
    while i < s.len()
        invariant
            i <= s@.len(),
            forall|k: int| 0 <= k < i ==> alphabetic(#[trigger] s@[k]),
        decreases s@.len() - i,
    {
        if !s[i].is_alphabetic() {
            return false;
        }
        i = i + 1;
    }
    true
}

fn chars_all_digits(s: &Vec<char>) -> (r: bool)
    ensures
        r == all_digits(s@),
{
    let mut i: usize = 0;
    while i < s.len()
        invariant
            i <= s@.len(),
            forall|k: int| 0 <= k < i ==> crate::text::is_digit(#[trigger] s@[k]),
        decreases s@.len() - i,
    {
        if !('0' <= s[i] && s[i] <= '9') {
            return false;
        }
        i = i + 1;
    }
    true
}

impl PartialEq for OrgPriority {
    fn eq(&self, other: &OrgPriority) -> (r: bool) {
        self.0 == other.0
    }
}

impl vstd::std_specs::cmp::PartialEqSpecImpl for OrgPriority {
    open spec fn obeys_eq_spec() -> bool {
        true
    }

    open spec fn eq_spec(&self, other: &OrgPriority) -> bool {
        self.0@ == other.0@
    }
}

impl PartialOrd for OrgPriority {
    fn partial_cmp(&self, other: &OrgPriority) -> (r: Option<Ordering>) {
        let a = chars_of(self.0.as_str());
        let b = chars_of(other.0.as_str());
        if chars_all_alphabetic(&a) {
            Some(compare_chars(&b, &a))
        } else if chars_all_digits(&a) {
            let x: u32 = match parse_u32(a.as_slice()) {
                Some(v) => v,
                None => 0,
            };
            let y: u32 = match parse_u32(b.as_slice()) {
                Some(v) => v,
                None => 0,
            };
            Some(
                if x < y {
                    Ordering::Less
                } else if x > y {
                    Ordering::Greater
                } else {
                    Ordering::Equal
                },
            )
        } else {
            Some(compare_chars(&a, &b))
        }
    }
}

impl vstd::std_specs::cmp::PartialOrdSpecImpl for OrgPriority {
    open spec fn obeys_partial_cmp_spec() -> bool {
        true
    }

    open spec fn partial_cmp_spec(&self, other: &OrgPriority) -> Option<Ordering> {
        Some(priority_cmp(self.0@, other.0@))
    }
}

/// TODO state of a heading.
#[derive(Debug)]
pub enum OrgTodo {
    TODO,
    DONE,
    Other(String),
}

impl OrgTodo {
    /// The state as a plain value: 0 for `TODO`, 1 for `DONE`, 2 with the word otherwise.
    pub open spec fn view(&self) -> (int, Seq<char>) {
        match self {
            OrgTodo::TODO => (0, Seq::empty()),
            OrgTodo::DONE => (1, Seq::empty()),
            OrgTodo::Other(s) => (2, s@),
        }
    }
}

impl PartialEq for OrgTodo {
    fn eq(&self, other: &OrgTodo) -> (r: bool) {
        match (self, other) {
            (OrgTodo::TODO, OrgTodo::TODO) => true,
            (OrgTodo::DONE, OrgTodo::DONE) => true,
            (OrgTodo::Other(a), OrgTodo::Other(b)) => a.eq(b),
            _ => false,
        }
    }
}

impl vstd::std_specs::cmp::PartialEqSpecImpl for OrgTodo {
    open spec fn obeys_eq_spec() -> bool {
        true
    }

    open spec fn eq_spec(&self, other: &OrgTodo) -> bool {
        self.view() == other.view()
    }
}

/// A heading of a document.
#[derive(Debug)]
pub struct OrgHeader {
    /// On which line (counted from 0) the header is found.
    pub line: usize,
    /// The count of markers (`#` or `*`) at the beginning of the header line.
    pub depth: usize,
    /// The header itself, stripped from tags or other annotations.
    pub content: String,
    /// Tags found in the header, in the order written.
    pub tags: Vec<String>,
    /// Properties of the `:PROPERTIES:` block, keys unique, in order of first appearance.
    pub properties: Vec<(String, String)>,
    /// SCHEDULED/DEADLINE status of the header.
    pub datetime: Option<OrgDateTime>,
    /// TODO state
    pub todo: Option<OrgTodo>,
    /// The priority, like [#...], ... being anything
    pub priority: Option<OrgPriority>,
}

/// The content of an [`OrgHeader`] as plain values.
pub struct HeaderView {
    pub line: nat,
    pub depth: nat,
    pub content: Seq<char>,
    pub tags: Seq<Seq<char>>,
    pub properties: Seq<(Seq<char>, Seq<char>)>,
    pub datetime: Option<DateTimeView>,
    pub todo: Option<(int, Seq<char>)>,
    pub priority: Option<Seq<char>>,
}

/// The views of a vector of key/value pairs.
pub open spec fn pair_views(v: Seq<(String, String)>) -> Seq<(Seq<char>, Seq<char>)> {
    v.map_values(|p: (String, String)| (p.0@, p.1@))
}

impl OrgHeader {
    pub open spec fn view(&self) -> HeaderView {
        HeaderView {
            line: self.line as nat,
            depth: self.depth as nat,
            content: self.content@,
            tags: views(self.tags@),
            properties: pair_views(self.properties@),
            datetime: match self.datetime {
                Some(d) => Some(d.view()),
                None => None,
            },
            todo: match self.todo {
                Some(t) => Some(t.view()),
                None => None,
            },
            priority: match self.priority {
                Some(p) => Some(p.0@),
                None => None,
            },
        }
    }
}

fn same_pairs(a: &Vec<(String, String)>, b: &Vec<(String, String)>) -> (r: bool)
    ensures
        r == (pair_views(a@) == pair_views(b@)),
{
    if a.len() != b.len() {
        assert(pair_views(a@).len() != pair_views(b@).len());
        return false;
    }
    let mut i: usize = 0;
    while i < a.len()
        invariant
            a@.len() == b@.len(),
            i <= a@.len(),
            forall|k: int| 0 <= k < i ==> pair_views(a@)[k] == pair_views(b@)[k],
        decreases a@.len() - i,
    {
        if !(a[i].0 == b[i].0 && a[i].1 == b[i].1) {
            assert(pair_views(a@)[i as int] != pair_views(b@)[i as int]);
            return false;
        }
        i = i + 1;
    }
    assert(pair_views(a@) =~= pair_views(b@));
    true
}

impl PartialEq for OrgHeader {
    fn eq(&self, other: &OrgHeader) -> (r: bool) {
        let same_datetime = match (&self.datetime, &other.datetime) {
            (Some(x), Some(y)) => x.eq(y),
            (None, None) => true,
            _ => false,
        };
        let same_todo = match (&self.todo, &other.todo) {
            (Some(x), Some(y)) => x.eq(y),
            (None, None) => true,
            _ => false,
        };
        let same_priority = match (&self.priority, &other.priority) {
            (Some(x), Some(y)) => x.eq(y),
            (None, None) => true,
            _ => false,
        };
        self.line == other.line && self.depth == other.depth && self.content == other.content && same_strings(
            &self.tags,
            &other.tags,
        ) && same_pairs(&self.properties, &other.properties) && same_datetime && same_todo && same_priority
    }
}

impl vstd::std_specs::cmp::PartialEqSpecImpl for OrgHeader {
    open spec fn obeys_eq_spec() -> bool {
        true
    }

    open spec fn eq_spec(&self, other: &OrgHeader) -> bool {
        self.view() == other.view()
    }
}

} // verus!
