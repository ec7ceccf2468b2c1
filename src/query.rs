//! The query language: `"must"`, `` `regex` ``, `-none` and fuzzy words.
use vstd::prelude::*;

use crate::parser::{
    drop_blank, index_from, is_blank, parse_around, parse_plain, parse_prefixed,
    parse_whitespace, CharCursor,
};
use crate::parsers::views;
use crate::text::contains;
use regex::Regex;

verus! {

/// Declares `regex::Regex`, held opaque inside a [`Pattern`].
#[verifier::external_type_specification]
#[verifier::external_body]
pub struct ExRegex(Regex);

/// Declares `regex::Error`, what `Regex::new` gives for a pattern it refuses.
#[verifier::external_type_specification]
#[verifier::external_body]
pub struct ExRegexError(regex::Error);

/// Whether `regex::Regex::new` accepts a pattern.
pub uninterp spec fn regex_compiles(pattern: Seq<char>) -> bool;

/// Whether the regex compiled from `pattern` matches somewhere in `text`.
pub uninterp spec fn regex_matches(pattern: Seq<char>, text: Seq<char>) -> bool;

/// Relies on `regex::Regex::new`: `Ok` exactly when the pattern is accepted.
#[verifier::external_body]
fn new_regex(pattern: &str) -> (r: Result<Regex, regex::Error>)
    ensures
        r is Ok == regex_compiles(pattern@),
{
    Regex::new(pattern)
}

/// Relies on `str::contains`: whether `needle` occurs in `hay`.
#[verifier::external_body]
pub(crate) fn str_contains(hay: &str, needle: &str) -> (r: bool)
    ensures
        r == contains(hay@, needle@),
{
    hay.contains(needle)
}

/// A compiled regular expression together with the pattern it was compiled from.
#[derive(Debug)]
pub struct Pattern {
    source: String,
    regex: Regex,
}

impl Pattern {
    /// The pattern text.
    pub closed spec fn view(&self) -> Seq<char> {
        self.source@
    }

    /// Compiles `pattern`.
    pub fn compile(pattern: &str) -> (r: Result<Pattern, regex::Error>)
        ensures
            r is Ok == regex_compiles(pattern@),
            r matches Ok(p) ==> p@ == pattern@,
    {
        match new_regex(pattern) {
            Ok(regex) => Ok(Pattern { source: pattern.to_owned(), regex }),
            Err(e) => Err(e),
        }
    }

    /// The pattern text.
    pub fn as_str(&self) -> (r: &str)
        ensures
            r@ == self@,
    {
        self.source.as_str()
    }

    /// Relies on `regex::Regex::is_match`: whether the regex matches somewhere
    /// in `text`. A `Pattern` is only made by `compile`, so `regex` is the
    /// compiled form of `source`.
    #[verifier::external_body]
    pub(crate) fn is_match(&self, text: &str) -> (r: bool)
        ensures
            r == regex_matches(self@, text@),
    {
        self.regex.is_match(text)
    }
}

/// One word of a query, before its regex is compiled.
#[derive(Debug)]
pub enum QueryToken {
    Regex(String),
    Must(String),
    Not(String),
    Plain(String),
}

impl QueryToken {
    /// Kind (0 must, 1 regex, 2 none, 3 fuzzy) and text.
    pub open spec fn view(&self) -> (int, Seq<char>) {
        match self {
            QueryToken::Must(s) => (0, s@),
            QueryToken::Regex(s) => (1, s@),
            QueryToken::Not(s) => (2, s@),
            QueryToken::Plain(s) => (3, s@),
        }
    }
}

/// The words of query `s` as (kind, text) pairs: kind 0 for `"must"`, 1 for
/// `` `regex` ``, 2 for `-none`, 3 for a fuzzy word. Words are separated by
/// spaces, newlines or tabs; a quoted word runs to its closing quote, any
/// other word to the next space. `None` when a quote or backtick is not closed.
pub open spec fn lex(s: Seq<char>) -> Option<Seq<(int, Seq<char>)>>
    decreases s.len(),
    via lex_decreases
{
    if s.len() == 0 {
        Some(Seq::empty())
    } else if is_blank(s[0]) {
        lex(s.drop_first())
    } else if s[0] == '"' || s[0] == '`' {
        let k = index_from(s, 1, s[0]);
        if k >= s.len() {
            None
        } else {
            with_prefix(
                seq![(if s[0] == '"' { 0int } else { 1int }, s.subrange(1, k))],
                lex(s.skip(k + 1)),
            )
        }
    } else if s[0] == '-' && s.len() > 1 && s[1] != ' ' {
        let k = index_from(s, 1, ' ');
        with_prefix(seq![(2int, s.subrange(1, k))], lex(s.skip(k)))
    } else {
        let k = index_from(s, 0, ' ');
        with_prefix(seq![(3int, s.subrange(0, k))], lex(s.skip(k)))
    }
}

/// Bounds of `index_from`.
pub proof fn lemma_index_from_bounds(s: Seq<char>, i: int, c: char)
    requires
        0 <= i <= s.len(),
    ensures
        i <= index_from(s, i, c) <= s.len(),
        index_from(s, i, c) < s.len() ==> s[index_from(s, i, c)] == c,
    decreases s.len() - i,
{
    if i < s.len() && s[i] != c {
        lemma_index_from_bounds(s, i + 1, c);
    }
}

#[via_fn]
proof fn lex_decreases(s: Seq<char>) {
    if s.len() > 0 && !is_blank(s[0]) {
        lemma_index_from_bounds(s, 1, s[0]);
        lemma_index_from_bounds(s, 1, ' ');
        lemma_index_from_bounds(s, 0, ' ');
    }
}

/// `p` before the words of `o`, when there are any.
pub open spec fn with_prefix(p: Seq<(int, Seq<char>)>, o: Option<Seq<(int, Seq<char>)>>) -> Option<
    Seq<(int, Seq<char>)>,
> {
    match o {
        Some(t) => Some(p + t),
        None => None,
    }
}

/// The texts of the words of kind `kind`, in order.
pub open spec fn texts_of(toks: Seq<(int, Seq<char>)>, kind: int) -> Seq<Seq<char>>
    decreases toks.len(),
{
    if toks.len() == 0 {
        Seq::empty()
    } else {
        let r = texts_of(toks.drop_last(), kind);
        if toks.last().0 == kind {
            r.push(toks.last().1)
        } else {
            r
        }
    }
}

proof fn lemma_lex_drop_blank(s: Seq<char>)
    ensures
        lex(drop_blank(s)) == lex(s),
{
}

/// Views of a sequence of tokens.
pub open spec fn token_views(v: Seq<QueryToken>) -> Seq<(int, Seq<char>)> {
    v.map_values(|t: QueryToken| t.view())
}

/// Why a query was refused.
#[derive(Debug)]
pub enum QueryError {
    /// A quote or backtick is not closed.
    Unterminated,
    /// The text between backticks is not a regex.
    InvalidRegex(String),
}

/// Splits query `input` into its words.
pub fn lex_query(input: &str) -> (r: Result<Vec<QueryToken>, QueryError>)
    ensures
        match lex(input@) {
            Some(t) => r matches Ok(v) && token_views(v@) == t,
            None => r matches Err(QueryError::Unterminated),
        },
{
    let mut cur = CharCursor::new(input);
    let mut toks: Vec<QueryToken> = Vec::new();
    loop
        invariant
            lex(input@) == with_prefix(token_views(toks@), lex(cur@)),
        decreases cur@.len(),
    {
        let ghost before = cur@;
        if parse_whitespace(&mut cur) {
            proof {
                lemma_lex_drop_blank(before);
            }
            continue;
        }
        let ghost s = cur@;
        match cur.peek() {
            None => {
                assert(token_views(toks@) + Seq::empty() == token_views(toks@));
                return Ok(toks);
            },
            Some(c) => {
                proof {
                    lemma_index_from_bounds(s, 1, c);
                    lemma_index_from_bounds(s, 1, ' ');
                    lemma_index_from_bounds(s, 0, ' ');
                }
                let tok = if c == '"' || c == '`' {
                    if !cur.closes(c) {
                        return Err(QueryError::Unterminated);
                    }
                    let text = match parse_around(&mut cur, c, c) {
                        Some(t) => t,
                        None => return Err(QueryError::Unterminated),
                    };
                    proof {
                        lemma_lex_drop_blank(s.skip(index_from(s, 1, c) + 1));
                    }
                    if c == '"' {
                        QueryToken::Must(text)
                    } else {
                        QueryToken::Regex(text)
                    }
                } else if c == '-' && match cur.peek_second() {
                    Some(d) => d != ' ',
                    None => false,
                } {
                    let text = match parse_prefixed(&mut cur, '-') {
                        Some(t) => t,
                        None => return Err(QueryError::Unterminated),
                    };
                    proof {
                        lemma_lex_drop_blank(s.skip(index_from(s, 1, ' ')));
                    }
                    QueryToken::Not(text)
                } else {
                    let text = match parse_plain(&mut cur) {
                        Some(t) => t,
                        None => return Err(QueryError::Unterminated),
                    };
                    proof {
                        lemma_lex_drop_blank(s.skip(index_from(s, 0, ' ')));
                    }
                    QueryToken::Plain(text)
                };
                proof {
                    let tv = tok.view();
                    assert(token_views(toks@.push(tok)) == token_views(toks@) + seq![tv]);
                    assert(lex(s) == with_prefix(seq![tv], lex(cur@)));
                    match lex(cur@) {
                        Some(t) => {
                            assert(token_views(toks@) + (seq![tv] + t) == (token_views(toks@) + seq![tv]) + t);
                        },
                        None => {},
                    }
                }
                toks.push(tok);
            },
        }
    }
}

/// A parsed query.
#[derive(Debug)]
pub struct Query {
    /// Query string that user provided.
    pub full: String,
    /// "keyword"
    pub musts: Vec<String>,
    /// -keyword
    pub nones: Vec<String>,
    /// `(some|regex)`
    pub regexes: Vec<Pattern>,
    /// The fuzzy words.
    pub rest: Vec<String>,
}

/// The content of a [`Query`] as plain values.
pub struct QueryView {
    pub full: Seq<char>,
    pub musts: Seq<Seq<char>>,
    pub nones: Seq<Seq<char>>,
    pub regexes: Seq<Seq<char>>,
    pub rest: Seq<Seq<char>>,
}

/// The pattern texts of a sequence of patterns.
pub open spec fn pattern_views(v: Seq<Pattern>) -> Seq<Seq<char>> {
    v.map_values(|p: Pattern| p@)
}

impl Query {
    pub open spec fn view(&self) -> QueryView {
        QueryView {
            full: self.full@,
            musts: views(self.musts@),
            nones: views(self.nones@),
            regexes: pattern_views(self.regexes@),
            rest: views(self.rest@),
        }
    }

    /// Parses query `input`: quoted words must occur, words between backticks
    /// are regexes that must match, words after `-` must not occur, and the
    /// other words are matched loosely.
    pub fn new(input: &str) -> (r: Result<Query, QueryError>)
        ensures
            match lex(input@) {
                None => r matches Err(QueryError::Unterminated),
                Some(t) => if forall|i: int| 0 <= i < t.len() && (#[trigger] t[i]).0 == 1 ==> regex_compiles(t[i].1) {
                    r matches Ok(q) && q@ == (QueryView {
                        full: input@,
                        musts: texts_of(t, 0),
                        regexes: texts_of(t, 1),
                        nones: texts_of(t, 2),
                        rest: texts_of(t, 3),
                    })
                } else {
                    r matches Err(QueryError::InvalidRegex(_))
                },
            },
    {
        let toks = match lex_query(input) {
            Ok(v) => v,
            Err(e) => return Err(e),
        };
        let ghost t = token_views(toks@);
        assert(lex(input@) == Some(t));
        let mut musts: Vec<String> = Vec::new();
        let mut nones: Vec<String> = Vec::new();
        let mut regexes: Vec<Pattern> = Vec::new();
        let mut rest: Vec<String> = Vec::new();
        let mut i: usize = 0;
        let n = toks.len();
        for tok in it: toks
            invariant
                n == t.len(),
                lex(input@) == Some(t),
                t == token_views(it.seq()),
                views(musts@) == texts_of(t.take(it.index() as int), 0),
                pattern_views(regexes@) == texts_of(t.take(it.index() as int), 1),
                views(nones@) == texts_of(t.take(it.index() as int), 2),
                views(rest@) == texts_of(t.take(it.index() as int), 3),
                forall|j: int| 0 <= j < it.index() && (#[trigger] t[j]).0 == 1 ==> regex_compiles(t[j].1),
        {
            let ghost k = it.index() as int;
            let ghost tv = tok.view();
            assert(t[k] == tv);
            assert(t.take(k + 1).drop_last() == t.take(k));
            assert(t.take(k + 1).last() == tv);
            match tok {
                QueryToken::Must(x) => {
                    assert(views(musts@.push(x)) == views(musts@).push(x@));
                    musts.push(x);
                },
                QueryToken::Regex(x) => {
                    match Pattern::compile(x.as_str()) {
                        Ok(p) => {
                            assert(pattern_views(regexes@.push(p)) == pattern_views(regexes@).push(p@));
                            regexes.push(p);
                        },
                        Err(_) => {
                            assert(t[k].0 == 1 && !regex_compiles(t[k].1));
                            assert(lex(input@) == Some(t));
                            assert(!(forall|i: int| 0 <= i < t.len() && (#[trigger] t[i]).0 == 1 ==> regex_compiles(t[i].1)));
                            return Err(QueryError::InvalidRegex(x));
                        },
                    }
                },
                QueryToken::Not(x) => {
                    assert(views(nones@.push(x)) == views(nones@).push(x@));
                    nones.push(x);
                },
                QueryToken::Plain(x) => {
                    assert(views(rest@.push(x)) == views(rest@).push(x@));
                    rest.push(x);
                },
            }
        }
        assert(t.take(n as int) == t);
        Ok(Query { full: input.to_owned(), musts, nones, regexes, rest })
    }

    /// Whether `text` passes the exact parts of the query: every regex
    /// matches, every must-word occurs, no none-word occurs.
    pub fn matches(&self, text: &str) -> (r: bool)
        ensures
            r == literal_match(self@, text@),
    {
        let mut i: usize = 0;
        while i < self.regexes.len()
            invariant
                i <= self.regexes@.len(),
                forall|j: int| 0 <= j < i ==> regex_matches(#[trigger] pattern_views(self.regexes@)[j], text@),
            decreases self.regexes@.len() - i,
        {
            if !self.regexes[i].is_match(text) {
                assert(!regex_matches(self@.regexes[i as int], text@));
                return false;
            }
            i = i + 1;
        }
        let mut i: usize = 0;
        while i < self.musts.len()
            invariant
                i <= self.musts@.len(),
                forall|j: int| 0 <= j < self.regexes@.len() ==> regex_matches(#[trigger] pattern_views(self.regexes@)[j], text@),
                forall|j: int| 0 <= j < i ==> contains(text@, #[trigger] views(self.musts@)[j]),
            decreases self.musts@.len() - i,
        {
            if !str_contains(text, self.musts[i].as_str()) {
                assert(!contains(text@, self@.musts[i as int]));
                return false;
            }
            i = i + 1;
        }
        let mut i: usize = 0;
        while i < self.nones.len()
            invariant
                i <= self.nones@.len(),
                forall|j: int| 0 <= j < self.regexes@.len() ==> regex_matches(#[trigger] pattern_views(self.regexes@)[j], text@),
                forall|j: int| 0 <= j < self.musts@.len() ==> contains(text@, #[trigger] views(self.musts@)[j]),
                forall|j: int| 0 <= j < i ==> !contains(text@, #[trigger] views(self.nones@)[j]),
            decreases self.nones@.len() - i,
        {
            if str_contains(text, self.nones[i].as_str()) {
                assert(contains(text@, self@.nones[i as int]));
                return false;
            }
            i = i + 1;
        }
        true
    }
}

/// `text` passes the exact parts of query `q`: every regex matches, every
/// must-word occurs and no none-word occurs.
pub open spec fn literal_match(q: QueryView, text: Seq<char>) -> bool {
    &&& forall|j: int| 0 <= j < q.regexes.len() ==> regex_matches(#[trigger] q.regexes[j], text)
    &&& forall|j: int| 0 <= j < q.musts.len() ==> contains(text, #[trigger] q.musts[j])
    &&& forall|j: int| 0 <= j < q.nones.len() ==> !contains(text, #[trigger] q.nones[j])
}

/// Whether two vectors hold the same strings.
pub fn same_strings(a: &Vec<String>, b: &Vec<String>) -> (r: bool)
    ensures
        r == (views(a@) == views(b@)),
{
    if a.len() != b.len() {
        assert(views(a@).len() != views(b@).len());
        return false;
    }
    let mut i: usize = 0;
    while i < a.len()
        invariant
            a@.len() == b@.len(),
            i <= a@.len(),
            forall|k: int| 0 <= k < i ==> (#[trigger] a@[k])@ == b@[k]@,
        decreases a@.len() - i,
    {
        if a[i] != b[i] {
            assert(views(a@)[i as int] != views(b@)[i as int]);
            return false;
        }
        i = i + 1;
    }
    assert(views(a@) =~= views(b@));
    true
}

fn same_patterns(a: &Vec<Pattern>, b: &Vec<Pattern>) -> (r: bool)
    ensures
        r == (pattern_views(a@) == pattern_views(b@)),
{
    if a.len() != b.len() {
        assert(pattern_views(a@).len() != pattern_views(b@).len());
        return false;
    }
    let mut i: usize = 0;
    while i < a.len()
        invariant
            a@.len() == b@.len(),
            i <= a@.len(),
            forall|k: int| 0 <= k < i ==> (#[trigger] a@[k])@ == b@[k]@,
        decreases a@.len() - i,
    {
        if a[i].source != b[i].source {
            assert(pattern_views(a@)[i as int] != pattern_views(b@)[i as int]);
            return false;
        }
        i = i + 1;
    }
    assert(pattern_views(a@) =~= pattern_views(b@));
    true
}

impl PartialEq for Query {
    fn eq(&self, other: &Query) -> (r: bool) {
        self.full == other.full && same_strings(&self.musts, &other.musts) && same_strings(&self.nones, &other.nones)
            && same_patterns(&self.regexes, &other.regexes) && same_strings(&self.rest, &other.rest)
    }
}

impl vstd::std_specs::cmp::PartialEqSpecImpl for Query {
    open spec fn obeys_eq_spec() -> bool {
        true
    }

    open spec fn eq_spec(&self, other: &Query) -> bool {
        self@ == other@
    }
}

impl Default for Query {
    fn default() -> (r: Query)
        ensures
            r@.full.len() == 0,
            r@.musts.len() == 0,
            r@.nones.len() == 0,
            r@.regexes.len() == 0,
            r@.rest.len() == 0,
    {
        Query { full: String::new(), musts: Vec::new(), nones: Vec::new(), regexes: Vec::new(), rest: Vec::new() }
    }
}

/// The empty query has no words at all: no must-words, no none-words, no
/// regexes and no fuzzy words.
pub proof fn lemma_empty_query_is_empty()
    ensures
        lex(Seq::empty()) == Some(Seq::<(int, Seq<char>)>::empty()),
        texts_of(Seq::empty(), 0) == Seq::<Seq<char>>::empty(),
        texts_of(Seq::empty(), 1) == Seq::<Seq<char>>::empty(),
        texts_of(Seq::empty(), 2) == Seq::<Seq<char>>::empty(),
        texts_of(Seq::empty(), 3) == Seq::<Seq<char>>::empty(),
{
}

/// A query without words lets every text through its exact parts.
pub proof fn lemma_empty_query_passes(q: QueryView, text: Seq<char>)
    requires
        q.musts.len() == 0,
        q.nones.len() == 0,
        q.regexes.len() == 0,
    ensures
        literal_match(q, text),
{
}

} // verus!
