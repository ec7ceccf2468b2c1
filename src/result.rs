//! A line found by a search.
use vstd::prelude::*;

verus! {

/// A line that matched, with where it was found.
#[derive(Debug)]
pub struct SearchResult {
    /// Sum of the fuzzy scores; 0 when the query has no fuzzy words.
    pub score: i128,
    /// Line number, counted from 1.
    pub line: usize,
    /// In which file.
    pub file_path: String,
    /// Titles of the headings this line belongs to, outermost first.
    pub headers: Vec<String>,
    /// Line (counted from 0) of the innermost of those headings.
    pub header_line: Option<usize>,
    /// Full line content itself.
    pub content: String,
    /// Is this a header line?
    pub is_header: bool,
}

/// The content of a [`SearchResult`] as plain values.
pub struct ResultView {
    pub score: int,
    pub line: nat,
    pub file_path: Seq<char>,
    pub headers: Seq<Seq<char>>,
    pub header_line: Option<nat>,
    pub content: Seq<char>,
    pub is_header: bool,
}

impl SearchResult {
    pub open spec fn view(&self) -> ResultView {
        ResultView {
            score: self.score as int,
            line: self.line as nat,
            file_path: self.file_path@,
            headers: self.headers@.map_values(|t: String| t@),
            header_line: match self.header_line {
                Some(l) => Some(l as nat),
                None => None,
            },
            content: self.content@,
            is_header: self.is_header,
        }
    }
}

/// The character of decimal digit `d`.
pub open spec fn digit_char(d: nat) -> char {
    ((d + '0' as nat) as u8) as char
}

/// `n` written in decimal.
pub open spec fn decimal(n: nat) -> Seq<char>
    decreases n,
{
    if n < 10 {
        seq![digit_char(n)]
    } else {
        decimal(n / 10).push(digit_char(n % 10))
    }
}

/// Appends `n`, written in decimal, to `s`.
pub fn push_decimal(s: &mut String, n: usize)
    ensures
        final(s)@ == old(s)@ + decimal(n as nat),
    decreases n,
{
    if n >= 10 {
        push_decimal(s, n / 10);
    }
    let d = (n % 10) as u8;
    s.push((d + 48u8) as char);
    assert(digit_char((n % 10) as nat) == (d + 48u8) as char);
}

/// The headings part of a result line: `:` before the first title and `sep`
/// before each later one.
pub open spec fn headers_part(hs: Seq<Seq<char>>, sep: Seq<char>) -> Seq<char>
    decreases hs.len(),
{
    if hs.len() == 0 {
        Seq::empty()
    } else {
        headers_part(hs.drop_last(), sep) + (if hs.len() == 1 {
            seq![':']
        } else {
            sep
        }) + hs.last()
    }
}

/// A result as one line: `path:line`, then `:` and the titles joined by
/// `sep` unless titles are left out, then `:` and the content. A null
/// character replaces the first `:` when `null` is set.
pub open spec fn result_line(r: ResultView, null: bool, no_headers: bool, sep: Seq<char>) -> Seq<char> {
    r.file_path + seq![if null { '\0' } else { ':' }] + decimal(r.line) + (if no_headers {
        Seq::empty()
    } else {
        headers_part(r.headers, sep)
    }) + seq![':'] + r.content
}

impl SearchResult {
    /// This result as one line of output.
    pub fn to_line(&self, null: bool, no_headers: bool, sep: &str) -> (r: String)
        ensures
            r@ == result_line(self.view(), null, no_headers, sep@),
    {
        let mut out = String::new();
        out.append(self.file_path.as_str());
        out.push(if null { '\0' } else { ':' });
        push_decimal(&mut out, self.line);
        let ghost before = out@;
        let ghost hs = self.view().headers;
        if !no_headers {
            let mut i: usize = 0;
            while i < self.headers.len()
                invariant
                    hs == self.view().headers,
                    i <= self.headers@.len(),
                    out@ == before + headers_part(hs.take(i as int), sep@),
                decreases self.headers@.len() - i,
            {
                proof {
                    assert(hs.take(i + 1).drop_last() == hs.take(i as int));
                    assert(hs[i as int] == self.headers@[i as int]@);
                }
                if i == 0 {
                    out.push(':');
                } else {
                    out.append(sep);
                }
                out.append(self.headers[i].as_str());
                i = i + 1;
            }
            assert(hs.take(i as int) == hs);
        } else {
            assert(out@ == before + Seq::<char>::empty());
        }
        out.push(':');
        out.append(self.content.as_str());
        out
    }
}

} // verus!
