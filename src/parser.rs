//! A cursor over the characters of a string, and small readers built on it.
use vstd::prelude::*;

use crate::text::{chars_of, string_of};

verus! {

/// The characters of a string with a reading position.
pub struct CharCursor {
    chars: Vec<char>,
    pos: usize,
}

/// A separator between words: space, newline or tab.
pub open spec fn is_blank(c: char) -> bool {
    c == ' ' || c == '\n' || c == '\t'
}

/// `s` with one leading separator removed, if it has one.
pub open spec fn drop_blank(s: Seq<char>) -> Seq<char> {
    if s.len() > 0 && is_blank(s[0]) {
        s.drop_first()
    } else {
        s
    }
}

/// First position at or after `i` that holds `c`, or the length of `s`.
pub open spec fn index_from(s: Seq<char>, i: int, c: char) -> int
    decreases s.len() - i,
{
    if 0 <= i < s.len() && s[i] != c {
        index_from(s, i + 1, c)
    } else {
        i
    }
}

impl CharCursor {
    /// The characters not read yet.
    pub closed spec fn view(&self) -> Seq<char> {
        if self.pos <= self.chars@.len() {
            self.chars@.skip(self.pos as int)
        } else {
            Seq::empty()
        }
    }

    /// A cursor at the start of `s`.
    pub fn new(s: &str) -> (r: CharCursor)
        ensures
            r@ == s@,
    {
        let chars = chars_of(s);
        let r = CharCursor { chars, pos: 0 };
        assert(r.chars@.skip(0) == r.chars@);
        r
    }

    /// The next character, not read.
    pub fn peek(&self) -> (r: Option<char>)
        ensures
            self@.len() == 0 ==> r is None,
            self@.len() > 0 ==> r == Some(self@[0]),
    {
        if self.pos < self.chars.len() {
            Some(self.chars[self.pos])
        } else {
            None
        }
    }

    /// The character after the next one, not read.
    pub fn peek_second(&self) -> (r: Option<char>)
        ensures
            self@.len() < 2 ==> r is None,
            self@.len() >= 2 ==> r == Some(self@[1]),
    {
        if self.pos < self.chars.len() && self.chars.len() - self.pos >= 2 {
            Some(self.chars[self.pos + 1])
        } else {
            None
        }
    }

    /// Reads the next character.
    pub fn next(&mut self) -> (r: Option<char>)
        ensures
            old(self)@.len() == 0 ==> r is None && final(self)@ == old(self)@,
            old(self)@.len() > 0 ==> r == Some(old(self)@[0]) && final(self)@ == old(self)@.drop_first(),
    {
        if self.pos < self.chars.len() {
            let c = self.chars[self.pos];
            self.pos = self.pos + 1;
            assert(self.chars@.skip(self.pos as int) == old(self).chars@.skip(old(self).pos as int).drop_first());
            Some(c)
        } else {
            None
        }
    }

    /// Whether a `c` occurs among the unread characters after the next one.
    pub fn closes(&self, c: char) -> (r: bool)
        ensures
            r == (self@.len() > 0 && index_from(self@, 1, c) < self@.len()),
    {
        if self.pos >= self.chars.len() {
            return false;
        }
        let ghost v = self@;
        let mut i = self.pos + 1;
        while i < self.chars.len() && self.chars[i] != c
            invariant
                self.pos < i <= self.chars@.len(),
                v == self.chars@.skip(self.pos as int),
                index_from(v, 1, c) == index_from(v, i - self.pos, c),
            decreases self.chars@.len() - i,
        {
            i = i + 1;
        }
        i < self.chars.len()
    }
}

/// Takes characters while a predicate holds of them.
pub trait GentleIterator {
    spec fn rest(&self) -> Seq<char>;

    fn take_until<F: Fn(char) -> bool>(&mut self, predicate: F) -> (r: Vec<char>)
        requires
            forall|c: char| predicate.requires((c,)),
        ensures
            r@ == old(self).rest().take(r@.len() as int),
            r@.len() <= old(self).rest().len(),
            final(self).rest() == old(self).rest().skip(r@.len() as int),
            forall|i: int| 0 <= i < r@.len() ==> predicate.ensures((#[trigger] r@[i],), true),
            final(self).rest().len() > 0 ==> predicate.ensures((final(self).rest()[0],), false),
    ;
}

impl GentleIterator for CharCursor {
    open spec fn rest(&self) -> Seq<char> {
        self@
    }

    fn take_until<F: Fn(char) -> bool>(&mut self, predicate: F) -> (r: Vec<char>) {
        let mut v: Vec<char> = Vec::new();
        let ghost start = self@;
        loop
            invariant
                forall|c: char| predicate.requires((c,)),
                start == old(self)@,
                v@.len() <= start.len(),
                v@ == start.take(v@.len() as int),
                self@ == start.skip(v@.len() as int),
                forall|i: int| 0 <= i < v@.len() ==> predicate.ensures((#[trigger] v@[i],), true),
            decreases self@.len(),
        {
            match self.peek() {
                None => {
                    return v;
                },
                Some(c) => {
                    if !predicate(c) {
                        return v;
                    }
                    self.next();
                    v.push(c);
                    assert(start.take(v@.len() as int) == start.take(v@.len() - 1).push(c));
                    assert(start.skip(v@.len() as int) == start.skip(v@.len() - 1).drop_first());
                },
            }
        }
    }
}

/// Whether the next character exists and `fun` holds of it.
pub fn check<F: Fn(char) -> bool>(iter: &CharCursor, fun: F) -> (r: bool)
    requires
        forall|c: char| fun.requires((c,)),
    ensures
        iter@.len() == 0 ==> !r,
        iter@.len() > 0 ==> fun.ensures((iter@[0],), r),
{
    match iter.peek() {
        Some(x) => fun(x),
        None => false,
    }
}

/// Whether the next character is `chr`.
pub fn check_chr(iter: &CharCursor, chr: char) -> (r: bool)
    ensures
        r == (iter@.len() > 0 && iter@[0] == chr),
{
    check(iter, |x: char| -> (b: bool)
        ensures
            b == (x == chr),
        { x == chr })
}

/// Reads one separator (space, newline or tab) if one comes next.
pub fn parse_whitespace(iter: &mut CharCursor) -> (r: bool)
    ensures
        r == (old(iter)@.len() > 0 && is_blank(old(iter)@[0])),
        final(iter)@ == drop_blank(old(iter)@),
{
    if check_chr(iter, ' ') || check_chr(iter, '\n') || check_chr(iter, '\t') {
        iter.next();
        true
    } else {
        false
    }
}

/// Reads `beg`, the text up to the next `end`, `end` itself and one separator;
/// nothing when `beg` does not come next.
pub fn parse_around(iter: &mut CharCursor, beg: char, end: char) -> (r: Option<String>)
    ensures
        ({
            let s = old(iter)@;
            let k = index_from(s, 1, end);
            if s.len() > 0 && s[0] == beg {
                &&& r matches Some(v) && v@ == s.subrange(1, k)
                &&& final(iter)@ == drop_blank(s.skip(if k < s.len() { k + 1 } else { k }))
            } else {
                r is None && final(iter)@ == s
            }
        }),
{
    let ghost s = iter@;
    if !check_chr(iter, beg) {
        return None;
    }
    iter.next();
    let v = iter.take_until(|c: char| -> (b: bool)
        ensures
            b == (c != end),
        { c != end });
    proof {
        let k = index_from(s, 1, end);
        let t = s.drop_first();
        assert forall|j: int| 1 <= j < v@.len() + 1 implies s[j] != end by {
            assert(v@[j - 1] == t[j - 1]);
        }
        if v@.len() + 1 < s.len() {
            assert(iter@[0] == s[v@.len() + 1int]);
        }
        lemma_index_from(s, 1, end, v@.len() + 1int);
        assert(s.drop_first().take(v@.len() as int) == s.subrange(1, k));
        assert(s.drop_first().skip(v@.len() as int) == s.skip(k));
    }
    iter.next();
    proof {
        let k = index_from(s, 1, end);
        if k < s.len() {
            assert(s.skip(k).drop_first() == s.skip(k + 1));
        }
    }
    parse_whitespace(iter);
    Some(string_of(v.as_slice(), 0, v.len()))
}

proof fn lemma_index_from(s: Seq<char>, i: int, c: char, k: int)
    requires
        0 <= i <= k <= s.len(),
        forall|j: int| i <= j < k ==> s[j] != c,
        k == s.len() || s[k] == c,
    ensures
        index_from(s, i, c) == k,
    decreases k - i,
{
    if i < k {
        lemma_index_from(s, i + 1, c, k);
    }
}

/// Reads `chr`, the text up to the next space, and one separator; nothing when
/// `chr` does not come next.
pub fn parse_prefixed(iter: &mut CharCursor, chr: char) -> (r: Option<String>)
    ensures
        ({
            let s = old(iter)@;
            let k = index_from(s, 1, ' ');
            if s.len() > 0 && s[0] == chr {
                &&& r matches Some(v) && v@ == s.subrange(1, k)
                &&& final(iter)@ == drop_blank(s.skip(k))
            } else {
                r is None && final(iter)@ == s
            }
        }),
{
    let ghost s = iter@;
    if !check_chr(iter, chr) {
        return None;
    }
    iter.next();
    let v = iter.take_until(|c: char| -> (b: bool)
        ensures
            b == (c != ' '),
        { c != ' ' });
    proof {
        let k = index_from(s, 1, ' ');
        let t = s.drop_first();
        assert forall|j: int| 1 <= j < v@.len() + 1 implies s[j] != ' ' by {
            assert(v@[j - 1] == t[j - 1]);
        }
        if v@.len() + 1 < s.len() {
            assert(iter@[0] == s[v@.len() + 1int]);
        }
        lemma_index_from(s, 1, ' ', v@.len() + 1int);
        assert(s.drop_first().take(v@.len() as int) == s.subrange(1, k));
        assert(s.drop_first().skip(v@.len() as int) == s.skip(k));
    }
    parse_whitespace(iter);
    Some(string_of(v.as_slice(), 0, v.len()))
}

/// Reads the text up to the next space and one separator; nothing at the end.
pub fn parse_plain(iter: &mut CharCursor) -> (r: Option<String>)
    ensures
        ({
            let s = old(iter)@;
            let k = index_from(s, 0, ' ');
            if s.len() > 0 {
                &&& r matches Some(v) && v@ == s.subrange(0, k)
                &&& final(iter)@ == drop_blank(s.skip(k))
            } else {
                r is None && final(iter)@ == s
            }
        }),
{
    let ghost s = iter@;
    if iter.peek().is_none() {
        return None;
    }
    let v = iter.take_until(|c: char| -> (b: bool)
        ensures
            b == (c != ' '),
        { c != ' ' });
    proof {
        assert forall|j: int| 0 <= j < v@.len() implies s[j] != ' ' by {
            assert(v@[j] == s[j]);
        }
        if v@.len() < s.len() {
            assert(iter@[0] == s[v@.len() as int]);
        }
        lemma_index_from(s, 0, ' ', v@.len() as int);
        assert(s.take(v@.len() as int) == s.subrange(0, v@.len() as int));
    }
    parse_whitespace(iter);
    Some(string_of(v.as_slice(), 0, v.len()))
}

} // verus!
