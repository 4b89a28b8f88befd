//! The input cursor: owns the input text and a stack of speculative positions.
//!
//! The top of the stack is the current position, counted in characters.
//! `push_state` starts a speculative attempt, `update_state` commits it to the
//! enclosing level and `pop_state` abandons it. Literal and regex matches eat
//! whitespace before and after their content.

use vstd::prelude::*;

verus! {

/// The characters with the Unicode `White_Space` property: what
/// `char::is_whitespace` accepts.
pub open spec fn whitespace_char(c: char) -> bool {
    c == ' ' || c == '\u{0009}' || c == '\u{000A}' || c == '\u{000B}' || c == '\u{000C}' || c
        == '\u{000D}' || c == '\u{0085}' || c == '\u{00A0}' || c == '\u{1680}' || c == '\u{2000}'
        || c == '\u{2001}' || c == '\u{2002}' || c == '\u{2003}' || c == '\u{2004}' || c
        == '\u{2005}' || c == '\u{2006}' || c == '\u{2007}' || c == '\u{2008}' || c == '\u{2009}'
        || c == '\u{200A}' || c == '\u{2028}' || c == '\u{2029}' || c == '\u{202F}' || c
        == '\u{205F}' || c == '\u{3000}'
}

/// Relies on `char::is_whitespace`: true exactly of the characters with the
/// Unicode `White_Space` property, the table `whitespace_char` lists.
pub assume_specification[ char::is_whitespace ](c: char) -> (r: bool)
    ensures
        r == whitespace_char(c),
;

/// What `regex::Regex::new` followed by `regex::Regex::find` returns for a
/// pattern and a haystack: the leftmost match, as its starting byte offset in
/// the haystack and the matched text, or nothing when the pattern does not
/// compile or nothing matches. The result depends on the pattern and the
/// haystack alone.
pub uninterp spec fn regex_leftmost_match(pattern: Seq<char>, text: Seq<char>) -> Option<
    (nat, Seq<char>),
>;

/// Whether `regex::Regex::new` accepts `pattern`.
pub uninterp spec fn regex_compiles(pattern: Seq<char>) -> bool;

/// Relies on `regex::Regex::new`: compilation succeeds or fails depending on
/// the pattern alone.
#[verifier::external_body]
pub(crate) fn regex_is_valid(pattern: &str) -> (r: bool)
    ensures
        r == regex_compiles(pattern@),
{
    regex::Regex::new(pattern).is_ok()
}

/// Relies on `regex::Regex::new` and `regex::Regex::find`: the leftmost match
/// of `pattern` in `text`, as its starting byte offset and its text; `None`
/// when the pattern does not compile or nothing matches. The matched text is
/// a substring of the haystack, so it is no longer than the haystack.
#[verifier::external_body]
fn regex_find(pattern: &str, text: &str) -> (r: Option<(usize, String)>)
    ensures
        match r {
            Some(m) => regex_leftmost_match(pattern@, text@) == Some((m.0 as nat, m.1@)),
            None => regex_leftmost_match(pattern@, text@) is None,
        },
        r matches Some(m) ==> m.1@.len() <= text@.len(),
{
    match regex::Regex::new(pattern) {
        Ok(re) => re.find(text).map(|m| (m.start(), m.as_str().to_string())),
        Err(_) => None,
    }
}

/// The first position at or after `i` that does not hold a whitespace
/// character, or the end of the input.
pub open spec fn skip_ws(text: Seq<char>, i: int) -> int
    decreases text.len() - i,
{
    if 0 <= i < text.len() && whitespace_char(text[i]) {
        skip_ws(text, i + 1)
    } else {
        i
    }
}

pub proof fn lemma_skip_ws_bounds(text: Seq<char>, i: int)
    requires
        0 <= i <= text.len(),
    ensures
        i <= skip_ws(text, i) <= text.len(),
    decreases text.len() - i,
{
    if i < text.len() && whitespace_char(text[i]) {
        lemma_skip_ws_bounds(text, i + 1);
    }
}

/// What `match_string` does to the current position `pos`: skip whitespace,
/// require `lit` as a prefix there, then skip whitespace again. `None` means
/// no match.
pub open spec fn spec_match_literal(text: Seq<char>, pos: int, lit: Seq<char>) -> Option<int> {
    let j = skip_ws(text, pos);
    if j + lit.len() <= text.len() && text.subrange(j, j + lit.len()) == lit {
        Some(skip_ws(text, j + lit.len()))
    } else {
        None
    }
}

/// What `match_regex` does to the current position `pos`: skip whitespace,
/// require the regex to match at the very start of the remaining input,
/// advance past the matched text, then skip whitespace again.
pub open spec fn spec_match_regex(text: Seq<char>, pos: int, pattern: Seq<char>) -> Option<int> {
    let j = skip_ws(text, pos);
    match regex_leftmost_match(pattern, text.subrange(j, text.len() as int)) {
        Some(m) => if m.0 == 0 && j + m.1.len() <= text.len() {
            Some(skip_ws(text, j + m.1.len()))
        } else {
            None
        },
        None => None,
    }
}

pub proof fn lemma_match_literal_bounds(text: Seq<char>, pos: int, lit: Seq<char>)
    requires
        0 <= pos <= text.len(),
    ensures
        spec_match_literal(text, pos, lit) matches Some(p) ==> pos <= p <= text.len(),
{
    lemma_skip_ws_bounds(text, pos);
    let j = skip_ws(text, pos);
    if j + lit.len() <= text.len() {
        lemma_skip_ws_bounds(text, j + lit.len());
    }
}

pub proof fn lemma_match_regex_bounds(text: Seq<char>, pos: int, pattern: Seq<char>)
    requires
        0 <= pos <= text.len(),
    ensures
        spec_match_regex(text, pos, pattern) matches Some(p) ==> pos <= p <= text.len(),
{
    lemma_skip_ws_bounds(text, pos);
    let j = skip_ws(text, pos);
    match regex_leftmost_match(pattern, text.subrange(j, text.len() as int)) {
        Some(m) => {
            if j + m.1.len() <= text.len() {
                lemma_skip_ws_bounds(text, j + m.1.len());
            }
        },
        None => {},
    }
}

pub struct CodeTokenizer {
    code: String,
    states: Vec<usize>,
}

impl CodeTokenizer {
    /// The input text, as a sequence of characters.
    pub closed spec fn text(&self) -> Seq<char> {
        self.code@
    }

    /// The stack of speculative positions; the last element is the current one.
    pub closed spec fn stack(&self) -> Seq<usize> {
        self.states@
    }

    /// The current position: the top of the stack.
    pub open spec fn pos(&self) -> int {
        self.stack().last() as int
    }

    /// The cursor invariant: the stack is never empty and every position lies
    /// within the input.
    pub open spec fn wf(&self) -> bool {
        &&& self.stack().len() >= 1
        &&& forall|i: int|
            0 <= i < self.stack().len() ==> #[trigger] self.stack()[i] <= self.text().len()
    }

    pub fn new(code: &str) -> (r: CodeTokenizer)
        ensures
            r.wf(),
            r.text() == code@,
            r.stack() == seq![0usize],
    {
        let states: Vec<usize> = vec![0];
        assert(states@ == seq![0usize]);
        CodeTokenizer { code: String::from_str(code), states }
    }

    /// True iff the current position has reached the end of the input.
    pub fn is_empty(&self) -> (r: bool)
        requires
            self.wf(),
        ensures
            r == (self.pos() == self.text().len()),
    {
        let index = self.states[self.states.len() - 1];
        self.code.as_str().unicode_len() <= index
    }

    /// Read the current position.
    pub fn get_state(&self) -> (r: usize)
        requires
            self.wf(),
        ensures
            r as int == self.pos(),
    {
        self.states[self.states.len() - 1]
    }

    /// Scan forward from `i` over whitespace without touching the cursor.
    fn skip_from(&self, i: usize) -> (r: usize)
        requires
            self.wf(),
            i <= self.text().len(),
        ensures
            r as int == skip_ws(self.text(), i as int),
            i <= r <= self.text().len(),
    {
        let n = self.code.as_str().unicode_len();
        let mut j = i;
        while j < n && self.code.as_str().get_char(j).is_whitespace()
            invariant
                self.wf(),
                i <= j <= n,
                n == self.text().len(),
                skip_ws(self.text(), i as int) == skip_ws(self.text(), j as int),
            decreases n - j,
        {
            j = j + 1;
        }
        proof {
            lemma_skip_ws_bounds(self.text(), j as int);
        }
        j
    }

    /// Overwrite the current position.
    fn set_top(&mut self, v: usize)
        requires
            old(self).wf(),
            v <= old(self).text().len(),
        ensures
            final(self).wf(),
            final(self).text() == old(self).text(),
            final(self).stack().len() == old(self).stack().len(),
            final(self).stack() == old(self).stack().update(old(self).stack().len() - 1, v),
            final(self).pos() == v as int,
    {
        let last = self.states.len() - 1;
        self.states.set(last, v);
    }

    /// Advance the current position past leading whitespace.
    fn skip_whitespaces(&mut self)
        requires
            old(self).wf(),
        ensures
            final(self).wf(),
            final(self).text() == old(self).text(),
            final(self).stack().len() == old(self).stack().len(),
            final(self).stack().drop_last() == old(self).stack().drop_last(),
            final(self).pos() == skip_ws(old(self).text(), old(self).pos()),
    {
        let top = self.get_state();
        let j = self.skip_from(top);
        self.set_top(j);
        assert(final(self).stack().drop_last() =~= old(self).stack().drop_last());
    }

    /// Skip leading whitespace; if the input there starts with `string`,
    /// advance past it and past trailing whitespace and return true.
    /// Otherwise return false with the position unchanged.
    pub fn match_string(&mut self, string: &str) -> (r: bool)
        requires
            old(self).wf(),
        ensures
            final(self).wf(),
            final(self).text() == old(self).text(),
            final(self).stack().len() == old(self).stack().len(),
            final(self).stack().drop_last() == old(self).stack().drop_last(),
            match spec_match_literal(old(self).text(), old(self).pos(), string@) {
                Some(p) => r && final(self).pos() == p,
                None => !r && final(self).pos() == old(self).pos(),
            },
    {
        let entry = self.get_state();
        let n = self.code.as_str().unicode_len();
        let j = self.skip_from(entry);
        let m = string.unicode_len();
        if m > n - j {
            assert(final(self).stack().drop_last() =~= old(self).stack().drop_last());
            return false;
        }
        let mut k: usize = 0;
        while k < m
            invariant
                *self == *old(self),
                self.wf(),
                entry as int == old(self).pos(),
                n == self.text().len(),
                j + m <= n,
                m == string@.len(),
                0 <= k <= m,
                j as int == skip_ws(self.text(), entry as int),
                forall|t: int| 0 <= t < k ==> self.text()[j + t] == string@[t],
            decreases m - k,
        {
            if self.code.as_str().get_char(j + k) != string.get_char(k) {
                proof {
                    let text = self.text();
                    assert(text.subrange(j as int, j + m) != string@) by {
                        assert(text.subrange(j as int, j + m)[k as int] != string@[k as int]);
                    }
                }
                assert(final(self).stack().drop_last() =~= old(self).stack().drop_last());
                return false;
            }
            k = k + 1;
        }
        proof {
            assert(self.text().subrange(j as int, j + m) =~= string@);
        }
        let j2 = self.skip_from(j + m);
        self.set_top(j2);
        assert(final(self).stack().drop_last() =~= old(self).stack().drop_last());
        true
    }

    /// Skip leading whitespace; if the regex `pattern` matches at the very
    /// start of the remaining input, advance past the matched text and past
    /// trailing whitespace and return true. Otherwise return false with the
    /// position unchanged. A pattern that does not compile matches nothing.
    pub fn match_regex(&mut self, pattern: &str) -> (r: bool)
        requires
            old(self).wf(),
        ensures
            final(self).wf(),
            final(self).text() == old(self).text(),
            final(self).stack().len() == old(self).stack().len(),
            final(self).stack().drop_last() == old(self).stack().drop_last(),
            match spec_match_regex(old(self).text(), old(self).pos(), pattern@) {
                Some(p) => r && final(self).pos() == p,
                None => !r && final(self).pos() == old(self).pos(),
            },
    {
        let entry = self.get_state();
        let n = self.code.as_str().unicode_len();
        let j = self.skip_from(entry);
        let rest = self.code.as_str().substring_char(j, n);
        let found = regex_find(pattern, rest);
        let r = match found {
            Some((s, matched)) => {
                if s == 0 {
                    let ml = matched.as_str().unicode_len();
                    let j2 = self.skip_from(j + ml);
                    self.set_top(j2);
                    true
                } else {
                    false
                }
            },
            None => false,
        };
        assert(final(self).stack().drop_last() =~= old(self).stack().drop_last());
        r
    }

    /// Duplicate the top of the stack, starting a speculative attempt.
    /// Returns the (unchanged) current position.
    pub fn push_state(&mut self) -> (r: usize)
        requires
            old(self).wf(),
        ensures
            final(self).wf(),
            final(self).text() == old(self).text(),
            final(self).stack() == old(self).stack().push(old(self).stack().last()),
            r as int == old(self).pos(),
            final(self).pos() == old(self).pos(),
    {
        let top = self.states[self.states.len() - 1];
        self.states.push(top);
        top
    }

    /// Commit: pop the top position and overwrite the new top with it, making
    /// the speculative advance permanent at the enclosing level. Returns the
    /// committed position.
    pub fn update_state(&mut self) -> (r: usize)
        requires
            old(self).wf(),
            old(self).stack().len() >= 2,
        ensures
            final(self).wf(),
            final(self).text() == old(self).text(),
            final(self).stack() == old(self).stack().drop_last().update(
                old(self).stack().len() - 2,
                old(self).stack().last(),
            ),
            r as int == old(self).pos(),
            final(self).pos() == old(self).pos(),
            final(self).stack().len() == old(self).stack().len() - 1,
    {
        let current_state = self.states[self.states.len() - 1];
        self.states.pop();
        let below = self.states.len() - 1;
        self.states.set(below, current_state);
        current_state
    }

    /// Rollback: pop and discard the top position, abandoning the speculative
    /// advance. The base position is not poppable.
    pub fn pop_state(&mut self)
        requires
            old(self).wf(),
            old(self).stack().len() >= 2,
        ensures
            final(self).wf(),
            final(self).text() == old(self).text(),
            final(self).stack() == old(self).stack().drop_last(),
    {
        self.states.pop();
    }

    /// True iff the stack has been fully unwound to its base entry.
    pub fn only_one_state_left(&self) -> (r: bool)
        requires
            self.wf(),
        ensures
            r == (self.stack().len() == 1),
    {
        self.states.len() == 1
    }

    /// The input text in `[start, end)`, used by semantic callbacks to recover
    /// the text of a matched region.
    pub fn get_substr(&self, start: usize, end: usize) -> (r: &str)
        requires
            self.wf(),
            start <= end <= self.text().len(),
        ensures
            r@ == self.text().subrange(start as int, end as int),
    {
        self.code.as_str().substring_char(start, end)
    }
}

} // verus!
