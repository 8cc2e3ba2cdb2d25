//! A cursor that walks a string codepoint by codepoint.
use crate::indexed_string::IndexedString;
use vstd::prelude::*;

verus! {

/// Optional whitespace of the cookie grammar: horizontal tab or space.
pub open spec fn is_ows(c: char) -> bool {
    c == '\t' || c == ' '
}

/// First position at or after `p` that does not hold whitespace, or the end.
pub open spec fn skip_ows(s: Seq<char>, p: int) -> int
    decreases s.len() - p,
{
    if p < s.len() && is_ows(s[p]) {
        skip_ows(s, p + 1)
    } else {
        p
    }
}

/// First position at or after `p` that holds `c`, or the end.
pub open spec fn find_char(s: Seq<char>, p: int, c: char) -> int
    decreases s.len() - p,
{
    if p < s.len() && s[p] != c {
        find_char(s, p + 1, c)
    } else {
        p
    }
}

/// First position at or after `p` that holds `c` or whitespace, or the end.
pub open spec fn find_char_or_ows(s: Seq<char>, p: int, c: char) -> int
    decreases s.len() - p,
{
    if p < s.len() && s[p] != c && !is_ows(s[p]) {
        find_char_or_ows(s, p + 1, c)
    } else {
        p
    }
}

/// `skip_ows` stops at the first non-whitespace codepoint at or after `p`.
pub proof fn lemma_skip_ows(s: Seq<char>, p: int)
    requires
        p <= s.len(),
    ensures
        p <= skip_ows(s, p) <= s.len(),
        forall|k: int| p <= k < skip_ows(s, p) ==> is_ows(#[trigger] s[k]),
        skip_ows(s, p) < s.len() ==> !is_ows(s[skip_ows(s, p)]),
    decreases s.len() - p,
{
    if p < s.len() && is_ows(s[p]) {
        lemma_skip_ows(s, p + 1);
    }
}

/// `find_char` stops at the first `c` at or after `p`.
pub proof fn lemma_find_char(s: Seq<char>, p: int, c: char)
    requires
        p <= s.len(),
    ensures
        p <= find_char(s, p, c) <= s.len(),
        forall|k: int| p <= k < find_char(s, p, c) ==> #[trigger] s[k] != c,
        find_char(s, p, c) < s.len() ==> s[find_char(s, p, c)] == c,
    decreases s.len() - p,
{
    if p < s.len() && s[p] != c {
        lemma_find_char(s, p + 1, c);
    }
}

/// `find_char_or_ows` stops at the first `c` or whitespace at or after `p`.
pub proof fn lemma_find_char_or_ows(s: Seq<char>, p: int, c: char)
    requires
        p <= s.len(),
    ensures
        p <= find_char_or_ows(s, p, c) <= s.len(),
        forall|k: int|
            p <= k < find_char_or_ows(s, p, c) ==> #[trigger] s[k] != c && !is_ows(s[k]),
        find_char_or_ows(s, p, c) < s.len() ==> (s[find_char_or_ows(s, p, c)] == c || is_ows(
            s[find_char_or_ows(s, p, c)],
        )),
    decreases s.len() - p,
{
    if p < s.len() && s[p] != c && !is_ows(s[p]) {
        lemma_find_char_or_ows(s, p + 1, c);
    }
}

/// Outcome of a scan that consumes a fixed character or a run of characters.
#[derive(Clone, Copy, Debug, PartialEq, Eq)]
pub enum ScanCharResult {
    CharNotFound,
    /// The cursor moved forward by this many codepoints, always at least one.
    CharFound(usize),
}

/// Outcome of a scan that stops before a character.
#[derive(Clone, Copy, Debug, PartialEq, Eq)]
pub enum ScanUntilCharResult {
    CharFound,
    EndOfStringReached,
}

/// A string and a cursor on one of its codepoint positions.
pub struct StringScanner<'a> {
    cursor: usize,
    indexed_string: IndexedString<'a>,
}

impl<'a> StringScanner<'a> {
    /// The table is well formed and the cursor lies within the string.
    pub closed spec fn wf(&self) -> bool {
        self.indexed_string.wf() && self.cursor <= self.indexed_string@.len()
    }

    /// The codepoints being scanned.
    pub closed spec fn text(&self) -> Seq<char> {
        self.indexed_string@
    }

    /// The cursor, as a codepoint position.
    pub closed spec fn pos(&self) -> int {
        self.cursor as int
    }

    /// The cursor lies within the string, whose length fits in a `usize`.
    pub proof fn lemma_cursor_fits(&self)
        requires
            self.wf(),
        ensures
            0 <= self.pos() <= self.text().len() <= usize::MAX,
    {
        self.indexed_string.lemma_len_fits();
    }

    /// A scanner at the start of `src`.
    pub fn from_str(src: &'a str) -> (r: StringScanner<'a>)
        ensures
            r.wf(),
            r.text() == src@,
            r.pos() == 0,
    {
        StringScanner { cursor: 0, indexed_string: IndexedString::from_str(src) }
    }

    /// The current codepoint position.
    pub fn get_cursor(&self) -> (r: usize)
        requires
            self.wf(),
        ensures
            r == self.pos(),
            r <= self.text().len(),
    {
        self.cursor
    }

    /// The table entries from the cursor on.
    fn get_char_index_range_from_cursor<'b>(&'b self) -> (r: &'b [(usize, char)])
        requires
            self.wf(),
        ensures
            r@.len() == self.text().len() - self.pos(),
            forall|i: int| 0 <= i < r@.len() ==> (#[trigger] r@[i]).1 == self.text()[self.pos() + i],
    {
        self.indexed_string.get_char_index_range_from(self.cursor)
    }

    /// Tells whether the cursor has reached the end of the string.
    pub fn is_at_end_of_string(&self) -> (r: bool)
        requires
            self.wf(),
        ensures
            r == (self.pos() >= self.text().len()),
    {
        self.cursor >= self.indexed_string.len()
    }

    /// The part of the scanned string made of codepoints `from..to`.
    pub fn substring(&self, from: usize, to: usize) -> (r: &'a str)
        requires
            self.wf(),
            from <= to <= self.text().len(),
        ensures
            r@ == self.text().subrange(from as int, to as int),
    {
        self.indexed_string.substring(from, to)
    }

    /// Consumes `char_to_scan` if it stands at the cursor.
    pub fn scan_char_once(&mut self, char_to_scan: char) -> (r: ScanCharResult)
        requires
            old(self).wf(),
        ensures
            final(self).wf(),
            final(self).text() == old(self).text(),
            ({
                let s = old(self).text();
                let p = old(self).pos();
                if p < s.len() && s[p] == char_to_scan {
                    final(self).pos() == p + 1 && r == ScanCharResult::CharFound(1)
                } else {
                    final(self).pos() == p && r == ScanCharResult::CharNotFound
                }
            }),
    {
        if self.cursor < self.indexed_string.len() {
            if self.indexed_string.char_at_idx(self.cursor) == char_to_scan {
                self.cursor += 1;
                ScanCharResult::CharFound(1)
            } else {
                ScanCharResult::CharNotFound
            }
        } else {
            ScanCharResult::CharNotFound
        }
    }

    /// Moves the cursor to the next `char_to_find`, or to the end.
    pub fn scan_until_char(&mut self, char_to_find: char) -> (r: ScanUntilCharResult)
        requires
            old(self).wf(),
        ensures
            final(self).wf(),
            final(self).text() == old(self).text(),
            final(self).pos() == find_char(old(self).text(), old(self).pos(), char_to_find),
            (r == ScanUntilCharResult::CharFound) == (final(self).pos() < final(self).text().len()),
    {
        let ghost s = self.text();
        let ghost p = self.pos();
        proof {
            self.lemma_cursor_fits();
        }
        let mut chars_scanned: usize = 0;
        let mut char_found = false;
        let tail = self.get_char_index_range_from_cursor();
        while chars_scanned < tail.len()
            invariant_except_break
                !char_found,
            invariant
                self.wf(),
                s == self.text(),
                p == self.pos(),
                tail@.len() == s.len() - p,
                forall|i: int| 0 <= i < tail@.len() ==> (#[trigger] tail@[i]).1 == s[p + i],
                chars_scanned <= tail@.len(),
                find_char(s, p + chars_scanned, char_to_find) == find_char(s, p, char_to_find),
            ensures
                chars_scanned <= tail@.len(),
                find_char(s, p + chars_scanned, char_to_find) == find_char(s, p, char_to_find),
                char_found ==> chars_scanned < tail@.len() && s[p + chars_scanned] == char_to_find,
                !char_found ==> chars_scanned == tail@.len(),
            decreases tail@.len() - chars_scanned,
        {
            if tail[chars_scanned].1 == char_to_find {
                char_found = true;
                break;
            } else {
                chars_scanned += 1;
            }
        }
        self.cursor += chars_scanned;
        if char_found {
            ScanUntilCharResult::CharFound
        } else {
            ScanUntilCharResult::EndOfStringReached
        }
    }

    /// Moves the cursor to the next `char_to_find`, tab or space, or to the end.
    pub fn scan_until_char_or_whitespace(&mut self, char_to_find: char) -> (r: ScanUntilCharResult)
        requires
            old(self).wf(),
        ensures
            final(self).wf(),
            final(self).text() == old(self).text(),
            final(self).pos() == find_char_or_ows(old(self).text(), old(self).pos(), char_to_find),
            (r == ScanUntilCharResult::CharFound) == (final(self).pos() < final(self).text().len()),
    {
        let ghost s = self.text();
        let ghost p = self.pos();
        proof {
            self.lemma_cursor_fits();
        }
        let mut chars_scanned: usize = 0;
        let mut char_found = false;
        let tail = self.get_char_index_range_from_cursor();
        while chars_scanned < tail.len()
            invariant_except_break
                !char_found,
            invariant
                self.wf(),
                s == self.text(),
                p == self.pos(),
                tail@.len() == s.len() - p,
                forall|i: int| 0 <= i < tail@.len() ==> (#[trigger] tail@[i]).1 == s[p + i],
                chars_scanned <= tail@.len(),
                find_char_or_ows(s, p + chars_scanned, char_to_find) == find_char_or_ows(
                    s,
                    p,
                    char_to_find,
                ),
            ensures
                chars_scanned <= tail@.len(),
                find_char_or_ows(s, p + chars_scanned, char_to_find) == find_char_or_ows(
                    s,
                    p,
                    char_to_find,
                ),
                char_found ==> chars_scanned < tail@.len() && (s[p + chars_scanned] == char_to_find
                    || is_ows(s[p + chars_scanned])),
                !char_found ==> chars_scanned == tail@.len(),
            decreases tail@.len() - chars_scanned,
        {
            let pc = tail[chars_scanned].1;
            if pc == char_to_find || pc == '\x09' || pc == '\x20' {
                char_found = true;
                break;
            } else {
                chars_scanned += 1;
            }
        }
        self.cursor += chars_scanned;
        if char_found {
            ScanUntilCharResult::CharFound
        } else {
            ScanUntilCharResult::EndOfStringReached
        }
    }

    /// Moves the cursor past a run of tabs and spaces.
    pub fn scan_whitespace_repeating(&mut self) -> (r: ScanCharResult)
        requires
            old(self).wf(),
        ensures
            final(self).wf(),
            final(self).text() == old(self).text(),
            final(self).pos() == skip_ows(old(self).text(), old(self).pos()),
            r == if final(self).pos() > old(self).pos() {
                ScanCharResult::CharFound((final(self).pos() - old(self).pos()) as usize)
            } else {
                ScanCharResult::CharNotFound
            },
    {
        let ghost s = self.text();
        let ghost p = self.pos();
        proof {
            self.lemma_cursor_fits();
        }
        let mut chars_scanned: usize = 0;
        let tail = self.get_char_index_range_from_cursor();
        while chars_scanned < tail.len()
            invariant
                self.wf(),
                s == self.text(),
                p == self.pos(),
                tail@.len() == s.len() - p,
                forall|i: int| 0 <= i < tail@.len() ==> (#[trigger] tail@[i]).1 == s[p + i],
                chars_scanned <= tail@.len(),
                skip_ows(s, p + chars_scanned) == skip_ows(s, p),
            ensures
                chars_scanned <= tail@.len(),
                skip_ows(s, p + chars_scanned) == p + chars_scanned,
                skip_ows(s, p + chars_scanned) == skip_ows(s, p),
            decreases tail@.len() - chars_scanned,
        {
            let c = tail[chars_scanned].1;
            if c != '\x09' && c != '\x20' {
                break;
            }
            chars_scanned += 1;
        }
        if chars_scanned > 0 {
            self.cursor += chars_scanned;
            ScanCharResult::CharFound(chars_scanned)
        } else {
            ScanCharResult::CharNotFound
        }
    }
}

} // verus!
