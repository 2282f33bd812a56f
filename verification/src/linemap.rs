use vstd::prelude::*;

use crate::tokeniser::{char_utf8_len, lemma_utf8_total_prefix, utf8_len, utf8_total};
use crate::util::text::chars_of;
use crate::util::Pos;

verus! {

/// The byte offsets at which the lines of a text start: the first line at 0,
/// and each further one just after a `\n`.
pub open spec fn line_starts(s: Seq<char>) -> Seq<int>
    decreases s.len(),
{
    if s.len() == 0 {
        seq![0]
    } else {
        let prev = line_starts(s.drop_last());
        if s.last() == '\n' {
            prev.push(utf8_total(s) as int)
        } else {
            prev
        }
    }
}

/// Where each line of a module's text starts, and how long the text is, in bytes.
pub struct LineMap {
    starts: Vec<usize>,
    length: usize,
}

impl LineMap {
    /// The line starts, in order.
    pub closed spec fn spec_starts(&self) -> Seq<int> {
        self.starts@.map_values(|x: usize| x as int)
    }

    /// The length of the text in bytes.
    pub closed spec fn spec_length(&self) -> int {
        self.length as int
    }

    /// The first line starts at 0, lines start in increasing order, and none
    /// after the end of the text.
    pub open spec fn wf(&self) -> bool {
        &&& self.spec_starts().len() >= 1
        &&& self.spec_starts()[0] == 0
        &&& forall|i: int, j: int| 0 <= i < j < self.spec_starts().len() ==> self.spec_starts()[i] < self.spec_starts()[j]
        &&& forall|i: int| 0 <= i < self.spec_starts().len() ==> self.spec_starts()[i] <= self.spec_length()
    }

    /// The line a byte offset falls in: the last line starting at or before it.
    pub open spec fn spec_line_of(&self, offset: int) -> int {
        choose|l: int| 0 <= l < self.spec_starts().len() && #[trigger] self.spec_starts()[l] <= offset
            && (l + 1 == self.spec_starts().len() || offset < self.spec_starts()[l + 1])
    }

    /// Reads where the lines of `source` start.
    pub fn new(source: &str) -> (m: Self)
        requires
            utf8_total(source@) <= usize::MAX,
        ensures
            m.wf(),
            m.spec_starts() == line_starts(source@),
            m.spec_length() == utf8_total(source@),
    {
        let chars = chars_of(source);
        let ghost s = source@;
        let mut starts: Vec<usize> = Vec::new();
        starts.push(0);
        let mut offset: usize = 0;
        let mut i: usize = 0;
        proof {
            assert(s.take(0) =~= Seq::<char>::empty());
            assert(starts@.map_values(|x: usize| x as int) =~= seq![0int]);
        }
        while i < chars.len()
            invariant
                chars@ == s,
                i <= s.len(),
                utf8_total(s) <= usize::MAX,
                offset == utf8_total(s.take(i as int)),
                starts@.map_values(|x: usize| x as int) == line_starts(s.take(i as int)),
                starts@.len() >= 1,
                starts@[0] == 0,
                forall|a: int, b: int| 0 <= a < b < starts@.len() ==> starts@[a] < starts@[b],
                forall|a: int| 0 <= a < starts@.len() ==> starts@[a] <= offset,
            decreases s.len() - i,
        {
            let c = chars[i];
            proof {
                assert(s.take(i + 1).drop_last() =~= s.take(i as int));
                assert(s.take(i + 1).last() == c);
                lemma_utf8_total_prefix(s, i + 1);
            }
            let n = char_utf8_len(c);
            let next = offset + n;
            if c == '\n' {
                let ghost before = starts@;
                starts.push(next);
                proof {
                    assert(starts@.map_values(|x: usize| x as int) =~= before.map_values(|x: usize| x as int).push(next as int));
                }
            }
            offset = next;
            i = i + 1;
        }
        proof {
            assert(s.take(s.len() as int) =~= s);
        }
        let m = LineMap { starts, length: offset };
        proof {
            assert forall|a: int, b: int| 0 <= a < b < m.spec_starts().len() implies m.spec_starts()[a] < m.spec_starts()[b] by {
                assert(m.starts@[a] < m.starts@[b]);
            }
        }
        m
    }

    /// The line starts, in order.
    pub fn starts(&self) -> (r: &[usize])
        ensures
            r@.map_values(|x: usize| x as int) == self.spec_starts(),
    {
        self.starts.as_slice()
    }

    pub fn length(&self) -> (r: usize)
        ensures
            r == self.spec_length(),
    {
        self.length
    }

    /// The start of a line and its length without its `\n`. The last line
    /// has no `\n` and ends where the text ends.
    pub fn get_line(&self, line_number: usize) -> (r: (usize, usize))
        requires
            self.wf(),
            line_number < self.spec_starts().len(),
        ensures
            r.0 == self.spec_starts()[line_number as int],
            line_number + 1 < self.spec_starts().len() ==> r.1 == self.spec_starts()[line_number + 1] - r.0 - 1,
            line_number + 1 == self.spec_starts().len() ==> r.1 == self.spec_length() - r.0,
    {
        let line_start = self.starts[line_number];
        let count = self.starts.len();
        proof {
            if line_number + 1 < self.starts@.len() {
                assert(self.spec_starts()[line_number as int] < self.spec_starts()[line_number + 1]);
            }
        }
        if line_number + 1 < count {
            (line_start, self.starts[line_number + 1] - line_start - 1)
        } else {
            (line_start, self.length - line_start)
        }
    }

    /// The line a byte offset inside the text falls in, found by binary search.
    pub fn search_linemap(&self, pos: usize) -> (r: usize)
        requires
            self.wf(),
            pos < self.spec_length(),
        ensures
            r < self.spec_starts().len(),
            self.spec_starts()[r as int] <= pos,
            r + 1 == self.spec_starts().len() || pos < self.spec_starts()[r + 1],
            r == self.spec_line_of(pos as int),
    {
        let ghost st = self.spec_starts();
        let mut lo: usize = 0;
        let mut hi: usize = self.starts.len();
        while lo + 1 < hi
            invariant
                st == self.spec_starts(),
                self.wf(),
                hi == self.starts@.len() || (hi < self.starts@.len() && pos < st[hi as int]),
                lo < hi <= self.starts@.len(),
                st[lo as int] <= pos,
            decreases hi - lo,
        {
            let mid = lo + (hi - lo) / 2;
            if self.starts[mid] <= pos {
                lo = mid;
            } else {
                hi = mid;
            }
        }
        proof {
            let l = lo as int;
            assert(0 <= l < st.len() && st[l] <= pos && (l + 1 == st.len() || pos < st[l + 1]));
            let c = self.spec_line_of(pos as int);
            if c != l {
                if c < l {
                    assert(st[c + 1] <= st[l]);
                } else {
                    assert(st[l + 1] <= st[c]);
                }
            }
        }
        lo
    }

    /// How many lines a span of text touches, counting from the line its
    /// position names.
    pub fn line_count(&self, pos: Pos) -> (r: usize)
        requires
            self.wf(),
            pos is Pos,
            pos->start + pos->span < self.spec_length(),
            pos->line <= 1 + self.spec_line_of(pos->start + pos->span),
        ensures
            r == 1 + self.spec_line_of(pos->start + pos->span) - pos->line,
    {
        match pos {
            Pos::Pos { line, start, span, .. } => {
                let end_line = self.search_linemap(start + span);
                let count = self.starts.len();
                assert(end_line < count);
                1 + end_line - line
            },
            _ => 0,
        }
    }
}

/// Each `\n` adds one line start, and lines start in order.
pub proof fn lemma_line_starts_len(s: Seq<char>)
    ensures
        line_starts(s).len() == 1 + s.filter(|c: char| c == '\n').len(),
        line_starts(s)[0] == 0,
    decreases s.len(),
{
    if s.len() > 0 {
        lemma_line_starts_len(s.drop_last());
        assert(s.drop_last().push(s.last()) =~= s);
        s.drop_last().lemma_filter_push(s.last(), |c: char| c == '\n');
    }
}

} // verus!
