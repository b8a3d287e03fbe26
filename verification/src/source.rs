use vstd::prelude::*;
use vstd::string::StrSliceExecFns;

verus! {

/// What a line source reads from: standard input, or a file under a path.
/// Fixed when the source is constructed; used for error reporting, watch
/// registration and path-based format resolution.
#[derive(Debug)]
pub enum SourceType {
    Stdin,
    File(String),
}

impl SourceType {
    pub open spec fn eq_spec_inner(self, other: SourceType) -> bool {
        match (self, other) {
            (SourceType::Stdin, SourceType::Stdin) => true,
            (SourceType::File(a), SourceType::File(b)) => a@ == b@,
            _ => false,
        }
    }
}

impl PartialEq for SourceType {
    fn eq(&self, other: &SourceType) -> (r: bool) {
        match (self, other) {
            (SourceType::Stdin, SourceType::Stdin) => true,
            (SourceType::File(a), SourceType::File(b)) => crate::text::str_eq(
                a.as_str(),
                b.as_str(),
            ),
            _ => false,
        }
    }
}

impl vstd::std_specs::cmp::PartialEqSpecImpl for SourceType {
    open spec fn obeys_eq_spec() -> bool {
        true
    }

    open spec fn eq_spec(&self, other: &SourceType) -> bool {
        self.eq_spec_inner(*other)
    }
}

/// The index of the first line feed in `d` at or after `p`, or `d.len()` if
/// there is none.
pub open spec fn line_end(d: Seq<char>, p: int) -> int
    decreases d.len() - p,
{
    if p < 0 || p >= d.len() {
        d.len() as int
    } else if d[p] == '\n' {
        p
    } else {
        line_end(d, p + 1)
    }
}

pub proof fn lemma_line_end(d: Seq<char>, p: int)
    requires
        0 <= p <= d.len(),
    ensures
        p <= line_end(d, p) <= d.len(),
        forall|j: int| p <= j < line_end(d, p) ==> d[j] != '\n',
        line_end(d, p) < d.len() ==> d[line_end(d, p)] == '\n',
    decreases d.len() - p,
{
    if p < d.len() && d[p] != '\n' {
        lemma_line_end(d, p + 1);
    }
}

/// The line starting at `p`: the characters up to, and not including, the
/// next line feed (or the end of the input).
pub open spec fn line_at(d: Seq<char>, p: int) -> Seq<char> {
    d.subrange(p, line_end(d, p))
}

/// The position after reading the line starting at `p`: one past its line
/// feed, or the end of the input if the line is unterminated.
pub open spec fn next_pos(d: Seq<char>, p: int) -> int {
    if line_end(d, p) < d.len() {
        line_end(d, p) + 1
    } else {
        d.len() as int
    }
}

/// The lines that repeated reads starting at `p` deliver, in order.
pub open spec fn lines_from(d: Seq<char>, p: int) -> Seq<Seq<char>>
    decreases d.len() - p,
    when 0 <= p <= d.len() via lines_from_decreases
{
    if p >= d.len() {
        Seq::empty()
    } else {
        seq![line_at(d, p)] + lines_from(d, next_pos(d, p))
    }
}

#[via_fn]
proof fn lines_from_decreases(d: Seq<char>, p: int) {
    lemma_line_end(d, p);
}

/// A position-tracked line source. Each read starts at the stored position
/// and, on success, advances it by exactly the characters consumed; a failed
/// or empty read leaves the position unchanged, so a retry resumes at the
/// same offset and a grown input yields only what lies past the position.
#[derive(Debug)]
pub struct Source {
    source_type: SourceType,
    position: usize,
}

impl Source {
    pub closed spec fn source_type_spec(&self) -> SourceType {
        self.source_type
    }

    pub closed spec fn position_spec(&self) -> int {
        self.position as int
    }

    pub fn new(source_type: SourceType) -> (r: Self)
        ensures
            r.source_type_spec() == source_type,
            r.position_spec() == 0,
    {
        Source { source_type, position: 0 }
    }

    pub fn source_type(&self) -> (r: SourceType)
        ensures
            r == self.source_type_spec(),
    {
        match &self.source_type {
            SourceType::Stdin => SourceType::Stdin,
            SourceType::File(p) => SourceType::File(p.clone()),
        }
    }

    pub fn position(&self) -> (r: usize)
        ensures
            r == self.position_spec(),
    {
        self.position
    }

    /// Read the next line. `data` is the source's current content as a read
    /// from the underlying stream would see it, or `None` if that read failed
    /// transiently. The trailing line feed is stripped from the returned
    /// line, and the position advances past it; on failure or end-of-stream
    /// the position does not move.
    pub fn read_line(&mut self, data: Option<&str>) -> (r: Option<String>)
        ensures
            final(self).source_type_spec() == old(self).source_type_spec(),
            match data {
                None => r is None && final(self).position_spec() == old(self).position_spec(),
                Some(d) => {
                    let p = old(self).position_spec();
                    if p >= d@.len() {
                        r is None && final(self).position_spec() == old(self).position_spec()
                    } else {
                        &&& r matches Some(line) && line@ == line_at(d@, p)
                        &&& final(self).position_spec() == next_pos(d@, p)
                    }
                },
            },
    {
        let d = match data {
            Some(d) => d,
            None => {
                return None;
            },
        };
        let len = d.unicode_len();
        if self.position >= len {
            return None;
        }
        let start = self.position;
        let mut i = start;
        while i < len && d.get_char(i) != '\n'
            invariant
                start <= i <= len,
                len == d@.len(),
                forall|j: int| start <= j < i ==> d@[j] != '\n',
            decreases len - i,
        {
            i += 1;
        }
        proof {
            lemma_line_end_scan(d@, start as int, i as int);
        }
        let line = d.substring_char(start, i).to_owned();
        self.position = if i < len {
            i + 1
        } else {
            len
        };
        Some(line)
    }
}

proof fn lemma_line_end_scan(d: Seq<char>, p: int, i: int)
    requires
        0 <= p <= i <= d.len(),
        forall|j: int| p <= j < i ==> d[j] != '\n',
        i < d.len() ==> d[i] == '\n',
    ensures
        line_end(d, p) == i,
    decreases i - p,
{
    if p < i {
        lemma_line_end_scan(d, p + 1, i);
    }
}

/// What one successful read consumes: the line together with its line feed,
/// if it has one.
pub open spec fn consumed(d: Seq<char>, p: int) -> Seq<char> {
    d.subrange(p, next_pos(d, p))
}

/// The consumed segments of successive reads are adjacent and disjoint, and
/// together they cover the input from `p` to its end exactly once: no
/// character is skipped, none is delivered twice.
pub proof fn lemma_reads_tile_input(d: Seq<char>, p: int)
    requires
        0 <= p <= d.len(),
    ensures
        tiled_from(d, p) == d.skip(p),
    decreases d.len() - p,
{
    lemma_line_end(d, p);
    if p < d.len() {
        lemma_reads_tile_input(d, next_pos(d, p));
        assert(consumed(d, p) + d.skip(next_pos(d, p)) =~= d.skip(p));
    } else {
        assert(d.skip(p) =~= Seq::<char>::empty());
    }
}

/// The concatenation of the segments that successive reads from `p` consume.
pub open spec fn tiled_from(d: Seq<char>, p: int) -> Seq<char>
    decreases d.len() - p,
    when 0 <= p <= d.len() via tiled_from_decreases
{
    if p >= d.len() {
        Seq::empty()
    } else {
        consumed(d, p) + tiled_from(d, next_pos(d, p))
    }
}

#[via_fn]
proof fn tiled_from_decreases(d: Seq<char>, p: int) {
    lemma_line_end(d, p);
}

/// Appending to the input changes neither a line that was already
/// line-feed-terminated nor where reading it leaves the position, so lines
/// read while a writer appends are the lines of the final content, in order.
pub proof fn lemma_append_keeps_terminated_lines(d1: Seq<char>, d2: Seq<char>, p: int)
    requires
        0 <= p <= d1.len() <= d2.len(),
        d2.take(d1.len() as int) == d1,
        line_end(d1, p) < d1.len(),
    ensures
        line_end(d2, p) == line_end(d1, p),
        line_at(d2, p) == line_at(d1, p),
        next_pos(d2, p) == next_pos(d1, p),
    decreases d1.len() - p,
{
    lemma_line_end(d1, p);
    assert(forall|j: int| 0 <= j < d1.len() ==> d2[j] == d1[j]) by {
        assert(forall|j: int|
            0 <= j < d1.len() ==> d2.take(d1.len() as int)[j] == d2[j]);
    }
    lemma_line_end_scan(d2, p, line_end(d1, p));
    assert(line_at(d2, p) =~= line_at(d1, p));
}

/// Once the input has been drained to its end and more text is appended,
/// further reads deliver exactly the lines of the appended suffix: nothing
/// before the old end is delivered again.
pub proof fn lemma_resume_delivers_suffix(d1: Seq<char>, suffix: Seq<char>)
    ensures
        lines_from(d1 + suffix, d1.len() as int) == lines_from(suffix, 0),
{
    lemma_lines_shift(d1, suffix, 0);
}

proof fn lemma_line_end_shift(d1: Seq<char>, s: Seq<char>, k: int)
    requires
        0 <= k <= s.len(),
    ensures
        line_end(d1 + s, d1.len() + k) == d1.len() + line_end(s, k),
    decreases s.len() - k,
{
    let d = d1 + s;
    if k < s.len() {
        assert(d[d1.len() + k] == s[k]);
        if s[k] != '\n' {
            lemma_line_end_shift(d1, s, k + 1);
        }
    }
}

proof fn lemma_lines_shift(d1: Seq<char>, s: Seq<char>, k: int)
    requires
        0 <= k <= s.len(),
    ensures
        lines_from(d1 + s, d1.len() + k) == lines_from(s, k),
    decreases s.len() - k,
{
    let d = d1 + s;
    lemma_line_end(s, k);
    lemma_line_end_shift(d1, s, k);
    if k < s.len() {
        assert(line_at(d, d1.len() + k) =~= line_at(s, k));
        assert(next_pos(d, d1.len() + k) == d1.len() + next_pos(s, k));
        lemma_lines_shift(d1, s, next_pos(s, k));
    }
}

} // verus!
