use vstd::prelude::*;

verus! {

/// A position in a source buffer. Only `char_num` (the 0-based character
/// offset) takes part in ordering; `line` and `col` (both 1-based) are for
/// display.
#[derive(Clone, Copy, Debug, PartialEq, Eq, Structural)]
pub struct Location {
    pub line: usize,
    pub col: usize,
    pub char_num: usize,
}

/// An inclusive range `start..=end` of a source buffer.
#[derive(Clone, Copy, Debug, PartialEq, Eq, Structural)]
pub struct Span {
    pub start: Location,
    pub end: Location,
}

/// Where a source text came from: a file, or memory.
#[derive(Clone, Debug, PartialEq, Eq)]
pub enum Source {
    File(String),
    Anonymous,
}

impl Source {
    /// The same origin: both anonymous, or files of the same path.
    pub open spec fn same(self, other: Source) -> bool {
        match (self, other) {
            (Source::File(a), Source::File(b)) => a@ == b@,
            (Source::Anonymous, Source::Anonymous) => true,
            _ => false,
        }
    }

    pub fn is_same(&self, other: &Source) -> (r: bool)
        ensures
            r == self.same(*other),
    {
        match (self, other) {
            (Source::File(a), Source::File(b)) => *a == *b,
            (Source::Anonymous, Source::Anonymous) => true,
            _ => false,
        }
    }
}

/// A location together with the source it is in.
#[derive(Clone, Debug)]
pub struct SourceLocation {
    pub file: Source,
    pub loc: Location,
}

impl Location {
    pub fn add_source(self, source: Source) -> (r: SourceLocation)
        ensures
            r.file == source,
            r.loc == self,
    {
        SourceLocation { file: source, loc: self }
    }

    /// Two locations of one buffer with the same offset are the same location.
    pub open spec fn agrees(self, other: Location) -> bool {
        self.char_num == other.char_num ==> self == other
    }

    /// The earlier of two locations; `self` when they are at the same offset.
    pub open spec fn spec_min(self, other: Location) -> Location {
        if other.char_num < self.char_num { other } else { self }
    }

    /// The later of two locations; `other` when they are at the same offset.
    pub open spec fn spec_max(self, other: Location) -> Location {
        if other.char_num < self.char_num { self } else { other }
    }

    pub fn min(self, other: Location) -> (r: Location)
        ensures
            r == self.spec_min(other),
    {
        if other.char_num < self.char_num { other } else { self }
    }

    pub fn max(self, other: Location) -> (r: Location)
        ensures
            r == self.spec_max(other),
    {
        if other.char_num < self.char_num { self } else { other }
    }
}

impl Span {
    /// A span is valid when it does not end before it starts.
    pub open spec fn valid(self) -> bool {
        self.start.char_num <= self.end.char_num
    }

    /// Two spans cut from one buffer: locations at equal offsets coincide.
    pub open spec fn same_buffer(self, other: Span) -> bool {
        &&& self.start.agrees(other.start)
        &&& self.end.agrees(other.end)
    }

    pub open spec fn spec_combine(self, other: Span) -> Span {
        Span { start: self.start.spec_min(other.start), end: self.end.spec_max(other.end) }
    }

    /// The span of a single character.
    pub fn from_loc(loc: Location) -> (r: Span)
        ensures
            r.start == loc,
            r.end == loc,
    {
        Span { start: loc, end: loc }
    }

    pub fn from_source_loc(loc: SourceLocation) -> (r: Span)
        ensures
            r.start == loc.loc,
            r.end == loc.loc,
    {
        Span { start: loc.loc, end: loc.loc }
    }

    /// The span between two locations of one source.
    pub fn from_source_start_end(start: SourceLocation, end: SourceLocation) -> (r: Span)
        requires
            start.file.same(end.file),
        ensures
            r.start == start.loc,
            r.end == end.loc,
    {
        Span { start: start.loc, end: end.loc }
    }

    pub fn from_start_end(start: Location, end: Location) -> (r: Span)
        ensures
            r.start == start,
            r.end == end,
    {
        Span { start, end }
    }

    /// The smallest span that covers both spans.
    pub fn combine(&self, other: Span) -> (r: Span)
        ensures
            r == self.spec_combine(other),
            r.start.char_num == vstd::math::min(
                self.start.char_num as int,
                other.start.char_num as int,
            ),
            r.end.char_num == vstd::math::max(self.end.char_num as int, other.end.char_num as int),
            self.valid() || other.valid() ==> r.valid(),
    {
        Span { start: self.start.min(other.start), end: self.end.max(other.end) }
    }

    /// The characters of `s` that the span covers.
    pub fn slice<'b>(&self, s: &'b str) -> (r: &'b str)
        requires
            self.valid(),
            self.end.char_num < s@.len() <= usize::MAX,
        ensures
            r@ == s@.subrange(self.start.char_num as int, self.end.char_num + 1),
    {
        s.substring_char(self.start.char_num, self.end.char_num + 1)
    }
}

/// Combining spans is commutative, for spans of one buffer.
pub proof fn lemma_combine_commutative(a: Span, b: Span)
    requires
        a.same_buffer(b),
    ensures
        a.spec_combine(b) == b.spec_combine(a),
{
}

/// Combining spans is associative.
pub proof fn lemma_combine_associative(a: Span, b: Span, c: Span)
    ensures
        a.spec_combine(b).spec_combine(c) == a.spec_combine(b.spec_combine(c)),
{
}

} // verus!
