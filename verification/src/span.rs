use vstd::prelude::*;

verus! {

/// A region of source text: the file it belongs to and the line and column
/// where it starts and where it ends.
#[derive(Debug, PartialEq)]
pub struct Span {
    pub file: String,
    pub start_line: usize,
    pub start_column: usize,
    pub end_line: usize,
    pub end_column: usize,
}

/// The mathematical content of a span.
pub type SpanView = (Seq<char>, usize, usize, usize, usize);

impl View for Span {
    type V = SpanView;

    open spec fn view(&self) -> SpanView {
        (self.file@, self.start_line, self.start_column, self.end_line, self.end_column)
    }
}

impl Span {
    pub fn new(
        file: String,
        start_line: usize,
        start_column: usize,
        end_line: usize,
        end_column: usize,
    ) -> (s: Span)
        ensures
            s@ == (file@, start_line, start_column, end_line, end_column),
    {
        Span { file, start_line, start_column, end_line, end_column }
    }

    /// The span that starts where `self` starts and ends where `other` ends.
    pub fn merge(&self, other: &Span) -> (s: Span)
        ensures
            s@ == (self.file@, self.start_line, self.start_column, other.end_line, other.end_column),
    {
        Span {
            file: self.file.clone(),
            start_line: self.start_line,
            start_column: self.start_column,
            end_line: other.end_line,
            end_column: other.end_column,
        }
    }

    /// A copy equal to this span.
    pub fn copy_exact(&self) -> (s: Span)
        ensures
            s == *self,
    {
        Span {
            file: self.file.clone(),
            start_line: self.start_line,
            start_column: self.start_column,
            end_line: self.end_line,
            end_column: self.end_column,
        }
    }

    pub fn copy(&self) -> (s: Span)
        ensures
            s@ == self@,
    {
        Span {
            file: self.file.clone(),
            start_line: self.start_line,
            start_column: self.start_column,
            end_line: self.end_line,
            end_column: self.end_column,
        }
    }
}

impl Clone for Span {
    fn clone(&self) -> (s: Span)
        ensures
            s@ == self@,
    {
        self.copy()
    }
}

impl Default for Span {
    /// The empty span: no file, every position zero.
    fn default() -> (s: Span)
        ensures
            s@ == (Seq::<char>::empty(), 0usize, 0usize, 0usize, 0usize),
    {
        Span { file: String::new(), start_line: 0, start_column: 0, end_line: 0, end_column: 0 }
    }
}

} // verus!
