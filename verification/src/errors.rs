//! Source locations, ranges, error values and the diagnostic catalogue.
use vstd::prelude::*;
use crate::text::{push_char, to_owned_string, usize_to_string, decimal};

verus! {

/// A position in a source file: 1-based line, 0-based column, 0-based character offset.
#[derive(Clone, Copy)]
pub struct LoC {
    pub line: usize,
    pub col: usize,
    pub pos: usize,
}

impl Default for LoC {
    fn default() -> (l: Self)
        ensures
            l.line == 0 && l.col == 0 && l.pos == 0,
    {
        LoC { line: 0, col: 0, pos: 0 }
    }
}

impl LoC {
    /// The empty range that starts and ends at this location.
    pub fn to_range(&self) -> (r: Range)
        ensures
            r.start == *self,
            r.end == *self,
    {
        Range { start: *self, end: *self }
    }

    /// The range from this location to `other`.
    pub fn end(self, other: &LoC) -> (r: Range)
        ensures
            r.start == self,
            r.end == *other,
    {
        Range { start: self, end: *other }
    }

    /// `"(line:col)"`: how a location is shown.
    pub fn to_display_string(&self) -> (s: String)
        ensures
            s@ == seq!['('] + decimal(self.line as nat) + seq![':'] + decimal(self.col as nat)
                + seq![')'],
    {
        let mut s = String::new();
        push_char(&mut s, '(');
        let l = usize_to_string(self.line);
        s.append(l.as_str());
        push_char(&mut s, ':');
        let c = usize_to_string(self.col);
        s.append(c.as_str());
        push_char(&mut s, ')');
        s
    }
}

/// A span of source text between two locations.
#[derive(Clone, Copy)]
pub struct Range {
    pub start: LoC,
    pub end: LoC,
}

impl Default for Range {
    fn default() -> (r: Self)
        ensures
            r.start == (LoC { line: 0, col: 0, pos: 0 }),
            r.end == (LoC { line: 0, col: 0, pos: 0 }),
    {
        Range { start: LoC { line: 0, col: 0, pos: 0 }, end: LoC { line: 0, col: 0, pos: 0 } }
    }
}

/// The text shown for a range: `(l1:c1 - l2:c2)`.
pub open spec fn range_text(r: Range) -> Seq<char> {
    seq!['('] + decimal(r.start.line as nat) + seq![':'] + decimal(r.start.col as nat) + seq![
        ' ',
        '-',
        ' ',
    ] + decimal(r.end.line as nat) + seq![':'] + decimal(r.end.col as nat) + seq![')']
}

impl Range {
    /// The range with the same start and the given end.
    pub fn end_with(self, end: &LoC) -> (r: Range)
        ensures
            r.start == self.start,
            r.end == *end,
    {
        Range { start: self.start, end: *end }
    }

    /// `"(l1:c1 - l2:c2)"`: how a range is shown.
    pub fn to_display_string(&self) -> (s: String)
        ensures
            s@ == range_text(*self),
    {
        let mut s = String::new();
        push_char(&mut s, '(');
        let a = usize_to_string(self.start.line);
        s.append(a.as_str());
        push_char(&mut s, ':');
        let b = usize_to_string(self.start.col);
        s.append(b.as_str());
        push_char(&mut s, ' ');
        push_char(&mut s, '-');
        push_char(&mut s, ' ');
        let c = usize_to_string(self.end.line);
        s.append(c.as_str());
        push_char(&mut s, ':');
        let d = usize_to_string(self.end.col);
        s.append(d.as_str());
        push_char(&mut s, ')');
        assert(s@ =~= range_text(*self));
        s
    }
}

/// Where a label attaches: a help note, or a sub-range of the error.
pub enum ErrorLabelVariants {
    Help,
    Sub(Range),
}

/// An extra note attached to an error.
pub struct ErrorLabel {
    pub msg: String,
    pub variant: ErrorLabelVariants,
}

/// An error with its message, its range and its labels.
pub struct BaseError {
    pub range: Range,
    pub msg: String,
    pub labels: Vec<ErrorLabel>,
}

impl BaseError {
    /// An error without labels.
    pub fn new(msg: String, range: Range) -> (e: Self)
        ensures
            e.msg == msg,
            e.range == range,
            e.labels@.len() == 0,
    {
        BaseError { msg, range, labels: Vec::new() }
    }

    /// An error with the given labels.
    pub fn new_with_labels(msg: String, range: Range, labels: Vec<ErrorLabel>) -> (e: Self)
        ensures
            e.msg == msg,
            e.range == range,
            e.labels == labels,
    {
        BaseError { msg, range, labels }
    }

    /// `"Error: <msg>\n"`: how an error is shown.
    pub fn to_display_string(&self) -> (s: String)
        ensures
            s@ == seq!['E', 'r', 'r', 'o', 'r', ':', ' '] + self.msg@ + seq!['\n'],
    {
        let mut s = String::new();
        push_char(&mut s, 'E');
        push_char(&mut s, 'r');
        push_char(&mut s, 'r');
        push_char(&mut s, 'o');
        push_char(&mut s, 'r');
        push_char(&mut s, ':');
        push_char(&mut s, ' ');
        s.append(self.msg.as_str());
        push_char(&mut s, '\n');
        assert(s@ =~= seq!['E', 'r', 'r', 'o', 'r', ':', ' '] + self.msg@ + seq!['\n']);
        s
    }
}

/// The errors gathered for one file.
pub struct ErrorCollector {
    pub collected: Vec<BaseError>,
    pub filename: String,
}

impl ErrorCollector {
    /// An empty collector for `filename`.
    pub fn new(filename: &str) -> (c: Self)
        ensures
            c.collected@.len() == 0,
            c.filename@ == filename@,
    {
        ErrorCollector { collected: Vec::new(), filename: to_owned_string(filename) }
    }

    /// Records one more error.
    pub fn push(&mut self, err: BaseError)
        ensures
            final(self).collected@ == old(self).collected@.push(err),
            final(self).filename == old(self).filename,
    {
        self.collected.push(err);
    }
}

} // verus!
