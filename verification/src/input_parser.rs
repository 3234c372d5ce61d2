//! A character cursor over source code that tracks line and column.
use vstd::prelude::*;
use crate::errors::LoC;
use crate::text::chars_of;

verus! {

/// A cursor over a sequence of characters.
pub trait InputSequence {
    /// The whole input.
    spec fn input_chars(&self) -> Seq<char>;

    /// How many characters were consumed.
    spec fn input_pos(&self) -> nat;

    /// The cursor is inside the input and its counters cannot overflow.
    spec fn input_ok(&self) -> bool;

    /// The cursor can move `am` characters back and stay sound.
    spec fn can_unpeek(&self, am: usize) -> bool;

    /// Takes the next character, if any.
    fn consume(&mut self) -> (r: Option<char>)
        requires
            old(self).input_ok(),
        ensures
            final(self).input_ok(),
            final(self).input_chars() == old(self).input_chars(),
            old(self).input_pos() < old(self).input_chars().len() ==> r == Some(
                old(self).input_chars()[old(self).input_pos() as int],
            ) && final(self).input_pos() == old(self).input_pos() + 1,
            old(self).input_pos() >= old(self).input_chars().len() ==> r is None
                && final(self).input_pos() == old(self).input_pos(),
    ;

    /// The character `am` places ahead, if any.
    fn peek(&self, am: usize) -> (r: Option<char>)
        requires
            self.input_ok(),
        ensures
            self.input_pos() + am < self.input_chars().len() ==> r == Some(
                self.input_chars()[self.input_pos() + am],
            ),
            self.input_pos() + am >= self.input_chars().len() ==> r is None,
    ;

    /// Moves the cursor `am` characters back.
    fn unpeek(&mut self, am: usize)
        requires
            old(self).can_unpeek(am),
        ensures
            final(self).input_ok(),
            final(self).input_chars() == old(self).input_chars(),
            final(self).input_pos() == old(self).input_pos() - am,
    ;

    /// Whether all characters were consumed.
    fn is_eof(&self) -> (r: bool)
        requires
            self.input_ok(),
        ensures
            r == (self.input_pos() >= self.input_chars().len()),
    ;

    /// The current location.
    fn loc(&self) -> (l: LoC)
        requires
            self.input_ok(),
        ensures
            l.pos == self.input_pos(),
    ;
}

/// The first newline at or after offset `i`, or the length when none
/// follows.
pub open spec fn next_newline(s: Seq<char>, i: int) -> int
    decreases s.len() - i,
{
    if i < 0 || i >= s.len() {
        s.len() as int
    } else if s[i] == '\n' {
        i
    } else {
        next_newline(s, i + 1)
    }
}

pub proof fn lemma_next_newline(s: Seq<char>, i: int)
    requires
        0 <= i <= s.len(),
    ensures
        i <= next_newline(s, i) <= s.len(),
        next_newline(s, i) < s.len() ==> s[next_newline(s, i)] == '\n',
        forall|k: int| i <= k < next_newline(s, i) ==> s[k] != '\n',
    decreases s.len() - i,
{
    if i < s.len() && s[i] != '\n' {
        lemma_next_newline(s, i + 1);
    }
}

/// How many characters skipping the rest of the line from offset `p`
/// consumes: up to and including the next newline, or to the end.
pub open spec fn line_skip(s: Seq<char>, p: int) -> nat {
    if p >= s.len() {
        0
    } else if next_newline(s, p) < s.len() {
        (next_newline(s, p) + 1 - p) as nat
    } else {
        (s.len() - p) as nat
    }
}

/// The line (from 1) of offset `k`: one more than the newlines before it.
pub open spec fn line_at(s: Seq<char>, k: int) -> int
    decreases k,
{
    if k <= 0 {
        1
    } else {
        line_at(s, k - 1) + if s[k - 1] == '\n' {
            1int
        } else {
            0
        }
    }
}

/// The column (from 0) of offset `k`: the characters since the last
/// newline before it.
pub open spec fn col_at(s: Seq<char>, k: int) -> int
    decreases k,
{
    if k <= 0 {
        0
    } else if s[k - 1] == '\n' {
        0
    } else {
        col_at(s, k - 1) + 1
    }
}

/// A cursor over source code that counts lines (from 1) and columns (from 0).
pub struct InputParser {
    code: Vec<char>,
    pub line: usize,
    pub col: usize,
    pos: usize,
}

impl InputParser {
    /// The characters of the source.
    pub closed spec fn code(&self) -> Seq<char> {
        self.code@
    }

    /// Offset of the next character.
    pub closed spec fn pos(&self) -> nat {
        self.pos as nat
    }

    /// The line counter.
    pub closed spec fn line_no(&self) -> usize {
        self.line
    }

    /// The column counter.
    pub closed spec fn col_no(&self) -> usize {
        self.col
    }

    /// Well-formed: the cursor lies within the source and consuming the rest
    /// of the source cannot overflow the line or column counters.
    pub open spec fn wf(&self) -> bool {
        &&& self.pos() <= self.code().len()
        &&& self.line_no() + (self.code().len() - self.pos()) <= usize::MAX
        &&& self.col_no() + (self.code().len() - self.pos()) <= usize::MAX
    }

    /// All characters were consumed.
    pub open spec fn at_eof(&self) -> bool {
        self.pos() >= self.code().len()
    }

    /// The next character (meaningful when not at the end).
    pub open spec fn cur(&self) -> char {
        self.code()[self.pos() as int]
    }

    /// The character `k` places ahead, if any.
    pub open spec fn ahead(&self, k: int) -> Option<char> {
        if 0 <= self.pos() + k < self.code().len() {
            Some(self.code()[self.pos() + k])
        } else {
            None
        }
    }

    /// The cursor after one character is consumed (unchanged at the end).
    pub closed spec fn step(self) -> InputParser {
        if self.pos >= self.code.len() {
            self
        } else if self.code@[self.pos as int] == '\n' {
            InputParser {
                code: self.code,
                line: (self.line + 1) as usize,
                col: 0,
                pos: (self.pos + 1) as usize,
            }
        } else {
            InputParser {
                code: self.code,
                line: self.line,
                col: (self.col + 1) as usize,
                pos: (self.pos + 1) as usize,
            }
        }
    }

    /// The cursor after `n` characters are consumed (stopping at the end).
    pub open spec fn advanced(self, n: nat) -> InputParser
        decreases n,
    {
        if n == 0 {
            self
        } else {
            self.step().advanced((n - 1) as nat)
        }
    }

    /// The location the cursor reports.
    pub closed spec fn spec_loc(&self) -> LoC {
        LoC { line: self.line, col: self.col, pos: self.pos }
    }

    /// Facts about one step.
    pub proof fn lemma_step(self)
        requires
            self.wf(),
        ensures
            self.step().wf(),
            self.step().code() == self.code(),
            !self.at_eof() ==> self.step().pos() == self.pos() + 1,
            self.at_eof() ==> self.step() == self,
            !self.at_eof() && self.cur() == '\n' ==> self.step().line_no() == self.line_no() + 1
                && self.step().col_no() == 0,
            !self.at_eof() && self.cur() != '\n' ==> self.step().line_no() == self.line_no()
                && self.step().col_no() == self.col_no() + 1,
            self.step().spec_loc().pos == self.step().pos(),
            self.spec_loc().pos == self.pos(),
            self.spec_loc().line == self.line_no() && self.spec_loc().col == self.col_no(),
    {
    }

    /// Facts about `n` steps.
    pub proof fn lemma_advanced(self, n: nat)
        requires
            self.wf(),
        ensures
            self.advanced(n).wf(),
            self.advanced(n).code() == self.code(),
            self.pos() + n <= self.code().len() ==> self.advanced(n).pos() == self.pos() + n,
            self.pos() + n > self.code().len() ==> self.advanced(n).pos() == self.code().len(),
        decreases n,
    {
        if n > 0 {
            self.lemma_step();
            self.step().lemma_advanced((n - 1) as nat);
        }
    }

    /// Consuming `a` then `b` characters is consuming `a + b` characters.
    pub proof fn lemma_advanced_add(self, a: nat, b: nat)
        ensures
            self.advanced(a).advanced(b) == self.advanced(a + b),
        decreases a,
    {
        if a > 0 {
            self.step().lemma_advanced_add((a - 1) as nat, b);
        }
    }

    /// One more step after `n` steps is `n + 1` steps.
    pub proof fn lemma_advanced_step(self, n: nat)
        ensures
            self.advanced(n).step() == self.advanced(n + 1),
    {
        self.lemma_advanced_add(n, 1);
        assert(self.advanced(n).advanced(1) == self.advanced(n).step().advanced(0));
    }

    /// The line and column counters match the newlines consumed so far.
    pub open spec fn tracks_lines(&self) -> bool {
        &&& self.line_no() == line_at(self.code(), self.pos() as int)
        &&& self.col_no() == col_at(self.code(), self.pos() as int)
    }

    /// Consuming one character keeps the counters matched to the newlines.
    pub proof fn lemma_step_tracks(self)
        requires
            self.wf(),
            self.tracks_lines(),
        ensures
            self.step().tracks_lines(),
    {
    }

    /// Consuming `n` characters keeps the counters matched to the newlines.
    pub proof fn lemma_advanced_tracks(self, n: nat)
        requires
            self.wf(),
            self.tracks_lines(),
        ensures
            self.advanced(n).tracks_lines(),
        decreases n,
    {
        if n > 0 {
            self.lemma_step();
            self.lemma_step_tracks();
            self.step().lemma_advanced_tracks((n - 1) as nat);
        }
    }

    /// A cursor at the start of `code`.
    pub fn new(code: &str) -> (p: Self)
        requires
            code@.len() < usize::MAX,
        ensures
            p.code() == code@,
            p.pos() == 0,
            p.line_no() == 1,
            p.col_no() == 0,
            p.wf(),
            p.tracks_lines(),
    {
        InputParser { line: 1, col: 0, pos: 0, code: chars_of(code) }
    }

    /// Moves past the next newline, to the start of the next line. When no
    /// newline follows, the cursor moves to the end of the input.
    pub fn skip_line(&mut self)
        requires
            old(self).wf(),
        ensures
            final(self).wf(),
            *final(self) == old(self).advanced(line_skip(old(self).code(), old(self).pos() as int)),
            final(self).code() == old(self).code(),
            final(self).pos() == old(self).pos() + line_skip(old(self).code(), old(self).pos() as int),
            old(self).tracks_lines() ==> final(self).tracks_lines(),
    {
        let ghost s = self.code();
        let ghost p0 = self.pos() as int;
        proof {
            lemma_next_newline(s, p0);
            old(self).lemma_advanced(0);
        }
        loop
            invariant_except_break
                forall|k: int| p0 <= k < self.pos() ==> s[k] != '\n',
            invariant
                self.wf(),
                self.code() == s,
                p0 == old(self).pos(),
                p0 <= self.pos() <= s.len(),
                old(self).wf(),
                *self == old(self).advanced((self.pos() - p0) as nat),
                p0 <= next_newline(s, p0) <= s.len(),
                next_newline(s, p0) < s.len() ==> s[next_newline(s, p0)] == '\n',
                forall|k: int| p0 <= k < next_newline(s, p0) ==> s[k] != '\n',
            ensures
                *self == old(self).advanced((self.pos() - p0) as nat),
                self.pos() == p0 + line_skip(s, p0),
            decreases s.len() - self.pos(),
        {
            let ghost n = (self.pos() - p0) as nat;
            proof {
                old(self).lemma_advanced_step(n);
                self.lemma_step();
            }
            match self.consume() {
                None => break,
                Some(c) => {
                    if c == '\n' {
                        break;
                    }
                },
            }
        }
        proof {
            old(self).lemma_advanced(line_skip(s, p0));
            if old(self).tracks_lines() {
                old(self).lemma_advanced_tracks(line_skip(s, p0));
            }
        }
    }
}

impl InputSequence for InputParser {
    open spec fn input_chars(&self) -> Seq<char> {
        self.code()
    }

    open spec fn input_pos(&self) -> nat {
        self.pos()
    }

    open spec fn input_ok(&self) -> bool {
        self.wf()
    }

    open spec fn can_unpeek(&self, am: usize) -> bool {
        &&& self.wf()
        &&& am <= self.pos()
        &&& self.line_no() + (self.code().len() - self.pos() + am) <= usize::MAX
        &&& self.col_no() + (self.code().len() - self.pos() + am) <= usize::MAX
    }

    fn consume(&mut self) -> (r: Option<char>)
        ensures
            *final(self) == old(self).step(),
            old(self).tracks_lines() ==> final(self).tracks_lines(),
    {
        proof {
            if old(self).tracks_lines() {
                old(self).lemma_step_tracks();
            }
        }
        if self.pos >= self.code.len() {
            return None;
        }
        let char = self.code[self.pos];
        self.pos = self.pos + 1;
        if char == '\n' {
            self.line = self.line + 1;
            self.col = 0;
        } else {
            self.col = self.col + 1;
        }
        Some(char)
    }

    fn peek(&self, am: usize) -> (r: Option<char>)
        ensures
            r == self.ahead(am as int),
    {
        if am >= self.code.len() - self.pos {
            return None;
        }
        Some(self.code[self.pos + am])
    }

    fn unpeek(&mut self, am: usize)
        ensures
            final(self).line_no() == old(self).line_no(),
            final(self).col_no() == old(self).col_no(),
    {
        self.pos = self.pos - am;
    }

    fn is_eof(&self) -> (r: bool) {
        self.pos >= self.code.len()
    }

    fn loc(&self) -> (l: LoC)
        ensures
            l == self.spec_loc(),
            l.line == self.line_no(),
            l.col == self.col_no(),
    {
        LoC { line: self.line, col: self.col, pos: self.pos }
    }
}

} // verus!
