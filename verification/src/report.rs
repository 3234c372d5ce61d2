//! The report of an error for a terminal: a header with the file, the range
//! and the message, then the source lines the error covers, then its labels.
use vstd::prelude::*;
use colored::Colorize;
use crate::errors::{BaseError, ErrorLabel, range_text};
use crate::text::{chars_of, decimal, push_char, string_of_chars, usize_to_string};

verus! {

/// The colours a report uses.
pub enum Color {
    Cyan,
    Red,
}

/// The escape sequence that starts a colour on a terminal.
pub open spec fn ansi_start(c: Color) -> Seq<char> {
    match c {
        Color::Cyan => seq!['\x1B', '[', '3', '6', 'm'],
        Color::Red => seq!['\x1B', '[', '3', '1', 'm'],
    }
}

/// The escape sequence that ends a colour.
pub open spec fn ansi_reset() -> Seq<char> {
    seq!['\x1B', '[', '0', 'm']
}

/// `s` holds the reset sequence somewhere.
pub open spec fn has_reset(s: Seq<char>) -> bool {
    exists|i: int| 0 <= i && i + 4 <= s.len() && #[trigger] s.subrange(i, i + 4) == ansi_reset()
}

/// `r` is `s` as colour `c` may show it: unchanged, or between the
/// colour's start sequence and the reset sequence.
pub open spec fn painted_as(r: Seq<char>, s: Seq<char>, c: Color) -> bool {
    r == s || r == ansi_start(c) + s + ansi_reset()
}

/// `s` in colour `c`: colored's `Colorize::color`, shown with `to_string`.
/// Whether colored writes the escape sequences depends on the environment
/// and on whether the output is a terminal, so the result is either `s`
/// itself or `s` between the colour's start and reset sequences. For a text
/// that already holds the reset sequence colored repeats the colour after
/// it; nothing is stated of that case.
#[verifier::external_body]
fn paint(s: &str, c: Color) -> (r: String)
    ensures
        !has_reset(s@) ==> painted_as(r@, s@, c),
{
    let col = match c {
        Color::Cyan => colored::Color::Cyan,
        Color::Red => colored::Color::Red,
    };
    s.color(col).to_string()
}

/// The painted pieces of a report: the corner of the header, the wall
/// before each source line, the mark before each label and the message.
pub struct Painted {
    pub corner: String,
    pub wall: String,
    pub eq: String,
    pub msg: String,
}

/// The pieces are the report's marks and the message `msg`, each as its
/// colour may show it (the marks cyan, the message red).
pub open spec fn painted_well(p: Painted, msg: Seq<char>) -> bool {
    &&& painted_as(p.corner@, "┎──"@, Color::Cyan)
    &&& painted_as(p.wall@, "┃"@, Color::Cyan)
    &&& painted_as(p.eq@, "="@, Color::Cyan)
    &&& !has_reset(msg) ==> painted_as(p.msg@, msg, Color::Red)
}

/// `n` spaces.
pub open spec fn spaces(n: nat) -> Seq<char>
    decreases n,
{
    if n == 0 {
        Seq::empty()
    } else {
        spaces((n - 1) as nat).push(' ')
    }
}

/// A line without the carriage return that ended it before its newline.
pub open spec fn strip_cr(l: Seq<char>) -> Seq<char> {
    if l.len() > 0 && l.last() == '\r' {
        l.drop_last()
    } else {
        l
    }
}

/// The lines of `s` from offset `i`, the current line having read `cur`
/// so far.
pub open spec fn lines_from(s: Seq<char>, i: int, cur: Seq<char>) -> Seq<Seq<char>>
    decreases s.len() - i,
{
    if i < 0 || i >= s.len() {
        if cur.len() == 0 {
            Seq::empty()
        } else {
            seq![cur]
        }
    } else if s[i] == '\n' {
        seq![strip_cr(cur)] + lines_from(s, i + 1, Seq::empty())
    } else {
        lines_from(s, i + 1, cur.push(s[i]))
    }
}

/// The lines of `s` as std's `str::lines` gives them: split at each `\n`
/// (a `\r` just before it dropped), with no empty line after a final `\n`.
pub open spec fn lines_of(s: Seq<char>) -> Seq<Seq<char>> {
    lines_from(s, 0, Seq::empty())
}

/// The spaces after the number of line `ind` that line up the wall, when
/// the widest number has `d` digits.
pub open spec fn row_pad(ind: nat, d: nat) -> nat {
    if decimal(ind).len() <= d + 1 {
        (d + 1 - decimal(ind).len()) as nat
    } else {
        0
    }
}

/// The row showing source line `ind` (counted from 1), when there is one.
pub open spec fn source_row(lines: Seq<Seq<char>>, ind: int, d: nat, wall: Seq<char>) -> Seq<char> {
    if 1 <= ind <= lines.len() {
        decimal(ind as nat) + spaces(row_pad(ind as nat, d)) + wall + seq![' ', ' ', ' '] + lines[ind - 1]
            + seq!['\n']
    } else {
        Seq::empty()
    }
}

/// The rows of source lines `from` to `to`.
pub open spec fn source_rows(lines: Seq<Seq<char>>, from: int, to: int, d: nat, wall: Seq<char>) -> Seq<char>
    decreases to - from + 1,
{
    if to < from {
        Seq::empty()
    } else {
        source_rows(lines, from, to - 1, d, wall) + source_row(lines, to, d, wall)
    }
}

/// The rows of the labels, each after `pad` and the mark `eq`.
pub open spec fn label_rows(labels: Seq<ErrorLabel>, pad: Seq<char>, eq: Seq<char>) -> Seq<char>
    decreases labels.len(),
{
    if labels.len() == 0 {
        Seq::empty()
    } else {
        label_rows(labels.drop_last(), pad, eq) + pad + seq![' '] + eq + seq![' '] + labels.last().msg@
            + seq!['\n']
    }
}

/// The header of the report of `err` in the file `filename`.
pub open spec fn report_header(err: BaseError, filename: Seq<char>, p: Painted) -> Seq<char> {
    let pad = spaces(decimal(err.range.end.line as nat).len() + 1);
    pad + p.corner@ + seq![' '] + filename + seq![' '] + range_text(err.range) + seq![':', ' '] + p.msg@
        + seq!['\n']
}

/// The report of `err` in the file `filename` whose text is `source`, with
/// the painted pieces `p`: the header, a row for each source line from the
/// line where the error starts to the line where it ends (the numbers lined
/// up to the widest), and a row for each label.
pub open spec fn error_report(err: BaseError, filename: Seq<char>, source: Seq<char>, p: Painted) -> Seq<char> {
    let d = decimal(err.range.end.line as nat).len();
    report_header(err, filename, p) + source_rows(
        lines_of(source),
        err.range.start.line as int,
        err.range.end.line as int,
        d,
        p.wall@,
    ) + label_rows(err.labels@, spaces(d + 1), p.eq@)
}

/// The views of a list of lines.
pub open spec fn line_views(v: Seq<Vec<char>>) -> Seq<Seq<char>>
    decreases v.len(),
{
    if v.len() == 0 {
        Seq::empty()
    } else {
        line_views(v.drop_last()).push(v.last()@)
    }
}

proof fn lemma_line_views(v: Seq<Vec<char>>)
    ensures
        line_views(v).len() == v.len(),
        forall|k: int| 0 <= k < v.len() ==> #[trigger] line_views(v)[k] == v[k]@,
    decreases v.len(),
{
    if v.len() > 0 {
        lemma_line_views(v.drop_last());
    }
}

/// The lines of `source` (see [`lines_of`]).
fn split_lines(source: &str) -> (v: Vec<Vec<char>>)
    ensures
        line_views(v@) == lines_of(source@),
{
    let cs = chars_of(source);
    let mut out: Vec<Vec<char>> = Vec::new();
    let mut cur: Vec<char> = Vec::new();
    let mut i: usize = 0;
    while i < cs.len()
        invariant
            cs@ == source@,
            i <= cs.len(),
            line_views(out@) + lines_from(cs@, i as int, cur@) == lines_of(cs@),
        decreases cs.len() - i,
    {
        let ghost before = line_views(out@);
        let ghost old_cur = cur@;
        let ghost old_out = out@;
        if cs[i] == '\n' {
            let mut line = cur;
            if line.len() > 0 && line[line.len() - 1] == '\r' {
                line.pop();
            }
            assert(line@ =~= strip_cr(old_cur));
            out.push(line);
            cur = Vec::new();
            assert(out@.drop_last() =~= old_out);
            assert(line_views(out@) == before.push(strip_cr(old_cur)));
            assert(lines_from(cs@, i as int, old_cur) == seq![strip_cr(old_cur)] + lines_from(
                cs@,
                i + 1,
                Seq::empty(),
            ));
            assert(line_views(out@) + lines_from(cs@, i + 1, cur@) =~= before + lines_from(
                cs@,
                i as int,
                old_cur,
            ));
        } else {
            cur.push(cs[i]);
        }
        i = i + 1;
    }
    if cur.len() > 0 {
        let ghost old_out = out@;
        out.push(cur);
        assert(out@.drop_last() =~= old_out);
    }
    out
}

/// `n` spaces.
fn spaces_string(n: usize) -> (s: String)
    ensures
        s@ == spaces(n as nat),
{
    let mut s = String::new();
    let mut i: usize = 0;
    while i < n
        invariant
            i <= n,
            s@ == spaces(i as nat),
        decreases n - i,
    {
        push_char(&mut s, ' ');
        i = i + 1;
    }
    s
}

/// The report of `err` in the file `filename` whose text is `source`, with
/// the painted pieces `painted` (see [`error_report`]).
pub fn format_err_with(err: &BaseError, filename: &str, source: &str, painted: &Painted) -> (s: String)
    ensures
        s@ == error_report(*err, filename@, source@, *painted),
{
    let end_line = err.range.end.line;
    let start_line = err.range.start.line;
    let num = usize_to_string(end_line);
    let digits = num.unicode_len();
    let ghost d = digits as nat;
    let mut pad = spaces_string(digits);
    push_char(&mut pad, ' ');
    let mut s = String::new();
    s.append(pad.as_str());
    s.append(painted.corner.as_str());
    push_char(&mut s, ' ');
    s.append(filename);
    push_char(&mut s, ' ');
    let r = err.range.to_display_string();
    s.append(r.as_str());
    push_char(&mut s, ':');
    push_char(&mut s, ' ');
    s.append(painted.msg.as_str());
    push_char(&mut s, '\n');
    assert(s@ =~= report_header(*err, filename@, *painted));
    let ghost head = s@;
    let lines = split_lines(source);
    proof {
        lemma_line_views(lines@);
    }
    let ghost ls = lines_of(source@);
    if start_line <= end_line {
        let mut ind: usize = start_line;
        while ind < end_line
            invariant
                start_line <= ind <= end_line,
                end_line == err.range.end.line,
                start_line == err.range.start.line,
                d == decimal(end_line as nat).len(),
                d == digits as nat,
                line_views(lines@) == ls,
                lines@.len() == ls.len(),
                forall|k: int| 0 <= k < lines@.len() ==> #[trigger] ls[k] == lines@[k]@,
                s@ == head + source_rows(ls, start_line as int, ind - 1, d, painted.wall@),
            decreases end_line - ind,
        {
            self::push_row(&mut s, &lines, ind, digits, &painted.wall);
            proof {
                assert(source_rows(ls, start_line as int, ind as int, d, painted.wall@) == source_rows(
                    ls,
                    start_line as int,
                    ind - 1,
                    d,
                    painted.wall@,
                ) + source_row(ls, ind as int, d, painted.wall@));
            }
            assert(s@ =~= head + source_rows(ls, start_line as int, ind as int, d, painted.wall@));
            ind = ind + 1;
        }
        self::push_row(&mut s, &lines, end_line, digits, &painted.wall);
        assert(s@ =~= head + source_rows(ls, start_line as int, end_line as int, d, painted.wall@));
    } else {
        assert(s@ =~= head + source_rows(ls, start_line as int, end_line as int, d, painted.wall@));
    }
    let ghost body = s@;
    let mut j: usize = 0;
    while j < err.labels.len()
        invariant
            j <= err.labels@.len(),
            pad@ == spaces(d + 1),
            s@ == body + label_rows(err.labels@.subrange(0, j as int), pad@, painted.eq@),
        decreases err.labels@.len() - j,
    {
        s.append(pad.as_str());
        push_char(&mut s, ' ');
        s.append(painted.eq.as_str());
        push_char(&mut s, ' ');
        s.append(err.labels[j].msg.as_str());
        push_char(&mut s, '\n');
        assert(err.labels@.subrange(0, j + 1).drop_last() =~= err.labels@.subrange(0, j as int));
        assert(s@ =~= body + label_rows(err.labels@.subrange(0, j + 1), pad@, painted.eq@));
        j = j + 1;
    }
    assert(err.labels@.subrange(0, j as int) =~= err.labels@);
    s
}

/// Appends the row of source line `ind` when the source has that line.
fn push_row(s: &mut String, lines: &Vec<Vec<char>>, ind: usize, digits: usize, wall: &String)
    ensures
        final(s)@ == old(s)@ + source_row(line_views(lines@), ind as int, digits as nat, wall@),
{
    proof {
        lemma_line_views(lines@);
    }
    if 1 <= ind && ind <= lines.len() {
        let number = usize_to_string(ind);
        let nlen = number.unicode_len();
        let ghost before = s@;
        s.append(number.as_str());
        if nlen <= digits {
            let sp = spaces_string(digits - nlen);
            s.append(sp.as_str());
            push_char(s, ' ');
            assert(spaces((digits - nlen) as nat).push(' ') == spaces(row_pad(ind as nat, digits as nat)));
        } else {
            assert(row_pad(ind as nat, digits as nat) == 0);
            assert(spaces(0) =~= Seq::<char>::empty());
        }
        s.append(wall.as_str());
        push_char(s, ' ');
        push_char(s, ' ');
        push_char(s, ' ');
        let line = string_of_chars(&lines[ind - 1]);
        s.append(line.as_str());
        push_char(s, '\n');
        assert(s@ =~= before + source_row(line_views(lines@), ind as int, digits as nat, wall@));
    }
}

/// The report of `err` in the file `filename` whose text is `source`: the
/// marks painted cyan and the message red (see [`error_report`]).
pub fn format_err(err: &BaseError, filename: &str, source: &str) -> (s: String)
    ensures
        exists|p: Painted| #[trigger] painted_well(p, err.msg@) && s@ == error_report(*err, filename@, source@, p),
{
    proof {
        reveal_strlit("┎──");
        reveal_strlit("┃");
        reveal_strlit("=");
    }
    let painted = Painted {
        corner: paint("┎──", Color::Cyan),
        wall: paint("┃", Color::Cyan),
        eq: paint("=", Color::Cyan),
        msg: paint(err.msg.as_str(), Color::Red),
    };
    assert(painted_well(painted, err.msg@));
    format_err_with(err, filename, source, &painted)
}

} // verus!
