//! The five kinds of script line.

use vstd::prelude::*;

use crate::text::{lowercased, trimmed};

verus! {

/// What one line of a script is, decided by how the line begins.
#[derive(Debug, PartialEq, Eq)]
pub enum LineType {
    /// A line that begins with `#`.
    Comment,
    /// A line that begins with `@`: the operating system that the lines below
    /// it are for, trimmed and in lower case.
    OsDirective(String),
    /// A line that begins with one `-`: the command after it, trimmed.
    SingleCommand(String),
    /// A line that begins with `--`: it opens or closes a block of lines that
    /// form one command.
    MultiCommandDelimiter,
    /// Any other line, the empty one too: the line as it stands.
    MultiCommandLine(String),
}

/// A `LineType` over views.
pub enum LineView {
    Comment,
    OsDirective(Seq<char>),
    SingleCommand(Seq<char>),
    MultiCommandDelimiter,
    MultiCommandLine(Seq<char>),
}

impl View for LineType {
    type V = LineView;

    open spec fn view(&self) -> LineView {
        match self {
            LineType::Comment => LineView::Comment,
            LineType::OsDirective(name) => LineView::OsDirective(name@),
            LineType::SingleCommand(command) => LineView::SingleCommand(command@),
            LineType::MultiCommandDelimiter => LineView::MultiCommandDelimiter,
            LineType::MultiCommandLine(line) => LineView::MultiCommandLine(line@),
        }
    }
}

/// Whether `line` begins with `c`.
pub open spec fn begins_with(line: Seq<char>, c: char) -> bool {
    line.len() > 0 && line.first() == c
}

/// The kind of `line`. The first character decides, in this order: `#` makes a
/// comment, `@` a directive, `--` a delimiter, a single `-` a command; every
/// other line is content for a block.
pub open spec fn classify(line: Seq<char>) -> LineView {
    if begins_with(line, '#') {
        LineView::Comment
    } else if begins_with(line, '@') {
        LineView::OsDirective(lowercased(trimmed(line.skip(1))))
    } else if begins_with(line, '-') {
        if begins_with(line.skip(1), '-') {
            LineView::MultiCommandDelimiter
        } else {
            LineView::SingleCommand(trimmed(line.skip(1)))
        }
    } else {
        LineView::MultiCommandLine(line)
    }
}

/// The kinds of `lines`, in order.
pub open spec fn classified(lines: Seq<Seq<char>>) -> Seq<LineView> {
    Seq::new(lines.len(), |i: int| classify(lines[i]))
}

} // verus!
