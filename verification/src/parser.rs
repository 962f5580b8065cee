//! The parser's state machine: one state, advanced line by line.

use vstd::prelude::*;

use crate::error::ScriptError;
use crate::line::{begins_with, classified, classify, LineType, LineView};
use crate::text::{join_lines, joined, lines_of, lowercased, texts, trimmed};

verus! {

/// What the parser knows after some lines of a script.
pub struct ParseState {
    /// The operating system that the script is read for.
    pub host_os: String,
    /// Whether any directive so far named the host.
    pub is_valid_os: bool,
    /// Whether the latest directive named the host.
    pub is_current_os: bool,
    /// Whether a block of lines is open.
    pub multi_command_entered: bool,
    /// The lines gathered since the block was opened.
    pub multi_command_buffer: Vec<String>,
    /// The commands resolved so far, in the order of the script.
    pub commands: Vec<String>,
}

/// A `ParseState` over views.
pub struct ParseStateView {
    pub host_os: Seq<char>,
    pub is_valid_os: bool,
    pub is_current_os: bool,
    pub multi_command_entered: bool,
    pub multi_command_buffer: Seq<Seq<char>>,
    pub commands: Seq<Seq<char>>,
}

impl View for ParseState {
    type V = ParseStateView;

    open spec fn view(&self) -> ParseStateView {
        ParseStateView {
            host_os: self.host_os@,
            is_valid_os: self.is_valid_os,
            is_current_os: self.is_current_os,
            multi_command_entered: self.multi_command_entered,
            multi_command_buffer: texts(self.multi_command_buffer@),
            commands: texts(self.commands@),
        }
    }
}

/// The state before the first line: no section seen, no block open, nothing
/// resolved.
pub open spec fn initial(host_os: Seq<char>) -> ParseStateView {
    ParseStateView {
        host_os,
        is_valid_os: false,
        is_current_os: false,
        multi_command_entered: false,
        multi_command_buffer: Seq::empty(),
        commands: Seq::empty(),
    }
}

/// The state after `line` is read in `state`.
///
/// A comment changes nothing. A directive is read in every state: it says
/// whether the lines below it are for the host. Every other line counts only
/// while the section is for the host: a delimiter opens a block, or closes it
/// and turns the gathered lines into one command; a single command is
/// resolved as it stands; any other line is gathered if a block is open.
pub open spec fn next_state(state: ParseStateView, line: LineView) -> ParseStateView {
    match line {
        LineView::Comment => state,
        LineView::OsDirective(name) => ParseStateView {
            is_current_os: name == state.host_os,
            is_valid_os: state.is_valid_os || name == state.host_os,
            ..state
        },
        LineView::MultiCommandDelimiter => if !state.is_current_os {
            state
        } else if state.multi_command_entered {
            ParseStateView {
                multi_command_entered: false,
                multi_command_buffer: Seq::empty(),
                commands: state.commands.push(joined(state.multi_command_buffer)),
                ..state
            }
        } else {
            ParseStateView {
                multi_command_entered: true,
                multi_command_buffer: Seq::empty(),
                ..state
            }
        },
        LineView::SingleCommand(command) => if state.is_current_os {
            ParseStateView { commands: state.commands.push(command), ..state }
        } else {
            state
        },
        LineView::MultiCommandLine(text) => if state.is_current_os
            && state.multi_command_entered {
            ParseStateView {
                multi_command_buffer: state.multi_command_buffer.push(text),
                ..state
            }
        } else {
            state
        },
    }
}

/// The state after all of `lines` are read, first to last, from `state`.
pub open spec fn fold_lines(state: ParseStateView, lines: Seq<LineView>) -> ParseStateView
    decreases lines.len(),
{
    if lines.len() == 0 {
        state
    } else {
        next_state(fold_lines(state, lines.drop_last()), lines.last())
    }
}

/// What a finished parse gives: the commands, if some section was for the
/// host. The lines of a block that is still open are not among them.
pub open spec fn outcome(state: ParseStateView) -> Result<Seq<Seq<char>>, ScriptError> {
    if state.is_valid_os {
        Ok(state.commands)
    } else {
        Err(ScriptError::NoMatchingOsSection)
    }
}

/// What a parse gave, over views: the commands, or the error.
pub open spec fn resolved(result: Result<Vec<String>, ScriptError>) -> Result<
    Seq<Seq<char>>,
    ScriptError,
> {
    match result {
        Ok(commands) => Ok(texts(commands@)),
        Err(error) => Err(error),
    }
}

/// The result of parsing a script that is given as its lines.
pub open spec fn parse_lines(lines: Seq<Seq<char>>, host_os: Seq<char>) -> Result<
    Seq<Seq<char>>,
    ScriptError,
> {
    outcome(fold_lines(initial(host_os), classified(lines)))
}

/// The result of parsing the script `source` on the host `host_os`.
pub open spec fn parse_source(source: Seq<char>, host_os: Seq<char>) -> Result<
    Seq<Seq<char>>,
    ScriptError,
> {
    parse_lines(lines_of(source), host_os)
}

/// Whether `line` opens a section for `host_os`: it begins with `@`, and what
/// follows, trimmed and in lower case, is `host_os`.
pub open spec fn opens_section_for(line: Seq<char>, host_os: Seq<char>) -> bool {
    begins_with(line, '@') && lowercased(trimmed(line.skip(1))) == host_os
}

/// Whether some line of `lines` opens a section for `host_os`.
pub open spec fn has_section_for(lines: Seq<Seq<char>>, host_os: Seq<char>) -> bool {
    exists|i: int| 0 <= i < lines.len() && opens_section_for(#[trigger] lines[i], host_os)
}

/// Whether the line at index `at` stands in a section for `host_os`: there is
/// a directive above it, and the nearest one names `host_os`.
pub open spec fn in_host_section(lines: Seq<Seq<char>>, host_os: Seq<char>, at: int) -> bool
    decreases at,
{
    if at <= 0 || at > lines.len() {
        false
    } else if begins_with(lines[at - 1], '@') {
        opens_section_for(lines[at - 1], host_os)
    } else {
        in_host_section(lines, host_os, at - 1)
    }
}

/// Whether a block is open once `lines` are read.
pub open spec fn leaves_block_open(lines: Seq<Seq<char>>, host_os: Seq<char>) -> bool {
    fold_lines(initial(host_os), classified(lines)).multi_command_entered
}

/// Reading `first` and then `second` is reading `first + second`.
pub proof fn lemma_fold_lines_concat(
    state: ParseStateView,
    first: Seq<LineView>,
    second: Seq<LineView>,
)
    ensures
        fold_lines(state, first + second) == fold_lines(fold_lines(state, first), second),
    decreases second.len(),
{
    if second.len() == 0 {
        assert(first + second =~= first);
    } else {
        lemma_fold_lines_concat(state, first, second.drop_last());
        assert((first + second).drop_last() =~= first + second.drop_last());
    }
}

/// The kinds of `first + second` are those of `first`, then those of `second`.
pub proof fn lemma_classified_concat(first: Seq<Seq<char>>, second: Seq<Seq<char>>)
    ensures
        classified(first + second) == classified(first) + classified(second),
{
    assert(classified(first + second) =~= classified(first) + classified(second));
}

/// Reading lines only adds commands, and only at the end: the commands
/// resolved before stay, in their order, at the front.
pub proof fn lemma_commands_only_grow(state: ParseStateView, kinds: Seq<LineView>)
    ensures
        state.commands.is_prefix_of(fold_lines(state, kinds).commands),
    decreases kinds.len(),
{
    if kinds.len() > 0 {
        lemma_commands_only_grow(state, kinds.drop_last());
    }
}

/// The commands keep the order of the script: what the first `n` lines
/// resolve to is the front of what the whole script resolves to.
pub proof fn lemma_commands_keep_script_order(lines: Seq<Seq<char>>, host_os: Seq<char>, n: int)
    requires
        0 <= n <= lines.len(),
    ensures
        fold_lines(initial(host_os), classified(lines.take(n))).commands.is_prefix_of(
            fold_lines(initial(host_os), classified(lines)).commands,
        ),
{
    assert(lines =~= lines.take(n) + lines.skip(n));
    lemma_classified_concat(lines.take(n), lines.skip(n));
    lemma_fold_lines_concat(
        initial(host_os),
        classified(lines.take(n)),
        classified(lines.skip(n)),
    );
    lemma_commands_only_grow(
        fold_lines(initial(host_os), classified(lines.take(n))),
        classified(lines.skip(n)),
    );
}

/// A line is a directive exactly when it begins with `@`, and a directive for
/// the host exactly when it opens a section for the host.
pub proof fn lemma_directive_lines(line: Seq<char>, host_os: Seq<char>)
    ensures
        classify(line) is OsDirective <==> begins_with(line, '@'),
        classify(line) == LineView::OsDirective(host_os) <==> opens_section_for(line, host_os),
{
}

/// Reading lines never changes the host, and some section was for the host
/// exactly if that was so before or one of the lines is a directive for it.
pub proof fn lemma_valid_iff_directive_for_host(state: ParseStateView, kinds: Seq<LineView>)
    ensures
        fold_lines(state, kinds).host_os == state.host_os,
        fold_lines(state, kinds).is_valid_os <==> state.is_valid_os || exists|i: int|
            0 <= i < kinds.len() && #[trigger] kinds[i] == LineView::OsDirective(state.host_os),
    decreases kinds.len(),
{
    if kinds.len() > 0 {
        let front = kinds.drop_last();
        lemma_valid_iff_directive_for_host(state, front);
        let before = fold_lines(state, front);
        if fold_lines(state, kinds).is_valid_os && !state.is_valid_os {
            if before.is_valid_os {
                let i = choose|i: int|
                    0 <= i < front.len() && #[trigger] front[i] == LineView::OsDirective(
                        state.host_os,
                    );
                assert(kinds[i] == LineView::OsDirective(state.host_os));
            } else {
                assert(kinds[kinds.len() - 1] == LineView::OsDirective(state.host_os));
            }
        }
        if exists|i: int|
            0 <= i < kinds.len() && #[trigger] kinds[i] == LineView::OsDirective(state.host_os) {
            let i = choose|i: int|
                0 <= i < kinds.len() && #[trigger] kinds[i] == LineView::OsDirective(
                    state.host_os,
                );
            if i < front.len() {
                assert(front[i] == LineView::OsDirective(state.host_os));
            }
        }
    }
}

/// Parsing succeeds exactly when some line opens a section for the host.
/// Otherwise it fails with `NoMatchingOsSection`; so does a script without
/// lines.
pub proof fn lemma_fails_iff_no_section_for_host(lines: Seq<Seq<char>>, host_os: Seq<char>)
    ensures
        parse_lines(lines, host_os) is Ok <==> has_section_for(lines, host_os),
        !has_section_for(lines, host_os) ==> parse_lines(lines, host_os) == Err::<
            Seq<Seq<char>>,
            ScriptError,
        >(ScriptError::NoMatchingOsSection),
{
    let kinds = classified(lines);
    lemma_valid_iff_directive_for_host(initial(host_os), kinds);
    if parse_lines(lines, host_os) is Ok {
        let i = choose|i: int|
            0 <= i < kinds.len() && #[trigger] kinds[i] == LineView::OsDirective(host_os);
        lemma_directive_lines(lines[i], host_os);
        assert(opens_section_for(lines[i], host_os));
    }
    if has_section_for(lines, host_os) {
        let i = choose|i: int|
            0 <= i < lines.len() && opens_section_for(#[trigger] lines[i], host_os);
        lemma_directive_lines(lines[i], host_os);
        assert(kinds[i] == LineView::OsDirective(host_os));
    }
}

/// Once the lines above index `at` are read, the section is current exactly
/// if the line at `at` stands in a section for the host.
pub proof fn lemma_current_iff_in_host_section(lines: Seq<Seq<char>>, host_os: Seq<char>, at: int)
    requires
        0 <= at <= lines.len(),
    ensures
        fold_lines(initial(host_os), classified(lines.take(at))).is_current_os == in_host_section(
            lines,
            host_os,
            at,
        ),
    decreases at,
{
    if at > 0 {
        lemma_current_iff_in_host_section(lines, host_os, at - 1);
        let kinds = classified(lines.take(at));
        assert(kinds.drop_last() =~= classified(lines.take(at - 1)));
        assert(kinds.last() == classify(lines[at - 1]));
        lemma_directive_lines(lines[at - 1], host_os);
        lemma_valid_iff_directive_for_host(initial(host_os), kinds.drop_last());
    }
}

/// Lines above the first section for the host, and lines in a section for
/// another system, have no part in the result, whatever they hold: such a
/// line, unless it is a directive, can be replaced by any other line that is
/// no directive, or be left out, and the parse gives the same.
pub proof fn lemma_line_outside_host_sections_is_ignored(
    lines: Seq<Seq<char>>,
    host_os: Seq<char>,
    at: int,
    other: Seq<char>,
)
    requires
        0 <= at < lines.len(),
        !in_host_section(lines, host_os, at),
        !begins_with(lines[at], '@'),
        !begins_with(other, '@'),
    ensures
        parse_lines(lines.update(at, other), host_os) == parse_lines(lines, host_os),
        parse_lines(lines.remove(at), host_os) == parse_lines(lines, host_os),
{
    let above = lines.take(at);
    let below = lines.skip(at + 1);
    let start = initial(host_os);
    let before = fold_lines(start, classified(above));
    lemma_current_iff_in_host_section(lines, host_os, at);
    lemma_directive_lines(lines[at], host_os);
    lemma_directive_lines(other, host_os);
    assert(!before.is_current_os);

    assert(lines =~= above + seq![lines[at]] + below);
    assert(lines.update(at, other) =~= above + seq![other] + below);
    assert(lines.remove(at) =~= above + below);

    lemma_skipped_line(start, above, lines[at], below);
    lemma_skipped_line(start, above, other, below);
}

/// A line that changes nothing where it is read can be left out.
proof fn lemma_skipped_line(
    start: ParseStateView,
    above: Seq<Seq<char>>,
    line: Seq<char>,
    below: Seq<Seq<char>>,
)
    requires
        next_state(fold_lines(start, classified(above)), classify(line)) == fold_lines(
            start,
            classified(above),
        ),
    ensures
        fold_lines(start, classified(above + seq![line] + below)) == fold_lines(
            start,
            classified(above + below),
        ),
{
    let before = fold_lines(start, classified(above));
    lemma_classified_concat(above + seq![line], below);
    lemma_classified_concat(above, seq![line]);
    lemma_classified_concat(above, below);
    lemma_fold_lines_concat(start, classified(above + seq![line]), classified(below));
    lemma_fold_lines_concat(start, classified(above), classified(seq![line]));
    lemma_fold_lines_concat(start, classified(above), classified(below));
    let one = classified(seq![line]);
    assert(one.drop_last() =~= Seq::<LineView>::empty());
    assert(one.last() == classify(line));
    assert(fold_lines(before, one) == next_state(fold_lines(before, one.drop_last()), one.last()));
    assert(fold_lines(before, one.drop_last()) == before);
}

/// Lines that are comments or content for a block leave the commands, and
/// what is known of the sections, as they are.
pub proof fn lemma_content_adds_no_command(state: ParseStateView, block: Seq<Seq<char>>)
    requires
        forall|i: int|
            0 <= i < block.len() ==> classify(#[trigger] block[i]) is MultiCommandLine || classify(
                block[i],
            ) is Comment,
    ensures
        fold_lines(state, classified(block)).commands == state.commands,
        fold_lines(state, classified(block)).is_valid_os == state.is_valid_os,
        fold_lines(state, classified(block)).is_current_os == state.is_current_os,
        fold_lines(state, classified(block)).multi_command_entered == state.multi_command_entered,
    decreases block.len(),
{
    if block.len() > 0 {
        let front = block.drop_last();
        assert forall|i: int| 0 <= i < front.len() implies classify(
            #[trigger] front[i],
        ) is MultiCommandLine || classify(front[i]) is Comment by {
            assert(front[i] == block[i]);
        }
        lemma_content_adds_no_command(state, front);
        assert(classified(block).drop_last() =~= classified(front));
        assert(classified(block).last() == classify(block[block.len() - 1]));
    }
}

/// A block that is opened and never closed contributes no command and raises
/// no error: where no block is open after `lines`, a delimiter and content
/// lines after it, with no delimiter to close them, leave the result of
/// parsing `lines` as it is.
pub proof fn lemma_unterminated_block_is_dropped(
    lines: Seq<Seq<char>>,
    opener: Seq<char>,
    block: Seq<Seq<char>>,
    host_os: Seq<char>,
)
    requires
        !leaves_block_open(lines, host_os),
        classify(opener) is MultiCommandDelimiter,
        forall|i: int|
            0 <= i < block.len() ==> classify(#[trigger] block[i]) is MultiCommandLine || classify(
                block[i],
            ) is Comment,
    ensures
        parse_lines(lines + seq![opener] + block, host_os) == parse_lines(lines, host_os),
{
    let start = initial(host_os);
    let before = fold_lines(start, classified(lines));
    lemma_classified_concat(lines + seq![opener], block);
    lemma_classified_concat(lines, seq![opener]);
    lemma_fold_lines_concat(start, classified(lines + seq![opener]), classified(block));
    lemma_fold_lines_concat(start, classified(lines), classified(seq![opener]));
    let one = classified(seq![opener]);
    assert(one.drop_last() =~= Seq::<LineView>::empty());
    assert(one.last() == classify(opener));
    assert(fold_lines(before, one) == next_state(fold_lines(before, one.drop_last()), one.last()));
    assert(fold_lines(before, one.drop_last()) == before);
    lemma_content_adds_no_command(fold_lines(before, one), block);
}

impl ParseState {
    /// The state before the first line of a script for `host_os`.
    pub fn new(host_os: &str) -> (state: ParseState)
        ensures
            state@ == initial(host_os@),
    {
        let state = ParseState {
            host_os: host_os.to_owned(),
            is_valid_os: false,
            is_current_os: false,
            multi_command_entered: false,
            multi_command_buffer: Vec::new(),
            commands: Vec::new(),
        };
        assert(texts(state.commands@) =~= Seq::empty());
        assert(texts(state.multi_command_buffer@) =~= Seq::empty());
        state
    }

    /// Reads one line.
    pub fn step(&mut self, line: LineType)
        ensures
            final(self)@ == next_state(old(self)@, line@),
    {
        match line {
            LineType::Comment => {},
            LineType::OsDirective(name) => {
                let current = name == self.host_os;
                self.is_current_os = current;
                if current {
                    self.is_valid_os = true;
                }
            },
            LineType::MultiCommandDelimiter => {
                if self.is_current_os {
                    if self.multi_command_entered {
                        let command = join_lines(&self.multi_command_buffer);
                        assert(texts(self.commands@.push(command)) =~= texts(self.commands@).push(
                            command@,
                        ));
                        self.commands.push(command);
                    }
                    self.multi_command_buffer.clear();
                    self.multi_command_entered = !self.multi_command_entered;
                    assert(texts(self.multi_command_buffer@) =~= Seq::empty());
                }
            },
            LineType::SingleCommand(command) => {
                if self.is_current_os {
                    assert(texts(self.commands@.push(command)) =~= texts(self.commands@).push(
                        command@,
                    ));
                    self.commands.push(command);
                }
            },
            LineType::MultiCommandLine(text) => {
                if self.is_current_os && self.multi_command_entered {
                    assert(texts(self.multi_command_buffer@.push(text)) =~= texts(
                        self.multi_command_buffer@,
                    ).push(text@));
                    self.multi_command_buffer.push(text);
                }
            },
        }
    }

    /// Ends the parse: the commands, or the error if no section was for the
    /// host.
    pub fn finish(self) -> (result: Result<Vec<String>, ScriptError>)
        ensures
            resolved(result) == outcome(self@),
    {
        if self.is_valid_os {
            Ok(self.commands)
        } else {
            Err(ScriptError::NoMatchingOsSection)
        }
    }
}

} // verus!
