//! A script: the commands that its text resolves to on one host.

use vstd::prelude::*;
use vstd::slice::slice_subrange;

use crate::error::ScriptError;
use crate::executor::{started, Execution};
use crate::line::{classified, classify, LineType};
use crate::parser::{
    fold_lines, has_section_for, initial, lemma_fails_iff_no_section_for_host, parse_source,
    resolved, ParseState,
};
use crate::text::{
    lines_of, split_lines, string_from_chars, texts, to_chars, to_lowercase, trim,
};

verus! {

/// The commands of a script, resolved for one operating system.
pub struct Script {
    /// Shell commands, in the order in which they are to run.
    pub commands: Vec<String>,
}

impl View for Script {
    type V = Seq<Seq<char>>;

    open spec fn view(&self) -> Seq<Seq<char>> {
        texts(self.commands@)
    }
}

/// Parsing is a function of the text and the host alone: two parses of one
/// text for one host give the same commands in the same order, or the same
/// error.
pub proof fn lemma_parse_is_deterministic(
    source: Seq<char>,
    host_os: Seq<char>,
    first: Result<Vec<String>, ScriptError>,
    second: Result<Vec<String>, ScriptError>,
)
    requires
        resolved(first) == parse_source(source, host_os),
        resolved(second) == parse_source(source, host_os),
    ensures
        resolved(first) == resolved(second),
{
}

impl Script {
    /// Parses `source` for the host `host_os`.
    pub fn new(source: &str, host_os: &str) -> (result: Result<Script, ScriptError>)
        ensures
            match result {
                Ok(script) => parse_source(source@, host_os@) == Ok::<Seq<Seq<char>>, ScriptError>(
                    script@,
                ),
                Err(error) => parse_source(source@, host_os@) == Err::<Seq<Seq<char>>, ScriptError>(
                    error,
                ),
            },
            result is Ok <==> has_section_for(lines_of(source@), host_os@),
    {
        match Script::parse_script(source, host_os) {
            Ok(commands) => Ok(Script { commands }),
            Err(error) => Err(error),
        }
    }

    /// Decides what kind of line `line` is.
    pub fn parse_line(line: &str) -> (kind: LineType)
        ensures
            kind@ == classify(line@),
    {
        let chars = to_chars(line);
        if chars.len() == 0 {
            return LineType::MultiCommandLine(line.to_owned());
        }
        let first: char = chars[0];
        let rest = slice_subrange(chars.as_slice(), 1, chars.len());
        assert(rest@ =~= line@.skip(1));
        if first == '#' {
            LineType::Comment
        } else if first == '@' {
            let name = string_from_chars(trim(rest));
            LineType::OsDirective(to_lowercase(name.as_str()))
        } else if first == '-' {
            if rest.len() > 0 && rest[0] == '-' {
                LineType::MultiCommandDelimiter
            } else {
                LineType::SingleCommand(string_from_chars(trim(rest)))
            }
        } else {
            LineType::MultiCommandLine(line.to_owned())
        }
    }

    /// Resolves the commands of `source` for the host `host_os`: reads the
    /// script line by line and fails if no section of it is for the host.
    pub fn parse_script(source: &str, host_os: &str) -> (result: Result<Vec<String>, ScriptError>)
        ensures
            resolved(result) == parse_source(source@, host_os@),
            result is Ok <==> has_section_for(lines_of(source@), host_os@),
    {
        proof {
            lemma_fails_iff_no_section_for_host(lines_of(source@), host_os@);
        }
        let lines = split_lines(source);
        let mut state = ParseState::new(host_os);
        let mut i: usize = 0;
        while i < lines.len()
            invariant
                i <= lines.len(),
                state@ == fold_lines(initial(host_os@), classified(texts(lines@)).take(i as int)),
            decreases lines.len() - i,
        {
            let kind = Script::parse_line(lines[i].as_str());
            proof {
                let kinds = classified(texts(lines@));
                assert(kinds.take(i + 1).drop_last() =~= kinds.take(i as int));
                assert(kinds.take(i + 1).last() == kind@);
            }
            state.step(kind);
            i += 1;
        }
        assert(classified(texts(lines@)).take(lines.len() as int) =~= classified(texts(lines@)));
        state.finish()
    }

    /// Begins a run of the commands, with none of them attempted yet.
    pub fn execute(&self) -> (run: Execution<'_>)
        ensures
            run@ == started(self@),
    {
        Execution::new(&self.commands)
    }
}

} // verus!
