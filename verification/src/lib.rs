//! The core of a line-oriented command interpreter: an input line is split
//! into tokens, the tokens are parsed into a pipeline of stages joined by
//! pipes, each stage optionally redirected, and the pipeline is turned into
//! an execution plan that names, for every stage, the program, its arguments
//! and the wiring of its standard streams. Spawning the planned processes is
//! the caller's part.

pub mod parse;
pub mod token;

use vstd::prelude::*;

use crate::parse::{spec_parse, parsed_view, Command};
use crate::token::{is_space, tokens_of, lemma_all_space_no_tokens, List};

verus! {

/// What the caller of `run` should do next: read another line, or stop.
#[derive(Debug, Clone, Copy, PartialEq, Eq, Structural)]
pub enum Status {
    Continue,
    Exit,
}

/// Handle one input line. An empty line means the input is exhausted and asks
/// the caller to stop; any other line is tokenized and parsed, and the parsed
/// pipeline, if there is one, is handed back to be executed. A line that
/// parses to nothing (only whitespace, or a malformed redirect or pipe) hands
/// back no pipeline.
pub fn run(input: &String) -> (r: (Status, Option<Command>))
    ensures
        input@.len() == 0 ==> r.0 == Status::Exit && r.1 is None,
        input@.len() > 0 ==> r.0 == Status::Continue && parsed_view(r.1) == spec_parse(
            tokens_of(input@),
        ),
{
    if input.as_str().is_empty() {
        (Status::Exit, None)
    } else {
        let tokens = List::new(input);
        (Status::Continue, Command::new(tokens))
    }
}

/// A line of only whitespace has no tokens, so it parses to no command:
/// there is nothing to execute.
pub proof fn lemma_whitespace_yields_nothing(line: Seq<char>)
    requires
        forall|k: int| 0 <= k < line.len() ==> is_space(#[trigger] line[k]),
    ensures
        spec_parse(tokens_of(line)) is None,
{
    lemma_all_space_no_tokens(line);
}

/// The line that ends a heredoc: the terminator word followed by a newline.
pub open spec fn sentinel_line(eof: Seq<char>) -> Seq<char> {
    eof.push('\n')
}

/// The heredoc body found in `lines` from position `i` on: the concatenation,
/// in order, of the lines before the first sentinel line; nothing when no
/// sentinel line follows.
pub open spec fn content_from(lines: Seq<Seq<char>>, eof: Seq<char>, i: int) -> Option<Seq<char>>
    decreases lines.len() - i,
{
    if i < 0 || i >= lines.len() {
        None
    } else if lines[i] == sentinel_line(eof) {
        Some(Seq::empty())
    } else {
        match content_from(lines, eof, i + 1) {
            Some(c) => Some(lines[i] + c),
            None => None,
        }
    }
}

/// The heredoc body of a whole sequence of lines.
pub open spec fn heredoc_content(lines: Seq<Seq<char>>, eof: Seq<char>) -> Option<Seq<char>> {
    content_from(lines, eof, 0)
}

/// A heredoc body exists exactly when one of the lines is the sentinel line.
pub proof fn lemma_heredoc_content_some(lines: Seq<Seq<char>>, eof: Seq<char>)
    ensures
        heredoc_content(lines, eof) is Some <==> exists|k: int|
            0 <= k < lines.len() && lines[k] == sentinel_line(eof),
{
    lemma_content_from_some(lines, eof, 0);
}

proof fn lemma_content_from_some(lines: Seq<Seq<char>>, eof: Seq<char>, i: int)
    requires
        0 <= i,
    ensures
        content_from(lines, eof, i) is Some <==> exists|k: int|
            i <= k < lines.len() && lines[k] == sentinel_line(eof),
    decreases lines.len() - i,
{
    if i < lines.len() && lines[i] != sentinel_line(eof) {
        lemma_content_from_some(lines, eof, i + 1);
    }
}

/// Whether `line` is exactly the heredoc sentinel for the terminator `eof`.
pub fn is_sentinel_line(line: &String, eof: &str) -> (r: bool)
    ensures
        r == (line@ == sentinel_line(eof@)),
{
    let mut s = String::from_str(eof);
    s.append("\n");
    proof {
        reveal_strlit("\n");
        assert(s@ =~= sentinel_line(eof@));
    }
    *line == s
}

/// The heredoc body in `lines`: the concatenation, in order, of the lines
/// before the first one that is exactly the terminator `eof` followed by a
/// newline; nothing when no such line is present.
pub fn get_content(lines: &Vec<String>, eof: &str) -> (r: Option<String>)
    ensures
        match r {
            Some(s) => heredoc_content(lines.deep_view(), eof@) == Some(s@),
            None => heredoc_content(lines.deep_view(), eof@) is None,
        },
{
    let ghost lv = lines.deep_view();
    let mut acc = String::new();
    proof {
        if content_from(lv, eof@, 0) is Some {
            assert(acc@ + content_from(lv, eof@, 0)->Some_0 =~= content_from(
                lv,
                eof@,
                0,
            )->Some_0);
        }
    }
    let mut i: usize = 0;
    loop
        invariant
            lv == lines.deep_view(),
            lv.len() == lines@.len(),
            i <= lv.len(),
            content_from(lv, eof@, 0) == match content_from(lv, eof@, i as int) {
                Some(c) => Some(acc@ + c),
                None => None::<Seq<char>>,
            },
        decreases lv.len() - i,
    {
        if i >= lines.len() {
            return None;
        }
        proof {
            assert(lines@[i as int]@ == lv[i as int]);
        }
        if is_sentinel_line(&lines[i], eof) {
            proof {
                assert(acc@ + Seq::<char>::empty() =~= acc@);
            }
            return Some(acc);
        }
        let ghost acc_before = acc@;
        acc.append(lines[i].as_str());
        proof {
            if content_from(lv, eof@, i as int + 1) is Some {
                let c = content_from(lv, eof@, i as int + 1)->Some_0;
                assert(acc_before + (lv[i as int] + c) =~= (acc_before + lv[i as int]) + c);
            }
        }
        i = i + 1;
    }
}

} // verus!
