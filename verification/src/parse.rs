use vstd::prelude::*;

use crate::token::List;

verus! {

/// Where a pipeline stage reads its standard input: the inherited stream, a
/// file, a heredoc body terminated by a sentinel, a literal herestring, or a
/// pipe from the previous stage (the pipe itself is wired at execution time).
#[derive(Debug, PartialEq, Eq)]
pub enum Input {
    ReadFile(String),
    HereDoc(String),
    HereStr(String),
    Pipe,
    Stdin,
}

/// Where a pipeline stage sends its standard output: the inherited stream, a
/// file truncated first, a file appended to, or a pipe to the next stage.
#[derive(Debug, PartialEq, Eq)]
pub enum Output {
    RedirectOW(String),
    RedirectAdd(String),
    Pipe,
    Stdout,
}

/// One pipeline stage: a program name, its arguments in order, and the
/// stage's input source and output destination.
#[derive(Debug, PartialEq, Eq)]
pub struct Args {
    pub cmd: String,
    pub args: Vec<String>,
    pub input: Input,
    pub output: Output,
}

/// A parsed command line: a right-leaning chain of stages joined by pipes.
#[derive(Debug, PartialEq, Eq)]
pub enum Command {
    Normal(Args),
    Piped(Args, Box<Command>),
}

/// The mathematical value of an `Input`.
pub enum InputSpec {
    ReadFile(Seq<char>),
    HereDoc(Seq<char>),
    HereStr(Seq<char>),
    Pipe,
    Stdin,
}

/// The mathematical value of an `Output`.
pub enum OutputSpec {
    RedirectOW(Seq<char>),
    RedirectAdd(Seq<char>),
    Pipe,
    Stdout,
}

/// The mathematical value of a stage.
pub struct ArgsSpec {
    pub cmd: Seq<char>,
    pub args: Seq<Seq<char>>,
    pub input: InputSpec,
    pub output: OutputSpec,
}

/// The mathematical value of a command chain.
pub enum CommandSpec {
    Normal(ArgsSpec),
    Piped(ArgsSpec, Box<CommandSpec>),
}

impl View for Input {
    type V = InputSpec;

    open spec fn view(&self) -> InputSpec {
        match self {
            Input::ReadFile(p) => InputSpec::ReadFile(p@),
            Input::HereDoc(e) => InputSpec::HereDoc(e@),
            Input::HereStr(l) => InputSpec::HereStr(l@),
            Input::Pipe => InputSpec::Pipe,
            Input::Stdin => InputSpec::Stdin,
        }
    }
}

impl View for Output {
    type V = OutputSpec;

    open spec fn view(&self) -> OutputSpec {
        match self {
            Output::RedirectOW(p) => OutputSpec::RedirectOW(p@),
            Output::RedirectAdd(p) => OutputSpec::RedirectAdd(p@),
            Output::Pipe => OutputSpec::Pipe,
            Output::Stdout => OutputSpec::Stdout,
        }
    }
}

impl View for Args {
    type V = ArgsSpec;

    open spec fn view(&self) -> ArgsSpec {
        ArgsSpec {
            cmd: self.cmd@,
            args: self.args.deep_view(),
            input: self.input@,
            output: self.output@,
        }
    }
}

impl DeepView for Args {
    type V = ArgsSpec;

    open spec fn deep_view(&self) -> ArgsSpec {
        self@
    }
}

impl View for Command {
    type V = CommandSpec;

    open spec fn view(&self) -> CommandSpec
        decreases self,
    {
        match self {
            Command::Normal(a) => CommandSpec::Normal(a@),
            Command::Piped(a, rest) => CommandSpec::Piped(a@, Box::new((**rest)@)),
        }
    }
}

/// The view of a parse result.
pub open spec fn parsed_view(r: Option<Command>) -> Option<CommandSpec> {
    match r {
        Some(c) => Some(c@),
        None => None,
    }
}

/// A fresh stage: program name `cmd`, no arguments yet, the inherited
/// streams.
pub open spec fn init_stage(cmd: Seq<char>) -> ArgsSpec {
    ArgsSpec { cmd: cmd, args: Seq::empty(), input: InputSpec::Stdin, output: OutputSpec::Stdout }
}

/// Parse the tokens from position `i` on as a full pipeline: the token at `i`
/// is the program name of the first stage; nothing at `i` means no command.
pub open spec fn parse_from(toks: Seq<Seq<char>>, i: int) -> Option<CommandSpec>
    decreases toks.len() - i, 1int,
{
    if i < 0 || i >= toks.len() {
        None
    } else {
        parse_stage(toks, i + 1, init_stage(toks[i]))
    }
}

/// Parse the tokens from position `i` on as the remainder of the stage `acc`:
/// a plain word joins the argument list; `<`, `<<` and `<<<` take the next
/// token as their operand and fail without one; `>` and `>>` take the next
/// token as their operand, and with nothing following are a harmless no-op
/// that leaves the output as the inherited stream; `|` ends the stage and
/// parses the rest as the next pipeline, failing when no command follows.
/// Repeated redirects of one kind keep only the last.
pub open spec fn parse_stage(toks: Seq<Seq<char>>, i: int, acc: ArgsSpec) -> Option<CommandSpec>
    decreases toks.len() - i, 0int,
{
    if i < 0 {
        None
    } else if i >= toks.len() {
        Some(CommandSpec::Normal(acc))
    } else if toks[i] == "|"@ {
        match parse_from(toks, i + 1) {
            Some(rest) => Some(CommandSpec::Piped(acc, Box::new(rest))),
            None => None,
        }
    } else if toks[i] == "<"@ {
        if i + 1 < toks.len() {
            parse_stage(toks, i + 2, ArgsSpec { input: InputSpec::ReadFile(toks[i + 1]), ..acc })
        } else {
            None
        }
    } else if toks[i] == "<<"@ {
        if i + 1 < toks.len() {
            parse_stage(toks, i + 2, ArgsSpec { input: InputSpec::HereDoc(toks[i + 1]), ..acc })
        } else {
            None
        }
    } else if toks[i] == "<<<"@ {
        if i + 1 < toks.len() {
            parse_stage(toks, i + 2, ArgsSpec { input: InputSpec::HereStr(toks[i + 1]), ..acc })
        } else {
            None
        }
    } else if toks[i] == ">"@ {
        if i + 1 < toks.len() {
            parse_stage(toks, i + 2, ArgsSpec { output: OutputSpec::RedirectOW(toks[i + 1]), ..acc })
        } else {
            Some(CommandSpec::Normal(ArgsSpec { output: OutputSpec::Stdout, ..acc }))
        }
    } else if toks[i] == ">>"@ {
        if i + 1 < toks.len() {
            parse_stage(toks, i + 2, ArgsSpec { output: OutputSpec::RedirectAdd(toks[i + 1]), ..acc })
        } else {
            Some(CommandSpec::Normal(ArgsSpec { output: OutputSpec::Stdout, ..acc }))
        }
    } else {
        parse_stage(toks, i + 1, ArgsSpec { args: acc.args.push(toks[i]), ..acc })
    }
}

/// What a whole token sequence parses to.
pub open spec fn spec_parse(toks: Seq<Seq<char>>) -> Option<CommandSpec> {
    parse_from(toks, 0)
}

/// Parsing is a pure function of the token sequence: the same tokens always
/// parse to structurally identical trees.
pub proof fn lemma_parse_deterministic(t1: Seq<Seq<char>>, t2: Seq<Seq<char>>)
    requires
        t1 == t2,
    ensures
        spec_parse(t1) == spec_parse(t2),
{
}

/// Whether a token is one of the recognized operator words.
pub open spec fn is_operator(t: Seq<char>) -> bool {
    t == "|"@ || t == "<"@ || t == "<<"@ || t == "<<<"@ || t == ">"@ || t == ">>"@
}

proof fn lemma_plain_words_stage(toks: Seq<Seq<char>>, i: int, acc: ArgsSpec)
    requires
        1 <= i <= toks.len(),
        forall|k: int| 0 <= k < toks.len() ==> !is_operator(#[trigger] toks[k]),
    ensures
        parse_stage(toks, i, acc) == Some(
            CommandSpec::Normal(
                ArgsSpec { args: acc.args + toks.subrange(i, toks.len() as int), ..acc },
            ),
        ),
    decreases toks.len() - i,
{
    if i >= toks.len() {
        assert(acc.args + toks.subrange(i, toks.len() as int) =~= acc.args);
    } else {
        let pushed = ArgsSpec { args: acc.args.push(toks[i]), ..acc };
        lemma_plain_words_stage(toks, i + 1, pushed);
        assert(pushed.args + toks.subrange(i + 1, toks.len() as int) =~= acc.args + toks.subrange(
            i,
            toks.len() as int,
        ));
    }
}

/// A non-empty sequence of plain words (no operators) parses to a single
/// stage that runs the first word as the program with the remaining words as
/// its arguments, on the inherited streams, and its execution plan is exactly
/// that one stage: the program is spawned with those arguments and nothing
/// else is wired in.
pub proof fn lemma_plain_words_single_stage(toks: Seq<Seq<char>>)
    requires
        toks.len() > 0,
        forall|k: int| 0 <= k < toks.len() ==> !is_operator(#[trigger] toks[k]),
    ensures
        spec_parse(toks) == Some(
            CommandSpec::Normal(
                ArgsSpec {
                    cmd: toks[0],
                    args: toks.subrange(1, toks.len() as int),
                    input: InputSpec::Stdin,
                    output: OutputSpec::Stdout,
                },
            ),
        ),
        spec_plan(spec_parse(toks)->Some_0) == seq![
            ArgsSpec {
                cmd: toks[0],
                args: toks.subrange(1, toks.len() as int),
                input: InputSpec::Stdin,
                output: OutputSpec::Stdout,
            },
        ],
{
    lemma_plain_words_stage(toks, 1, init_stage(toks[0]));
    assert(Seq::<Seq<char>>::empty() + toks.subrange(1, toks.len() as int) =~= toks.subrange(
        1,
        toks.len() as int,
    ));
}

/// `c` with the input source of its first stage replaced.
pub open spec fn with_input(c: CommandSpec, src: InputSpec) -> CommandSpec {
    match c {
        CommandSpec::Normal(a) => CommandSpec::Normal(ArgsSpec { input: src, ..a }),
        CommandSpec::Piped(a, rest) => CommandSpec::Piped(ArgsSpec { input: src, ..a }, rest),
    }
}

/// `c` with the output destination of its first stage replaced.
pub open spec fn with_output(c: CommandSpec, dst: OutputSpec) -> CommandSpec {
    match c {
        CommandSpec::Normal(a) => CommandSpec::Normal(ArgsSpec { output: dst, ..a }),
        CommandSpec::Piped(a, rest) => CommandSpec::Piped(ArgsSpec { output: dst, ..a }, rest),
    }
}

/// `c` with the output destination of its last stage replaced.
pub open spec fn with_output_last(c: CommandSpec, dst: OutputSpec) -> CommandSpec
    decreases c,
{
    match c {
        CommandSpec::Normal(a) => CommandSpec::Normal(ArgsSpec { output: dst, ..a }),
        CommandSpec::Piped(a, rest) => CommandSpec::Piped(
            a,
            Box::new(with_output_last(*rest, dst)),
        ),
    }
}

/// How many stages a chain has.
pub open spec fn stage_count(c: CommandSpec) -> nat
    decreases c,
{
    match c {
        CommandSpec::Normal(_) => 1,
        CommandSpec::Piped(_, rest) => 1 + stage_count(*rest),
    }
}

/// The stages of a chain, first to last, exactly as the parser set them.
pub open spec fn stages_of(c: CommandSpec) -> Seq<ArgsSpec>
    decreases c,
{
    match c {
        CommandSpec::Normal(a) => seq![a],
        CommandSpec::Piped(a, rest) => seq![a] + stages_of(*rest),
    }
}

/// The execution plan of a chain: its stages in order, with every stage but
/// the last sending its output to a pipe and every stage but the first
/// reading its input from the previous stage's pipe.
pub open spec fn spec_plan(c: CommandSpec) -> Seq<ArgsSpec>
    decreases c,
{
    match c {
        CommandSpec::Normal(a) => seq![a],
        CommandSpec::Piped(a, rest) => {
            let tail = spec_plan(*rest);
            seq![ArgsSpec { output: OutputSpec::Pipe, ..a }] + seq![
                ArgsSpec { input: InputSpec::Pipe, ..tail[0] },
            ] + tail.drop_first()
        },
    }
}

/// A pipeline of N stages is planned as N processes joined by N-1 pipe
/// edges: each stage but the last sends its output to a pipe, each stage but
/// the first takes its input from the previous stage's pipe, and every
/// stage's program, arguments, the first stage's input source and the last
/// stage's output destination are exactly the parsed ones.
pub proof fn lemma_plan_wiring(c: CommandSpec)
    ensures
        spec_plan(c).len() == stage_count(c),
        stages_of(c).len() == stage_count(c),
        stage_count(c) >= 1,
        forall|i: int|
            0 <= i < spec_plan(c).len() - 1 ==> (#[trigger] spec_plan(c)[i]).output
                == OutputSpec::Pipe,
        forall|i: int|
            1 <= i < spec_plan(c).len() ==> (#[trigger] spec_plan(c)[i]).input == InputSpec::Pipe,
        forall|i: int|
            0 <= i < spec_plan(c).len() ==> (#[trigger] spec_plan(c)[i]).cmd == stages_of(c)[i].cmd
                && spec_plan(c)[i].args == stages_of(c)[i].args,
        spec_plan(c)[0].input == stages_of(c)[0].input,
        spec_plan(c).last().output == stages_of(c).last().output,
    decreases c,
{
    match c {
        CommandSpec::Normal(_) => {
        },
        CommandSpec::Piped(a, rest) => {
            lemma_plan_wiring(*rest);
            let tail = spec_plan(*rest);
            let plan = spec_plan(c);
            assert forall|i: int| 1 <= i < plan.len() implies (#[trigger] plan[i]).cmd
                == stages_of(c)[i].cmd && plan[i].args == stages_of(c)[i].args && plan[i].input
                == InputSpec::Pipe by {
                assert(stages_of(c)[i] == stages_of(*rest)[i - 1]);
                if i == 1 {
                    assert(plan[i] == ArgsSpec { input: InputSpec::Pipe, ..tail[0] });
                } else {
                    assert(plan[i] == tail[i - 1]);
                }
            }
            assert(plan.last() == if tail.len() == 1 {
                ArgsSpec { input: InputSpec::Pipe, ..tail[0] }
            } else {
                tail.last()
            });
            assert(stages_of(c).last() == stages_of(*rest).last());
            assert forall|i: int| 0 <= i < plan.len() - 1 implies (#[trigger] plan[i]).output
                == OutputSpec::Pipe by {
                if i >= 1 {
                    if i == 1 {
                        assert(plan[i] == ArgsSpec { input: InputSpec::Pipe, ..tail[0] });
                        assert(tail[0].output == OutputSpec::Pipe);
                    } else {
                        assert(plan[i] == tail[i - 1]);
                    }
                }
            }
        },
    }
}

/// Whether token `t` is exactly the operator word `op`.
fn token_is(t: &String, op: &str) -> (r: bool)
    ensures
        r == (t@ == op@),
{
    let o = String::from_str(op);
    *t == o
}

impl Command {
    /// Build the command chain that a token list describes, or nothing when
    /// the list is empty or a redirect or pipe lacks its operand.
    pub fn new(list: List) -> (r: Option<Command>)
        ensures
            parsed_view(r) == spec_parse(list@),
    {
        Command::parse_at(&list.tokens, 0)
    }

    fn parse_at(toks: &Vec<String>, start: usize) -> (r: Option<Command>)
        ensures
            parsed_view(r) == parse_from(toks.deep_view(), start as int),
        decreases toks@.len() - start,
    {
        proof {
            reveal_strlit("|");
            reveal_strlit("<");
            reveal_strlit("<<");
            reveal_strlit("<<<");
            reveal_strlit(">");
            reveal_strlit(">>");
        }
        let ghost tv = toks.deep_view();
        if start >= toks.len() {
            return None;
        }
        let cmd: String = toks[start].clone();
        let mut args: Vec<String> = Vec::new();
        let mut input = Input::Stdin;
        let mut output = Output::Stdout;
        proof {
            assert(args.deep_view() =~= Seq::<Seq<char>>::empty());
            assert(cmd@ == tv[start as int]);
        }
        let mut i: usize = start + 1;
        loop
            invariant
                tv == toks.deep_view(),
                start < tv.len(),
                tv.len() == toks@.len(),
                start + 1 <= i <= tv.len(),
                parse_stage(
                    tv,
                    i as int,
                    (ArgsSpec { cmd: cmd@, args: args.deep_view(), input: input@, output: output@ }),
                ) == parse_from(tv, start as int),
            decreases tv.len() - i,
        {
            proof {
                reveal_strlit("|");
                reveal_strlit("<");
                reveal_strlit("<<");
                reveal_strlit("<<<");
                reveal_strlit(">");
                reveal_strlit(">>");
            }
            if i >= toks.len() {
                return Some(Command::Normal(Args { cmd, args, input, output }));
            }
            proof {
                assert(toks@[i as int]@ == tv[i as int]);
            }
            let ghost before = args.deep_view();
            if token_is(&toks[i], "|") {
                match Command::parse_at(toks, i + 1) {
                    Some(rest) => {
                        return Some(
                            Command::Piped(Args { cmd, args, input, output }, Box::new(rest)),
                        );
                    },
                    None => {
                        return None;
                    },
                }
            } else if token_is(&toks[i], "<") {
                if i + 1 < toks.len() {
                    proof {
                        assert(toks@[i as int + 1]@ == tv[i as int + 1]);
                    }
                    input = Input::ReadFile(toks[i + 1].clone());
                    i = i + 2;
                } else {
                    return None;
                }
            } else if token_is(&toks[i], "<<") {
                if i + 1 < toks.len() {
                    proof {
                        assert(toks@[i as int + 1]@ == tv[i as int + 1]);
                    }
                    input = Input::HereDoc(toks[i + 1].clone());
                    i = i + 2;
                } else {
                    return None;
                }
            } else if token_is(&toks[i], "<<<") {
                if i + 1 < toks.len() {
                    proof {
                        assert(toks@[i as int + 1]@ == tv[i as int + 1]);
                    }
                    input = Input::HereStr(toks[i + 1].clone());
                    i = i + 2;
                } else {
                    return None;
                }
            } else if token_is(&toks[i], ">") {
                if i + 1 < toks.len() {
                    proof {
                        assert(toks@[i as int + 1]@ == tv[i as int + 1]);
                    }
                    output = Output::RedirectOW(toks[i + 1].clone());
                    i = i + 2;
                } else {
                    return Some(
                        Command::Normal(Args { cmd, args, input, output: Output::Stdout }),
                    );
                }
            } else if token_is(&toks[i], ">>") {
                if i + 1 < toks.len() {
                    proof {
                        assert(toks@[i as int + 1]@ == tv[i as int + 1]);
                    }
                    output = Output::RedirectAdd(toks[i + 1].clone());
                    i = i + 2;
                } else {
                    return Some(
                        Command::Normal(Args { cmd, args, input, output: Output::Stdout }),
                    );
                }
            } else {
                args.push(toks[i].clone());
                proof {
                    assert(args.deep_view() =~= before.push(tv[i as int]));
                }
                i = i + 1;
            }
        }
    }

    /// Replace the input source of the first stage.
    pub fn set_input(&mut self, src: Input)
        ensures
            final(self)@ == with_input(old(self)@, src@),
    {
        match self {
            Command::Normal(a) => a.set_input(src),
            Command::Piped(a, _) => a.set_input(src),
        }
    }

    /// Replace the output destination of the first stage.
    pub fn set_output(&mut self, dst: Output)
        ensures
            final(self)@ == with_output(old(self)@, dst@),
    {
        match self {
            Command::Normal(a) => a.set_output(dst),
            Command::Piped(a, _) => a.set_output(dst),
        }
    }

    /// Replace the output destination of the last stage.
    pub fn set_output_child(&mut self, dst: Output)
        ensures
            final(self)@ == with_output_last(old(self)@, dst@),
        decreases *old(self),
    {
        match self {
            Command::Normal(a) => a.set_output(dst),
            Command::Piped(_, rest) => rest.set_output_child(dst),
        }
    }

    /// The execution plan of the chain: its stages first to last, each but
    /// the last with its output forced to a pipe, each but the first with its
    /// input taken from the previous stage's pipe. A redirect the parser set
    /// on a non-final stage's output is not honored: between stages, pipe
    /// wiring always wins.
    pub fn plan(self) -> (r: Vec<Args>)
        ensures
            r.deep_view() == spec_plan(self@),
            r@.len() >= 1,
        decreases self,
    {
        let ghost cv = self@;
        match self {
            Command::Normal(a) => {
                let ghost av = a@;
                let mut v: Vec<Args> = Vec::new();
                v.push(a);
                proof {
                    assert(v.deep_view() =~= seq![av]);
                }
                v
            },
            Command::Piped(a, rest) => {
                let ghost av = a@;
                let mut head = a;
                head.set_output(Output::Pipe);
                let mut tail = (*rest).plan();
                let ghost tailv = tail.deep_view();
                let mut second = tail.remove(0);
                second.set_input(Input::Pipe);
                let ghost secondv = second@;
                tail.insert(0, second);
                let mut v: Vec<Args> = Vec::new();
                v.push(head);
                v.append(&mut tail);
                proof {
                    assert(secondv == (ArgsSpec { input: InputSpec::Pipe, ..tailv[0] }));
                    assert(v.deep_view() =~= seq![(ArgsSpec { output: OutputSpec::Pipe, ..av })]
                        + seq![secondv] + tailv.drop_first());
                    assert(spec_plan(cv) == seq![(ArgsSpec { output: OutputSpec::Pipe, ..av })]
                        + seq![(ArgsSpec { input: InputSpec::Pipe, ..tailv[0] })]
                        + tailv.drop_first());
                }
                v
            },
        }
    }
}

impl Args {
    fn set_input(&mut self, src: Input)
        ensures
            final(self)@ == (ArgsSpec { input: src@, ..old(self)@ }),
    {
        self.input = src;
    }

    fn set_output(&mut self, dst: Output)
        ensures
            final(self)@ == (ArgsSpec { output: dst@, ..old(self)@ }),
    {
        self.output = dst;
    }
}

} // verus!
