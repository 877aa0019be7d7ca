use mysh2::parse::{Args, Command, Input, Output};
use mysh2::token::List;
use mysh2::{run, Status};

fn parse_line(line: &str) -> Option<Command> {
    let owned = line.to_string();
    let tokens = List::new(&owned);
    Command::new(tokens)
}

fn single_stage(line: &str) -> Args {
    match parse_line(line) {
        Some(Command::Normal(args)) => args,
        _ => panic!("expected a single-stage command"),
    }
}

#[test]
fn tokenize_splits_on_whitespace_runs() {
    let line = "  echo \t hoge \n".to_string();
    let list = List::new(&line);
    assert_eq!(list.tokens, vec!["echo".to_string(), "hoge".to_string()]);
}

#[test]
fn tokenize_gives_nonempty_tokens_without_whitespace() {
    let line = "  one \t two\r\n three ".to_string();
    let list = List::new(&line);
    assert_eq!(list.tokens.len(), 3);
    for token in &list.tokens {
        assert!(!token.is_empty());
        assert!(!token.contains(char::is_whitespace));
    }
}

#[test]
fn parse_plain_words_collects_all_arguments() {
    let args = single_stage("wc -l -w notes.txt");
    assert_eq!(args.cmd, "wc");
    assert_eq!(
        args.args,
        vec!["-l".to_string(), "-w".to_string(), "notes.txt".to_string()]
    );
    assert_eq!(args.input, Input::Stdin);
    assert_eq!(args.output, Output::Stdout);
}

#[test]
fn tokenize_empty_line_gives_no_tokens() {
    let line = "".to_string();
    let list = List::new(&line);
    assert_eq!(list.tokens.len(), 0);
}

#[test]
fn tokenize_whitespace_only_gives_no_tokens() {
    let line = " \t \r\n ".to_string();
    let list = List::new(&line);
    assert_eq!(list.tokens.len(), 0);
}

#[test]
fn run_empty_line_exits() {
    let line = "".to_string();
    let (status, cmd) = run(&line);
    assert_eq!(status, Status::Exit);
    assert!(cmd.is_none());
}

#[test]
fn run_whitespace_only_has_nothing_to_execute() {
    let line = "   \t  \n".to_string();
    let (status, cmd) = run(&line);
    assert_eq!(status, Status::Continue);
    assert!(cmd.is_none());
}

#[test]
fn run_unicode_whitespace_only_has_nothing_to_execute() {
    // no-break space, ideographic space, em space
    let line = "\u{00a0}\u{3000}\u{2003}".to_string();
    let (status, cmd) = run(&line);
    assert_eq!(status, Status::Continue);
    assert!(cmd.is_none());
}

#[test]
fn tokenize_splits_on_unicode_whitespace() {
    let line = "a\u{00a0}b\u{2028}c".to_string();
    let list = List::new(&line);
    assert_eq!(
        list.tokens,
        vec!["a".to_string(), "b".to_string(), "c".to_string()]
    );
}

#[test]
fn parse_simple_command() {
    let args = single_stage("echo hoge");
    assert_eq!(args.cmd, "echo");
    assert_eq!(args.args, vec!["hoge".to_string()]);
    assert_eq!(args.input, Input::Stdin);
    assert_eq!(args.output, Output::Stdout);
}

#[test]
fn parse_single_pipe() {
    let cmd = parse_line("echo hogehoge | sed s/hoge/fuga/").expect("should parse");
    match cmd {
        Command::Piped(first, rest) => {
            assert_eq!(first.cmd, "echo");
            assert_eq!(first.args, vec!["hogehoge".to_string()]);
            match *rest {
                Command::Normal(second) => {
                    assert_eq!(second.cmd, "sed");
                    assert_eq!(second.args, vec!["s/hoge/fuga/".to_string()]);
                }
                _ => panic!("expected the pipeline to end after the second stage"),
            }
        }
        _ => panic!("expected a two-stage pipeline"),
    }
}

#[test]
fn parse_two_pipes() {
    let cmd = parse_line("echo hogehoge | sed s/hoge/fuga/ | rev").expect("should parse");
    match cmd {
        Command::Piped(first, rest) => {
            assert_eq!(first.cmd, "echo");
            match *rest {
                Command::Piped(second, tail) => {
                    assert_eq!(second.cmd, "sed");
                    match *tail {
                        Command::Normal(third) => {
                            assert_eq!(third.cmd, "rev");
                            assert_eq!(third.args.len(), 0);
                        }
                        _ => panic!("expected three stages"),
                    }
                }
                _ => panic!("expected three stages"),
            }
        }
        _ => panic!("expected three stages"),
    }
}

#[test]
fn parse_overwrite_redirect() {
    let args = single_stage("echo hoge > out.txt");
    assert_eq!(args.cmd, "echo");
    assert_eq!(args.args, vec!["hoge".to_string()]);
    assert_eq!(args.output, Output::RedirectOW("out.txt".to_string()));
}

#[test]
fn parse_append_redirect() {
    let args = single_stage("echo fuga >> out.txt");
    assert_eq!(args.output, Output::RedirectAdd("out.txt".to_string()));
}

#[test]
fn parse_input_redirect() {
    let args = single_stage("sed s/hoge/fuga/ < in.txt");
    assert_eq!(args.input, Input::ReadFile("in.txt".to_string()));
    assert_eq!(args.output, Output::Stdout);
}

#[test]
fn parse_heredoc_redirect() {
    let args = single_stage("sed s/hoge/fuga/ << EOF");
    assert_eq!(args.input, Input::HereDoc("EOF".to_string()));
}

#[test]
fn parse_herestring_redirect() {
    let args = single_stage("cat <<< hoge");
    assert_eq!(args.input, Input::HereStr("hoge".to_string()));
}

#[test]
fn parse_argument_after_redirect() {
    let args = single_stage("cmd a < in.txt b");
    assert_eq!(args.cmd, "cmd");
    assert_eq!(args.args, vec!["a".to_string(), "b".to_string()]);
    assert_eq!(args.input, Input::ReadFile("in.txt".to_string()));
}

#[test]
fn parse_last_redirect_wins() {
    let args = single_stage("echo x > one.txt > two.txt");
    assert_eq!(args.output, Output::RedirectOW("two.txt".to_string()));
    let args = single_stage("cat < a.txt << END");
    assert_eq!(args.input, Input::HereDoc("END".to_string()));
}

#[test]
fn parse_trailing_output_redirect_is_noop() {
    let args = single_stage("echo hoge >");
    assert_eq!(args.output, Output::Stdout);
    let args = single_stage("echo hoge > out.txt >>");
    assert_eq!(args.output, Output::Stdout);
}

#[test]
fn parse_input_redirect_without_operand_fails() {
    assert!(parse_line("cat <").is_none());
    assert!(parse_line("cat << ").is_none());
    assert!(parse_line("cat <<<").is_none());
}

#[test]
fn parse_pipe_without_command_fails() {
    assert!(parse_line("echo hoge |").is_none());
    assert!(parse_line("a | b |").is_none());
}

#[test]
fn parse_empty_token_list_gives_nothing() {
    assert!(parse_line("").is_none());
    assert!(parse_line("   ").is_none());
}

#[test]
fn parse_twice_gives_identical_trees() {
    let line = "echo hogehoge | sed s/hoge/fuga/ > out.txt";
    let first = parse_line(line).expect("should parse");
    let second = parse_line(line).expect("should parse");
    assert_eq!(first, second);
}

#[test]
fn plan_wires_single_stage_unchanged() {
    let plan = parse_line("echo hoge > out.txt").expect("should parse").plan();
    assert_eq!(plan.len(), 1);
    assert_eq!(plan[0].cmd, "echo");
    assert_eq!(plan[0].input, Input::Stdin);
    assert_eq!(plan[0].output, Output::RedirectOW("out.txt".to_string()));
}

#[test]
fn plan_wires_three_stages_through_pipes() {
    let plan = parse_line("echo hogehoge | sed s/hoge/fuga/ | rev")
        .expect("should parse")
        .plan();
    assert_eq!(plan.len(), 3);
    assert_eq!(plan[0].cmd, "echo");
    assert_eq!(plan[0].input, Input::Stdin);
    assert_eq!(plan[0].output, Output::Pipe);
    assert_eq!(plan[1].cmd, "sed");
    assert_eq!(plan[1].input, Input::Pipe);
    assert_eq!(plan[1].output, Output::Pipe);
    assert_eq!(plan[2].cmd, "rev");
    assert_eq!(plan[2].input, Input::Pipe);
    assert_eq!(plan[2].output, Output::Stdout);
}

#[test]
fn plan_keeps_first_input_and_last_output() {
    let plan = parse_line("sort < in.txt | uniq > out.txt")
        .expect("should parse")
        .plan();
    assert_eq!(plan.len(), 2);
    assert_eq!(plan[0].input, Input::ReadFile("in.txt".to_string()));
    assert_eq!(plan[0].output, Output::Pipe);
    assert_eq!(plan[1].input, Input::Pipe);
    assert_eq!(plan[1].output, Output::RedirectOW("out.txt".to_string()));
}

#[test]
fn plan_ignores_redirect_on_internal_stage() {
    let plan = parse_line("echo x > mid.txt | rev").expect("should parse").plan();
    assert_eq!(plan.len(), 2);
    assert_eq!(plan[0].output, Output::Pipe);
    assert_eq!(plan[1].output, Output::Stdout);
}

#[test]
fn set_input_replaces_first_stage_source() {
    let mut cmd = parse_line("cat < in.txt | rev").expect("should parse");
    cmd.set_input(Input::HereStr("hoge".to_string()));
    match cmd {
        Command::Piped(first, _) => assert_eq!(first.input, Input::HereStr("hoge".to_string())),
        _ => panic!("expected a pipeline"),
    }
}

#[test]
fn set_output_replaces_first_stage_destination() {
    let mut cmd = parse_line("echo hoge").expect("should parse");
    cmd.set_output(Output::RedirectAdd("log.txt".to_string()));
    match cmd {
        Command::Normal(args) => {
            assert_eq!(args.output, Output::RedirectAdd("log.txt".to_string()))
        }
        _ => panic!("expected a single stage"),
    }
}

#[test]
fn set_output_child_replaces_last_stage_destination() {
    let mut cmd = parse_line("echo hoge | rev | sort").expect("should parse");
    cmd.set_output_child(Output::Pipe);
    let plan = cmd.plan();
    assert_eq!(plan[2].output, Output::Pipe);
    assert_eq!(plan[0].output, Output::Pipe);

    let mut single = parse_line("echo hoge > out.txt").expect("should parse");
    single.set_output_child(Output::Stdout);
    match single {
        Command::Normal(args) => assert_eq!(args.output, Output::Stdout),
        _ => panic!("expected a single stage"),
    }
}
