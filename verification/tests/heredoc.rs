use mysh2::parse::{Command, Input};
use mysh2::token::List;
use mysh2::{get_content, is_sentinel_line};

fn lines(raw: &[&str]) -> Vec<String> {
    raw.iter().map(|s| s.to_string()).collect()
}

#[test]
fn sentinel_line_is_terminator_plus_newline() {
    assert!(is_sentinel_line(&"EOF\n".to_string(), "EOF"));
    assert!(!is_sentinel_line(&"EOF".to_string(), "EOF"));
    assert!(!is_sentinel_line(&"XEOF\n".to_string(), "EOF"));
    assert!(!is_sentinel_line(&"EOF \n".to_string(), "EOF"));
}

#[test]
fn content_stops_at_sentinel() {
    let input = lines(&["hogehoge\n", "EOF\n"]);
    assert_eq!(get_content(&input, "EOF"), Some("hogehoge\n".to_string()));
}

#[test]
fn content_concatenates_lines_in_order() {
    let input = lines(&["first\n", "second\n", "third\n", "END\n", "after\n"]);
    assert_eq!(get_content(&input, "END"), Some("first\nsecond\nthird\n".to_string()));
}

#[test]
fn content_is_empty_when_sentinel_comes_first() {
    let input = lines(&["EOF\n", "ignored\n"]);
    assert_eq!(get_content(&input, "EOF"), Some("".to_string()));
}

#[test]
fn content_is_nothing_without_sentinel() {
    let input = lines(&["hogehoge\n", "EOF", "eof\n"]);
    assert_eq!(get_content(&input, "EOF"), None);
    let empty: Vec<String> = Vec::new();
    assert_eq!(get_content(&empty, "EOF"), None);
}

#[test]
fn heredoc_stage_feeds_collected_body() {
    let line = "sed s/hoge/fuga/ << EOF".to_string();
    let command = Command::new(List::new(&line)).expect("should parse");
    let plan = command.plan();
    assert_eq!(plan.len(), 1);
    let eof = match &plan[0].input {
        Input::HereDoc(eof) => eof.clone(),
        _ => panic!("expected a heredoc input"),
    };
    let body = lines(&["hogehoge\n", "EOF\n"]);
    assert_eq!(get_content(&body, &eof), Some("hogehoge\n".to_string()));
}
