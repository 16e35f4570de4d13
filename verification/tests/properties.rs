//! Concrete checks of the library's stated behavior: the file format's
//! round trips, index-based removal, the joined task text, and the exact
//! messages and effects of each command path.

use rust_todo::{
    apply_effect, execute_command, join_words, parse_content, parse_index, remove_at,
    render_task_line, render_tasks, str_eq, usize_to_string, FileEffect, StoreError,
};

fn run_command(args: &[&str], content: &str) -> (String, Vec<String>) {
    let args: Vec<String> = args.iter().map(|a| a.to_string()).collect();
    let tasks = parse_content(content);
    let outcome = execute_command(&args, &tasks);
    (apply_effect(content, &outcome.effect), outcome.output)
}

fn strings(words: &[&str]) -> Vec<String> {
    words.iter().map(|w| w.to_string()).collect()
}

#[test]
fn load_of_absent_file_is_empty() {
    // A file that does not exist reads as empty content, and empty
    // content holds no tasks.
    let tasks = parse_content("");
    assert!(tasks.is_empty());
}

#[test]
fn adds_then_list_shows_all_in_order() {
    let content = String::new();
    let (content, _) = run_command(&["rust-todo", "add", "alpha"], &content);
    let (content, _) = run_command(&["rust-todo", "add", "beta"], &content);
    let (content, _) = run_command(&["rust-todo", "add", "gamma"], &content);

    let (after, output) = run_command(&["rust-todo", "list"], &content);
    assert_eq!(
        output,
        strings(&["Tasks:", "1: alpha", "2: beta", "3: gamma"])
    );
    // `list` leaves the file as it is.
    assert_eq!(after, content);
}

#[test]
fn add_joins_words_with_spaces() {
    let content = String::new();
    let (content, output) = run_command(&["rust-todo", "add", "a", "b", "c"], &content);
    assert_eq!(output, vec!["Task added: a b c".to_string()]);
    assert_eq!(parse_content(&content), strings(&["a b c"]));
    assert_eq!(content, "a b c\n");
}

#[test]
fn join_words_from_position() {
    let words = strings(&["rust-todo", "add", "buy", "more", "milk"]);
    assert_eq!(join_words(&words, 2), "buy more milk");
    assert_eq!(join_words(&words, 4), "milk");
    assert_eq!(join_words(&words, 5), "");
}

#[test]
fn remove_at_keeps_relative_order() {
    let mut tasks = strings(&["t1", "t2", "t3", "t4"]);
    let removed = remove_at(&mut tasks, 2);
    assert_eq!(removed, Ok("t2".to_string()));
    assert_eq!(tasks, strings(&["t1", "t3", "t4"]));
    // The rewritten file holds exactly the remaining tasks.
    let content = render_tasks(&tasks);
    assert_eq!(content, "t1\nt3\nt4\n");
    assert_eq!(parse_content(&content), tasks);
}

#[test]
fn remove_at_rejects_zero_and_past_end() {
    let before = strings(&["t1", "t2", "t3", "t4"]);

    let mut tasks = before.clone();
    assert_eq!(remove_at(&mut tasks, 0), Err(StoreError::InvalidIndex));
    assert_eq!(tasks, before);

    let mut tasks = before.clone();
    assert_eq!(remove_at(&mut tasks, 5), Err(StoreError::InvalidIndex));
    assert_eq!(tasks, before);
}

#[test]
fn remove_command_with_bad_index_changes_nothing() {
    let content = String::new();
    let (content, _) = run_command(&["rust-todo", "add", "only"], &content);

    for bad in ["0", "2", "abc", "", "+1", "-1"] {
        let (after, output) = run_command(&["rust-todo", "remove", bad], &content);
        assert_eq!(output, vec!["Invalid task number.".to_string()]);
        assert_eq!(after, content);
    }
}

#[test]
fn rewrite_of_unmodified_load_is_byte_identical() {
    for content in ["", "one\n", "one\ntwo\n", "中身\n\nlast\n"] {
        let tasks = parse_content(content);
        assert_eq!(render_tasks(&tasks), content);
    }
}

#[test]
fn empty_file_add_three_remove_second() {
    let content = String::new();
    let (content, _) = run_command(&["rust-todo", "add", "test1"], &content);
    let (content, _) = run_command(&["rust-todo", "add", "test2"], &content);
    let (content, _) = run_command(&["rust-todo", "add", "test3"], &content);
    let (content, _) = run_command(&["rust-todo", "remove", "2"], &content);

    assert_eq!(parse_content(&content), strings(&["test1", "test3"]));
    assert_eq!(content, "test1\ntest3\n");
}

#[test]
fn parse_content_splits_at_newlines() {
    assert_eq!(parse_content("a"), strings(&["a"]));
    assert_eq!(parse_content("a\n"), strings(&["a"]));
    assert_eq!(parse_content("\n"), strings(&[""]));
    assert_eq!(parse_content("a\n\nb"), strings(&["a", "", "b"]));
}

#[test]
fn render_task_line_closes_with_newline() {
    assert_eq!(render_task_line("x"), "x\n");
    assert_eq!(render_task_line(""), "\n");
}

#[test]
fn parse_index_accepts_only_digit_strings() {
    assert_eq!(parse_index("42"), Some(42));
    assert_eq!(parse_index("0"), Some(0));
    assert_eq!(parse_index("007"), Some(7));
    assert_eq!(parse_index(""), None);
    assert_eq!(parse_index("abc"), None);
    assert_eq!(parse_index("+2"), None);
    assert_eq!(parse_index("-2"), None);
    assert_eq!(parse_index("1 "), None);
    assert_eq!(parse_index("99999999999999999999999999"), None);
}

#[test]
fn usize_to_string_exact() {
    assert_eq!(usize_to_string(0), "0");
    assert_eq!(usize_to_string(7), "7");
    assert_eq!(usize_to_string(10), "10");
    assert_eq!(usize_to_string(905), "905");
    assert_eq!(usize_to_string(usize::MAX), usize::MAX.to_string());
}

#[test]
fn str_eq_compares_characters() {
    assert!(str_eq("", ""));
    assert!(str_eq("добро", "добро"));
    assert!(!str_eq("a", "b"));
    assert!(!str_eq("a", "ab"));
}

#[test]
fn usage_and_unknown_command_keep_the_file() {
    let content = "keep\n".to_string();

    let (after, output) = run_command(&["rust-todo"], &content);
    assert_eq!(output, vec!["Usage: rust-todo <command> [options]".to_string()]);
    assert_eq!(after, content);

    let (after, output) = run_command(&["rust-todo", "frobnicate"], &content);
    assert_eq!(
        output,
        vec!["Invalid command. Use 'add', 'list', or 'remove'.".to_string()]
    );
    assert_eq!(after, content);

    let (after, output) = run_command(&["rust-todo", "add"], &content);
    assert_eq!(output, vec!["Usage: rust-todo add <task>".to_string()]);
    assert_eq!(after, content);

    let (after, output) = run_command(&["rust-todo", "remove"], &content);
    assert_eq!(output, vec!["Usage: rust-todo remove <task_number>".to_string()]);
    assert_eq!(after, content);
}

#[test]
fn remove_effect_is_a_rewrite() {
    let args = strings(&["rust-todo", "remove", "1"]);
    let tasks = strings(&["solo"]);
    let outcome = execute_command(&args, &tasks);
    assert_eq!(outcome.output, vec!["Task 1 removed.".to_string()]);
    match outcome.effect {
        FileEffect::Rewrite(rest) => assert!(rest.is_empty()),
        _ => panic!("expected a rewrite of the file"),
    }
}

#[test]
fn list_numbers_run_from_one() {
    let args = strings(&["rust-todo", "list"]);
    let tasks = strings(&["first", "second"]);
    let outcome = execute_command(&args, &tasks);
    assert!(matches!(outcome.effect, FileEffect::Keep));
    assert_eq!(outcome.output, strings(&["Tasks:", "1: first", "2: second"]));
}
