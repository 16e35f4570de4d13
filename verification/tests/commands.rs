//! The command dispatcher driven as the program drives it: the file is a
//! string of content, a command turns loaded tasks into an effect, and the
//! effect is applied back to the content.

use rust_todo::{apply_effect, execute_command, parse_content};

fn run_command(args: &[&str], content: &str) -> (String, Vec<String>) {
    let args: Vec<String> = args.iter().map(|a| a.to_string()).collect();
    let tasks = parse_content(content);
    let outcome = execute_command(&args, &tasks);
    (apply_effect(content, &outcome.effect), outcome.output)
}

#[test]
fn test_execute_command_add_task() {
    // The backing file does not exist yet: empty content.
    let content = String::new();

    let (content, output) = run_command(&["rust-todo", "add", "テストタスク"], &content);
    assert_eq!(output, vec!["Task added: テストタスク".to_string()]);

    let tasks = parse_content(&content);
    assert_eq!(tasks.len(), 1);
    assert_eq!(tasks[0], "テストタスク");
}

#[test]
fn test_execute_command_list() {
    let content = String::new();

    let (content, output) = run_command(&["rust-todo", "list"], &content);
    assert_eq!(output, vec!["Tasks:".to_string()]);

    let tasks = parse_content(&content);
    assert!(tasks.is_empty());
}

#[test]
fn test_execute_command_remove_tesk() {
    let content = String::new();

    let (content, _) = run_command(&["rust-todo", "add", "test1"], &content);
    let (content, _) = run_command(&["rust-todo", "add", "test2"], &content);
    let (content, _) = run_command(&["rust-todo", "add", "test3"], &content);

    let (content, output) = run_command(&["rust-todo", "remove", "2"], &content);
    assert_eq!(output, vec!["Task 2 removed.".to_string()]);

    let tasks = parse_content(&content);
    assert_eq!(tasks.len(), 2);
    assert_eq!(tasks[0], "test1");
    assert_eq!(tasks[1], "test3");
}
