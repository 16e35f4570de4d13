//! The command dispatcher as a pure function: from the argument list (the
//! process name first) and the tasks loaded from the file, to an effect on
//! the file and the lines to print. `spec_execute` is the full behavior;
//! `execute_command` is proved to return exactly it. Running the effect
//! against file content is `apply_effect`, so a whole invocation is
//! load, dispatch, apply, print.

use vstd::prelude::*;

use crate::codec::{
    is_line, lemma_append_line, lemma_parse_render, parse, render, render_line, valid_tasks,
};
use crate::num::{all_digits, dec_rep, dec_val, parse_index, usize_to_string};
use crate::store::remove_at;
use crate::text::{join_spec, join_words, str_eq};

verus! {

/// What a command does to the task file: nothing, one appended line, or a
/// full rewrite from a new list.
pub enum FileEffect {
    Keep,
    Append(String),
    Rewrite(Vec<String>),
}

/// The mathematical value of a `FileEffect`.
pub enum SpecEffect {
    Keep,
    Append(Seq<char>),
    Rewrite(Seq<Seq<char>>),
}

impl View for FileEffect {
    type V = SpecEffect;

    open spec fn view(&self) -> SpecEffect {
        match self {
            FileEffect::Keep => SpecEffect::Keep,
            FileEffect::Append(t) => SpecEffect::Append(t@),
            FileEffect::Rewrite(ts) => SpecEffect::Rewrite(ts.deep_view()),
        }
    }
}

/// Everything one command invocation decides: the effect on the task file
/// and the output lines, in print order.
pub struct Outcome {
    pub effect: FileEffect,
    pub output: Vec<String>,
}

pub open spec fn usage_msg() -> Seq<char> {
    "Usage: rust-todo <command> [options]"@
}

pub open spec fn add_usage_msg() -> Seq<char> {
    "Usage: rust-todo add <task>"@
}

pub open spec fn remove_usage_msg() -> Seq<char> {
    "Usage: rust-todo remove <task_number>"@
}

pub open spec fn invalid_command_msg() -> Seq<char> {
    "Invalid command. Use 'add', 'list', or 'remove'."@
}

pub open spec fn invalid_number_msg() -> Seq<char> {
    "Invalid task number."@
}

pub open spec fn list_header_msg() -> Seq<char> {
    "Tasks:"@
}

pub open spec fn added_msg(t: Seq<char>) -> Seq<char> {
    "Task added: "@ + t
}

pub open spec fn removed_msg(k: nat) -> Seq<char> {
    "Task "@ + dec_rep(k) + " removed."@
}

/// The listing line for the task at 1-based position `k`.
pub open spec fn list_line(k: nat, t: Seq<char>) -> Seq<char> {
    dec_rep(k) + ": "@ + t
}

/// The listing lines for a whole task list, positions 1 and up, in order.
pub open spec fn list_lines(tasks: Seq<Seq<char>>) -> Seq<Seq<char>> {
    Seq::new(tasks.len(), |i: int| list_line((i + 1) as nat, tasks[i]))
}

/// Whether `s` names a valid 1-based index into a list of `n` tasks: all
/// decimal digits, and a value between one and `n`.
pub open spec fn valid_index(s: Seq<char>, n: nat) -> bool {
    s.len() > 0 && all_digits(s) && 1 <= dec_val(s) <= n
}

/// The full behavior of one command invocation, over the argument list
/// (the process name first) and the loaded tasks: the effect on the file
/// and the output lines.
///
/// No argument mistake is an error: a missing command or argument prints
/// usage, an unknown command or a bad index prints one message, and each
/// such case keeps the file as it is.
pub open spec fn spec_execute(args: Seq<Seq<char>>, tasks: Seq<Seq<char>>) -> (SpecEffect, Seq<
    Seq<char>,
>) {
    if args.len() <= 1 {
        (SpecEffect::Keep, seq![usage_msg()])
    } else if args[1] == "add"@ {
        if args.len() < 3 {
            (SpecEffect::Keep, seq![add_usage_msg()])
        } else {
            let t = join_spec(args.skip(2));
            (SpecEffect::Append(t), seq![added_msg(t)])
        }
    } else if args[1] == "list"@ {
        (SpecEffect::Keep, seq![list_header_msg()] + list_lines(tasks))
    } else if args[1] == "remove"@ {
        if args.len() < 3 {
            (SpecEffect::Keep, seq![remove_usage_msg()])
        } else if valid_index(args[2], tasks.len()) {
            let k = dec_val(args[2]);
            (SpecEffect::Rewrite(tasks.remove(k - 1)), seq![removed_msg(k as nat)])
        } else {
            (SpecEffect::Keep, seq![invalid_number_msg()])
        }
    } else {
        (SpecEffect::Keep, seq![invalid_command_msg()])
    }
}

/// A one-line output vector.
fn msg_vec(m: String) -> (r: Vec<String>)
    ensures
        r.deep_view() == seq![m@],
{
    let mut r: Vec<String> = Vec::new();
    r.push(m);
    proof {
        assert(r.deep_view() =~= seq![m@]);
    }
    r
}

/// Dispatches one command: returns exactly the effect and output that
/// `spec_execute` gives for these arguments and tasks.
pub fn execute_command(args: &Vec<String>, tasks: &Vec<String>) -> (r: Outcome)
    ensures
        (r.effect@, r.output.deep_view()) == spec_execute(args.deep_view(), tasks.deep_view()),
{
    let ghost gargs = args.deep_view();
    let ghost gtasks = tasks.deep_view();
    if args.len() <= 1 {
        return Outcome {
            effect: FileEffect::Keep,
            output: msg_vec(String::from_str("Usage: rust-todo <command> [options]")),
        };
    }
    let cmd = args[1].as_str();
    proof {
        assert(gargs[1] == cmd@);
    }
    if str_eq(cmd, "add") {
        if args.len() < 3 {
            return Outcome {
                effect: FileEffect::Keep,
                output: msg_vec(String::from_str("Usage: rust-todo add <task>")),
            };
        }
        let task = join_words(args, 2);
        let mut msg = String::from_str("Task added: ");
        msg.append(task.as_str());
        return Outcome { effect: FileEffect::Append(task), output: msg_vec(msg) };
    }
    if str_eq(cmd, "list") {
        let mut output: Vec<String> = Vec::new();
        output.push(String::from_str("Tasks:"));
        proof {
            assert(output.deep_view() =~= seq![list_header_msg()]);
            assert(list_lines(gtasks).take(0) =~= Seq::<Seq<char>>::empty());
            assert(output.deep_view() =~= seq![list_header_msg()] + list_lines(gtasks).take(0));
        }
        let mut i: usize = 0;
        while i < tasks.len()
            invariant
                0 <= i <= gtasks.len(),
                gtasks == tasks.deep_view(),
                output.deep_view() == seq![list_header_msg()] + list_lines(gtasks).take(i as int),
            decreases gtasks.len() - i,
        {
            let ghost old_deep = output.deep_view();
            let mut line = usize_to_string(i + 1);
            line.append(": ");
            line.append(tasks[i].as_str());
            output.push(line);
            proof {
                assert(line@ == list_line((i + 1) as nat, gtasks[i as int]));
                assert(output.deep_view() =~= old_deep.push(line@));
                assert(list_lines(gtasks).take(i as int + 1) =~= list_lines(gtasks).take(
                    i as int,
                ).push(list_lines(gtasks)[i as int]));
                assert(output.deep_view() =~= seq![list_header_msg()] + list_lines(gtasks).take(
                    i as int + 1,
                ));
            }
            i = i + 1;
        }
        proof {
            assert(list_lines(gtasks).take(gtasks.len() as int) =~= list_lines(gtasks));
        }
        return Outcome { effect: FileEffect::Keep, output };
    }
    if str_eq(cmd, "remove") {
        if args.len() < 3 {
            return Outcome {
                effect: FileEffect::Keep,
                output: msg_vec(String::from_str("Usage: rust-todo remove <task_number>")),
            };
        }
        let n = tasks.len();
        proof {
            assert(gargs[2] == args@[2]@);
        }
        let parsed = parse_index(args[2].as_str());
        if let Some(k) = parsed {
            if 1 <= k && k <= n {
                let mut new_tasks = clone_tasks(tasks);
                let removed = remove_at(&mut new_tasks, k);
                proof {
                    assert(removed is Ok);
                    assert(new_tasks.deep_view() =~= gtasks.remove(k - 1));
                }
                let mut msg = String::from_str("Task ");
                let num = usize_to_string(k);
                msg.append(num.as_str());
                msg.append(" removed.");
                return Outcome { effect: FileEffect::Rewrite(new_tasks), output: msg_vec(msg) };
            }
        }
        proof {
            assert(!valid_index(gargs[2], gtasks.len()));
        }
        return Outcome {
            effect: FileEffect::Keep,
            output: msg_vec(String::from_str("Invalid task number.")),
        };
    }
    Outcome {
        effect: FileEffect::Keep,
        output: msg_vec(String::from_str("Invalid command. Use 'add', 'list', or 'remove'.")),
    }
}

/// A copy of the task list, text for text.
fn clone_tasks(tasks: &Vec<String>) -> (r: Vec<String>)
    ensures
        r@ == tasks@,
{
    let mut r: Vec<String> = Vec::new();
    let mut i: usize = 0;
    while i < tasks.len()
        invariant
            0 <= i <= tasks@.len(),
            r@ == tasks@.take(i as int),
        decreases tasks@.len() - i,
    {
        r.push(tasks[i].clone());
        proof {
            assert(tasks@.take(i as int).push(tasks@[i as int]) =~= tasks@.take(i as int + 1));
        }
        i = i + 1;
    }
    proof {
        assert(tasks@.take(tasks@.len() as int) =~= tasks@);
    }
    r
}

/// The new file content an effect produces from the old: `Keep` leaves
/// it, `Append` adds the one rendered line, `Rewrite` replaces it with
/// the rendering of its list.
pub open spec fn spec_apply_effect(content: Seq<char>, e: SpecEffect) -> Seq<char> {
    match e {
        SpecEffect::Keep => content,
        SpecEffect::Append(t) => content + render_line(t),
        SpecEffect::Rewrite(ts) => render(ts),
    }
}

/// Law: one `add` of a line `t` on well-formed content (empty, or closed
/// by a final newline) appends exactly `t` to the list a later load sees,
/// and keeps the content well formed.
pub proof fn lemma_add_round_trip(c: Seq<char>, t: Seq<char>)
    requires
        is_line(t),
        c.len() == 0 || c.last() == '\n',
    ensures
        parse(spec_apply_effect(c, SpecEffect::Append(t))) == parse(c).push(t),
        spec_apply_effect(c, SpecEffect::Append(t)).last() == '\n',
{
    lemma_append_line(c, t);
}

/// Law: a run of `add`s with texts `ts` over an initially empty file —
/// whose content is then the rendering of `ts` — loads back as exactly
/// `ts`, and `list` then shows position k as the line "k: <text>" with
/// the k-th text, for k = 1 to n in order.
pub proof fn lemma_adds_then_list(ts: Seq<Seq<char>>)
    requires
        valid_tasks(ts),
    ensures
        parse(render(ts)) == ts,
        list_lines(ts).len() == ts.len(),
        forall|i: int| 0 <= i < ts.len() ==> list_lines(ts)[i] == list_line((i + 1) as nat, ts[i]),
{
    lemma_parse_render(ts);
}

/// Law: removing the task at 1-based index k of a valid list of length n
/// (1 <= k <= n) yields the n-1 remaining tasks in their previous
/// relative order, and the rewritten file loads back as exactly that
/// shorter list.
pub proof fn lemma_remove_round_trip(ts: Seq<Seq<char>>, k: int)
    requires
        valid_tasks(ts),
        1 <= k <= ts.len(),
    ensures
        ts.remove(k - 1).len() == ts.len() - 1,
        forall|i: int| 0 <= i < k - 1 ==> #[trigger] ts.remove(k - 1)[i] == ts[i],
        forall|i: int| k - 1 <= i < ts.len() - 1 ==> #[trigger] ts.remove(k - 1)[i] == ts[i + 1],
        parse(render(ts.remove(k - 1))) == ts.remove(k - 1),
{
    let rem = ts.remove(k - 1);
    assert forall|i: int| 0 <= i < rem.len() implies is_line(#[trigger] rem[i]) by {
        if i < k - 1 {
            assert(is_line(ts[i]));
        } else {
            assert(is_line(ts[i + 1]));
        }
    }
    lemma_parse_render(rem);
}

/// Applies an effect to file content held in memory.
pub fn apply_effect(content: &str, effect: &FileEffect) -> (r: String)
    ensures
        r@ == spec_apply_effect(content@, effect@),
{
    match effect {
        FileEffect::Keep => String::from_str(content),
        FileEffect::Append(t) => {
            let mut r = String::from_str(content);
            let line = crate::codec::render_task_line(t.as_str());
            r.append(line.as_str());
            r
        },
        FileEffect::Rewrite(ts) => crate::codec::render_tasks(ts),
    }
}

} // verus!
