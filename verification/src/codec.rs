//! The on-disk task file format: plain text, one task per line, each line
//! closed by a newline character. `parse` and `render` are the two sides
//! of the format; the executable `parse_content` and `render_tasks` are
//! proved against them, and the round-trip lemmas say that a load followed
//! by a rewrite reproduces well-formed content byte for byte.

use vstd::prelude::*;

verus! {

/// A task is a single line of text: it holds no newline.
pub open spec fn is_line(s: Seq<char>) -> bool {
    forall|i: int| 0 <= i < s.len() ==> s[i] != '\n'
}

/// Every task of the list is a single line.
pub open spec fn valid_tasks(ts: Seq<Seq<char>>) -> bool {
    forall|i: int| 0 <= i < ts.len() ==> is_line(#[trigger] ts[i])
}

/// One task as it stands in the file: its text closed by a newline.
pub open spec fn render_line(t: Seq<char>) -> Seq<char> {
    t.push('\n')
}

/// The whole file content for a task list: each task on its own line,
/// in list order.
pub open spec fn render(ts: Seq<Seq<char>>) -> Seq<char>
    decreases ts.len(),
{
    if ts.len() == 0 {
        Seq::empty()
    } else {
        render_line(ts[0]) + render(ts.drop_first())
    }
}

/// The task list that file content denotes: the text split at newlines.
/// A final line not closed by a newline still counts as a task; empty
/// content holds no tasks.
pub open spec fn parse(s: Seq<char>) -> Seq<Seq<char>>
    decreases s.len(),
{
    if s.len() == 0 {
        Seq::empty()
    } else if s[0] == '\n' {
        seq![Seq::<char>::empty()] + parse(s.drop_first())
    } else {
        let rest = parse(s.drop_first());
        if rest.len() == 0 {
            seq![seq![s[0]]]
        } else {
            seq![seq![s[0]] + rest[0]] + rest.drop_first()
        }
    }
}

/// Nonempty content parses to at least one task.
pub proof fn lemma_parse_nonempty(s: Seq<char>)
    requires
        s.len() > 0,
    ensures
        parse(s).len() >= 1,
{
}

/// Every task a parse yields is a single line.
pub proof fn lemma_parse_lines(s: Seq<char>)
    ensures
        valid_tasks(parse(s)),
    decreases s.len(),
{
    if s.len() == 0 {
    } else if s[0] == '\n' {
        lemma_parse_lines(s.drop_first());
        let p = parse(s);
        assert forall|i: int| 0 <= i < p.len() implies is_line(#[trigger] p[i]) by {
            if i > 0 {
                assert(p[i] == parse(s.drop_first())[i - 1]);
            }
        }
    } else {
        lemma_parse_lines(s.drop_first());
        let rest = parse(s.drop_first());
        let p = parse(s);
        if rest.len() == 0 {
            assert forall|i: int| 0 <= i < p.len() implies is_line(#[trigger] p[i]) by {
                assert(p[i] == seq![s[0]]);
                assert(forall|j: int| 0 <= j < 1 ==> seq![s[0]][j] == s[0]);
            }
        } else {
            assert forall|i: int| 0 <= i < p.len() implies is_line(#[trigger] p[i]) by {
                if i == 0 {
                    let h = seq![s[0]] + rest[0];
                    assert(is_line(rest[0]));
                    assert forall|j: int| 0 <= j < h.len() implies h[j] != '\n' by {
                        if j > 0 {
                            assert(h[j] == rest[0][j - 1]);
                        }
                    }
                } else {
                    assert(p[i] == rest[i]);
                    assert(is_line(rest[i]));
                }
            }
        }
    }
}

/// Content that starts with the full line `t` parses to `t` followed by
/// the parse of what comes after its newline.
pub proof fn lemma_parse_line_prefix(t: Seq<char>, r: Seq<char>)
    requires
        is_line(t),
    ensures
        parse(render_line(t) + r) == seq![t] + parse(r),
    decreases t.len(),
{
    if t.len() == 0 {
        let s = render_line(t) + r;
        assert(s[0] == '\n');
        assert(s.drop_first() =~= r);
        assert(parse(s) == seq![Seq::<char>::empty()] + parse(r));
        assert(t =~= Seq::<char>::empty());
    } else {
        let a = t[0];
        let t2 = t.drop_first();
        assert forall|i: int| 0 <= i < t2.len() implies t2[i] != '\n' by {
            assert(t[i + 1] != '\n');
        }
        lemma_parse_line_prefix(t2, r);
        let s = render_line(t) + r;
        assert(s[0] == a && a != '\n');
        assert(s.drop_first() =~= render_line(t2) + r);
        let rest = parse(s.drop_first());
        assert(rest == seq![t2] + parse(r));
        assert(rest.len() >= 1);
        assert(rest[0] == t2);
        assert(rest.drop_first() =~= parse(r));
        assert(seq![a] + t2 =~= t);
        assert(parse(s) =~= seq![t] + parse(r));
    }
}

/// Rendering a task list and parsing the result returns the same list.
pub proof fn lemma_parse_render(ts: Seq<Seq<char>>)
    requires
        valid_tasks(ts),
    ensures
        parse(render(ts)) == ts,
    decreases ts.len(),
{
    if ts.len() > 0 {
        let ts2 = ts.drop_first();
        assert forall|i: int| 0 <= i < ts2.len() implies is_line(#[trigger] ts2[i]) by {
            assert(is_line(ts[i + 1]));
        }
        assert(is_line(ts[0]));
        lemma_parse_line_prefix(ts[0], render(ts2));
        lemma_parse_render(ts2);
        assert(seq![ts[0]] + ts2 =~= ts);
    }
}

/// Appending one task to a list appends exactly one line to its rendering.
pub proof fn lemma_render_push(ts: Seq<Seq<char>>, t: Seq<char>)
    ensures
        render(ts.push(t)) == render(ts) + render_line(t),
    decreases ts.len(),
{
    if ts.len() == 0 {
        assert(ts.push(t).drop_first() =~= Seq::<Seq<char>>::empty());
        assert(ts.push(t)[0] == t);
        assert(render(ts.push(t).drop_first()) == Seq::<char>::empty());
        assert(render(ts.push(t)) =~= render(ts) + render_line(t));
    } else {
        lemma_render_push(ts.drop_first(), t);
        assert(ts.push(t).drop_first() =~= ts.drop_first().push(t));
        assert(ts.push(t)[0] == ts[0]);
        assert(render(ts.push(t)) == render_line(ts[0]) + render(ts.drop_first().push(t)));
        assert(render(ts.push(t)) == render_line(ts[0]) + (render(ts.drop_first()) + render_line(t)));
        assert(render(ts.push(t)) =~= render(ts) + render_line(t));
    }
}

/// Parsing well-formed content (empty, or closed by a final newline) and
/// rendering the result reproduces the content byte for byte: a rewrite
/// of an unmodified load leaves the file identical.
pub proof fn lemma_render_parse(s: Seq<char>)
    requires
        s.len() == 0 || s.last() == '\n',
    ensures
        render(parse(s)) == s,
    decreases s.len(),
{
    if s.len() == 0 {
    } else if s[0] == '\n' {
        let s2 = s.drop_first();
        lemma_render_parse(s2);
        let p = parse(s);
        assert(p == seq![Seq::<char>::empty()] + parse(s2));
        assert(p[0] == Seq::<char>::empty());
        assert(p.drop_first() =~= parse(s2));
        assert(render_line(Seq::<char>::empty()) =~= seq!['\n']);
        assert(render(p) =~= s);
    } else {
        let s2 = s.drop_first();
        assert(s2.len() > 0);
        assert(s2.last() == '\n');
        lemma_render_parse(s2);
        lemma_parse_nonempty(s2);
        let rest = parse(s2);
        let p = parse(s);
        assert(p == seq![seq![s[0]] + rest[0]] + rest.drop_first());
        assert(p[0] == seq![s[0]] + rest[0]);
        assert(p.drop_first() =~= rest.drop_first());
        assert(render(rest) == render_line(rest[0]) + render(rest.drop_first()));
        assert(render_line(seq![s[0]] + rest[0]) =~= seq![s[0]] + render_line(rest[0]));
        assert(render(p) == render_line(p[0]) + render(rest.drop_first()));
        assert(render(p) == (seq![s[0]] + render_line(rest[0])) + render(rest.drop_first()));
        assert(render(p) =~= seq![s[0]] + (render_line(rest[0]) + render(rest.drop_first())));
        assert(render(p) == seq![s[0]] + render(rest));
        assert(seq![s[0]] + s2 =~= s);
    }
}

/// One `add` on well-formed content appends exactly one task to the list
/// that a later load sees, and keeps the content well formed: a run of
/// `add`s with texts T1..Tn over an initially empty file therefore loads
/// as exactly T1..Tn, in that order.
pub proof fn lemma_append_line(c: Seq<char>, t: Seq<char>)
    requires
        is_line(t),
        c.len() == 0 || c.last() == '\n',
    ensures
        parse(c + render_line(t)) == parse(c).push(t),
        (c + render_line(t)).last() == '\n',
{
    lemma_render_parse(c);
    lemma_parse_lines(c);
    lemma_render_push(parse(c), t);
    let ts = parse(c).push(t);
    assert forall|i: int| 0 <= i < ts.len() implies is_line(#[trigger] ts[i]) by {
        if i < parse(c).len() {
            assert(is_line(parse(c)[i]));
        }
    }
    lemma_parse_render(ts);
    assert(c + render_line(t) =~= render(ts));
}

/// Renders one task as the line that `add` appends to the file.
pub fn render_task_line(task: &str) -> (r: String)
    ensures
        r@ == render_line(task@),
{
    let mut r = String::from_str(task);
    r.append("\n");
    proof {
        reveal_strlit("\n");
        assert(task@ + "\n"@ =~= render_line(task@));
    }
    r
}

/// Renders a whole task list as file content, one line per task.
pub fn render_tasks(tasks: &Vec<String>) -> (r: String)
    ensures
        r@ == render(tasks.deep_view()),
{
    let mut r = String::new();
    let mut i: usize = 0;
    proof {
        assert(tasks.deep_view().take(0) =~= Seq::<Seq<char>>::empty());
    }
    while i < tasks.len()
        invariant
            0 <= i <= tasks.len(),
            r@ == render(tasks.deep_view().take(i as int)),
        decreases tasks.len() - i,
    {
        let line = render_task_line(tasks[i].as_str());
        r.append(line.as_str());
        proof {
            lemma_render_push(tasks.deep_view().take(i as int), tasks.deep_view()[i as int]);
            assert(tasks.deep_view().take(i as int).push(tasks.deep_view()[i as int])
                =~= tasks.deep_view().take(i as int + 1));
        }
        i = i + 1;
    }
    proof {
        assert(tasks.deep_view().take(tasks.len() as int) =~= tasks.deep_view());
    }
    r
}

/// A parse caught in the middle of a line: `pre` is the part of the
/// current line already seen, `rest` what remains of the content.
spec fn parse_cont(pre: Seq<char>, rest: Seq<char>) -> Seq<Seq<char>> {
    if rest.len() == 0 {
        if pre.len() == 0 {
            Seq::empty()
        } else {
            seq![pre]
        }
    } else {
        seq![pre + parse(rest)[0]] + parse(rest).drop_first()
    }
}

proof fn lemma_parse_cont_init(s: Seq<char>)
    ensures
        parse(s) == parse_cont(Seq::empty(), s),
{
    if s.len() > 0 {
        lemma_parse_nonempty(s);
        assert(Seq::<char>::empty() + parse(s)[0] =~= parse(s)[0]);
        assert(seq![parse(s)[0]] + parse(s).drop_first() =~= parse(s));
    }
}

proof fn lemma_parse_cont_char(pre: Seq<char>, a: char, rest: Seq<char>)
    requires
        a != '\n',
    ensures
        parse_cont(pre, seq![a] + rest) == parse_cont(pre.push(a), rest),
{
    let s = seq![a] + rest;
    assert(s[0] == a);
    assert(s.drop_first() =~= rest);
    if rest.len() == 0 {
        assert(parse(s.drop_first()) == Seq::<Seq<char>>::empty());
        assert(parse(s) == seq![seq![a]]);
        assert(pre + seq![a] =~= pre.push(a));
        assert(parse_cont(pre, s) =~= parse_cont(pre.push(a), rest));
    } else {
        lemma_parse_nonempty(rest);
        let p = parse(rest);
        assert(parse(s) == seq![seq![a] + p[0]] + p.drop_first());
        assert(parse(s)[0] == seq![a] + p[0]);
        assert(parse(s).drop_first() =~= p.drop_first());
        assert(pre + (seq![a] + p[0]) =~= pre.push(a) + p[0]);
        assert(parse_cont(pre, s) =~= parse_cont(pre.push(a), rest));
    }
}

proof fn lemma_parse_cont_newline(pre: Seq<char>, rest: Seq<char>)
    ensures
        parse_cont(pre, seq!['\n'] + rest) == seq![pre] + parse_cont(Seq::empty(), rest),
{
    let s = seq!['\n'] + rest;
    assert(s[0] == '\n');
    assert(s.drop_first() =~= rest);
    assert(parse(s) == seq![Seq::<char>::empty()] + parse(rest));
    assert(parse(s)[0] == Seq::<char>::empty());
    assert(pre + Seq::<char>::empty() =~= pre);
    assert(parse(s).drop_first() =~= parse(rest));
    if rest.len() == 0 {
        assert(parse_cont(pre, s) =~= seq![pre] + parse_cont(Seq::empty(), rest));
    } else {
        lemma_parse_nonempty(rest);
        assert(Seq::<char>::empty() + parse(rest)[0] =~= parse(rest)[0]);
        assert(seq![parse(rest)[0]] + parse(rest).drop_first() =~= parse(rest));
        assert(parse_cont(pre, s) =~= seq![pre] + parse_cont(Seq::empty(), rest));
    }
}

/// Splits file content into its tasks, one per line.
pub fn parse_content(content: &str) -> (r: Vec<String>)
    ensures
        r.deep_view() == parse(content@),
{
    let len = content.unicode_len();
    let mut out: Vec<String> = Vec::new();
    let mut start: usize = 0;
    let mut i: usize = 0;
    proof {
        lemma_parse_cont_init(content@);
        assert(content@.subrange(0, 0) =~= Seq::<char>::empty());
        assert(content@.skip(0) =~= content@);
    }
    while i < len
        invariant
            0 <= start <= i <= len,
            len == content@.len(),
            parse(content@) == out.deep_view()
                + parse_cont(content@.subrange(start as int, i as int), content@.skip(i as int)),
        decreases len - i,
    {
        let ghost pre = content@.subrange(start as int, i as int);
        proof {
            assert(content@.skip(i as int) =~= seq![content@[i as int]] + content@.skip(i as int + 1));
        }
        let c = content.get_char(i);
        if c == '\n' {
            let ghost old_deep = out.deep_view();
            let line = content.substring_char(start, i);
            out.push(String::from_str(line));
            proof {
                lemma_parse_cont_newline(pre, content@.skip(i as int + 1));
                assert(out.deep_view() =~= old_deep.push(pre));
                assert(old_deep.push(pre) =~= old_deep + seq![pre]);
                assert(content@.subrange(i as int + 1, i as int + 1) =~= Seq::<char>::empty());
                assert(out.deep_view()
                    + parse_cont(Seq::empty(), content@.skip(i as int + 1))
                    =~= old_deep + (seq![pre] + parse_cont(Seq::empty(), content@.skip(i as int + 1))));
            }
            start = i + 1;
        } else {
            proof {
                lemma_parse_cont_char(pre, content@[i as int], content@.skip(i as int + 1));
                assert(pre.push(content@[i as int]) =~= content@.subrange(start as int, i as int + 1));
            }
        }
        i = i + 1;
    }
    proof {
        assert(content@.skip(len as int) =~= Seq::<char>::empty());
    }
    if start < len {
        let ghost old_deep = out.deep_view();
        let ghost pre = content@.subrange(start as int, len as int);
        let line = content.substring_char(start, len);
        out.push(String::from_str(line));
        proof {
            assert(out.deep_view() =~= old_deep.push(pre));
            assert(old_deep.push(pre) =~= old_deep + seq![pre]);
            assert(out.deep_view() =~= parse(content@));
        }
    } else {
        proof {
            assert(content@.subrange(start as int, len as int).len() == 0);
            assert(out.deep_view() + parse_cont(
                content@.subrange(start as int, len as int),
                content@.skip(len as int),
            ) =~= out.deep_view());
        }
    }
    out
}

} // verus!
