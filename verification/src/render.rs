//! The markup that displays a list of tasks.
//!
//! Each task becomes one list item: its name as text, then the element
//! that deletes it. The item of a completed task carries the class
//! `checked`. A name is always written as text: the characters that
//! could open a tag, an entity or an attribute value are written as
//! entities.

use crate::task::{Task, TaskView, views_of};
use vstd::prelude::*;
use vstd::string::StringExecFns;

verus! {

/// How one character of a name is written.
pub open spec fn entity(c: char) -> Seq<char> {
    if c == '&' {
        "&amp;"@
    } else if c == '<' {
        "&lt;"@
    } else if c == '>' {
        "&gt;"@
    } else if c == '"' {
        "&quot;"@
    } else if c == '\'' {
        "&#39;"@
    } else {
        seq![c]
    }
}

/// How a name is written: its characters one after the other.
pub open spec fn text_markup(s: Seq<char>) -> Seq<char>
    decreases s.len(),
{
    if s.len() == 0 {
        Seq::<char>::empty()
    } else {
        entity(s[0]) + text_markup(s.drop_first())
    }
}

/// The opening tag of a task's item.
pub open spec fn item_open(completed: bool) -> Seq<char> {
    if completed {
        "<li class=\"checked\">"@
    } else {
        "<li>"@
    }
}

/// The item of one task.
pub open spec fn item_markup(task: TaskView) -> Seq<char> {
    item_open(task.completed) + text_markup(task.name) + "<span>&times;</span></li>"@
}

/// The items of a list of tasks, in order. The empty list has no
/// markup.
pub open spec fn list_markup(tasks: Seq<TaskView>) -> Seq<char>
    decreases tasks.len(),
{
    if tasks.len() == 0 {
        Seq::<char>::empty()
    } else {
        item_markup(tasks[0]) + list_markup(tasks.drop_first())
    }
}

/// Writing a name in two parts is writing its parts one after the
/// other.
pub proof fn text_markup_concat(a: Seq<char>, b: Seq<char>)
    ensures
        text_markup(a + b) == text_markup(a) + text_markup(b),
    decreases a.len(),
{
    if a.len() == 0 {
        assert(a + b =~= b);
        assert(text_markup(a) + text_markup(b) =~= text_markup(b));
    } else {
        assert((a + b).drop_first() =~= a.drop_first() + b);
        text_markup_concat(a.drop_first(), b);
        assert(entity(a[0]) + (text_markup(a.drop_first()) + text_markup(b)) =~= (entity(a[0])
            + text_markup(a.drop_first())) + text_markup(b));
    }
}

/// Writing a name of one character is writing that character.
pub proof fn text_markup_single(c: char)
    ensures
        text_markup(seq![c]) == entity(c),
{
    assert(seq![c].drop_first() =~= Seq::<char>::empty());
    assert(entity(c) + text_markup(Seq::<char>::empty()) =~= entity(c));
}

/// Writes one character of a name.
fn write_entity(out: &mut String, c: char)
    ensures
        final(out)@ == old(out)@ + entity(c),
{
    if c == '&' {
        out.append("&amp;");
    } else if c == '<' {
        out.append("&lt;");
    } else if c == '>' {
        out.append("&gt;");
    } else if c == '"' {
        out.append("&quot;");
    } else if c == '\'' {
        out.append("&#39;");
    } else {
        crate::text::push_char(out, c);
        assert(out@ =~= old(out)@ + seq![c]);
    }
}

/// Writes a name as text.
fn write_name(out: &mut String, s: &str)
    ensures
        final(out)@ == old(out)@ + text_markup(s@),
{
    let ghost start = out@;
    assert(start + text_markup(s@.take(0)) =~= start);
    for c in it: s.chars()
        invariant
            it.seq() == s@,
            out@ == start + text_markup(s@.take(it.index())),
    {
        proof {
            let i = it.index();
            assert(s@.take(i + 1) =~= s@.take(i) + seq![c]);
            text_markup_concat(s@.take(i), seq![c]);
            text_markup_single(c);
        }
        write_entity(out, c);
        assert(out@ =~= start + text_markup(s@.take(it.index() + 1)));
    }
    assert(s@.take(s@.len() as int) =~= s@);
}

/// Writes the item of one task.
fn write_item(out: &mut String, task: &Task)
    ensures
        final(out)@ == old(out)@ + item_markup(task@),
{
    if task.completed() {
        out.append("<li class=\"checked\">");
    } else {
        out.append("<li>");
    }
    write_name(out, task.name());
    out.append("<span>&times;</span></li>");
    assert(out@ =~= old(out)@ + item_markup(task@));
}

/// Writes the markup that displays the tasks given. The markup depends
/// on nothing but the tasks.
pub fn render(tasks: &Vec<Task>) -> (out: String)
    ensures
        out@ == list_markup(views_of(tasks@)),
{
    let ghost ts = views_of(tasks@);
    let mut out: String = String::new();
    let mut i: usize = 0;
    assert(ts.skip(0) =~= ts);
    assert(out@ + list_markup(ts) =~= list_markup(ts));
    while i < tasks.len()
        invariant
            i <= tasks.len(),
            ts == views_of(tasks@),
            list_markup(ts) == out@ + list_markup(ts.skip(i as int)),
        decreases tasks.len() - i,
    {
        let ghost before = out@;
        proof {
            assert(ts.skip(i as int).drop_first() =~= ts.skip(i + 1));
        }
        write_item(&mut out, &tasks[i]);
        assert(out@ + list_markup(ts.skip(i + 1)) =~= before + (item_markup(ts[i as int])
            + list_markup(ts.skip(i + 1))));
        i = i + 1;
    }
    assert(out@ + list_markup(ts.skip(i as int)) =~= out@);
    out
}

/// The characters that open or close a tag or an attribute value.
pub open spec fn is_markup(c: char) -> bool {
    c == '<' || c == '>' || c == '"' || c == '\''
}

/// Whether one of the five entities stands in `s` at `pos`.
pub open spec fn entity_at(s: Seq<char>, pos: int) -> bool {
    exists|c: char| #[trigger]
        entity(c).len() > 1 && 0 <= pos && pos + entity(c).len() <= s.len() && s.subrange(
            pos,
            pos + entity(c).len(),
        ) == entity(c)
}

/// What is written for one character holds no markup, and holds an
/// ampersand only as the start of an entity.
pub proof fn entity_is_text(c: char)
    ensures
        entity(c).len() >= 1,
        forall|i: int| 0 <= i < entity(c).len() ==> !is_markup(#[trigger] entity(c)[i]),
        forall|i: int|
            0 <= i < entity(c).len() && #[trigger] entity(c)[i] == '&' ==> i == 0 && entity(
                c,
            ).len() > 1,
{
    reveal_strlit("&amp;");
    reveal_strlit("&lt;");
    reveal_strlit("&gt;");
    reveal_strlit("&quot;");
    reveal_strlit("&#39;");
}

/// A name is written as text: what is written holds no character that
/// opens or closes a tag or an attribute value, and each ampersand in it
/// starts an entity.
pub proof fn text_markup_is_text(s: Seq<char>)
    ensures
        forall|i: int| 0 <= i < text_markup(s).len() ==> !is_markup(#[trigger] text_markup(s)[i]),
        forall|i: int|
            0 <= i < text_markup(s).len() && #[trigger] text_markup(s)[i] == '&' ==> entity_at(
                text_markup(s),
                i,
            ),
    decreases s.len(),
{
    if s.len() > 0 {
        let head = entity(s[0]);
        let tail = text_markup(s.drop_first());
        let all = text_markup(s);
        entity_is_text(s[0]);
        text_markup_is_text(s.drop_first());
        assert forall|i: int| 0 <= i < all.len() implies !is_markup(#[trigger] all[i]) by {
            if i < head.len() {
                assert(all[i] == head[i]);
            } else {
                assert(all[i] == tail[i - head.len()]);
            }
        }
        assert forall|i: int| 0 <= i < all.len() && #[trigger] all[i] == '&' implies entity_at(
            all,
            i,
        ) by {
            if i < head.len() {
                assert(all[i] == head[i]);
                assert(all.subrange(0, head.len() as int) =~= head);
                assert(entity(s[0]).len() > 1);
            } else {
                let j = i - head.len();
                assert(all[i] == tail[j]);
                assert(entity_at(tail, j));
                let c = choose|c: char| #[trigger]
                    entity(c).len() > 1 && 0 <= j && j + entity(c).len() <= tail.len()
                        && tail.subrange(j, j + entity(c).len()) == entity(c);
                assert(all.subrange(i, i + entity(c).len()) =~= tail.subrange(
                    j,
                    j + entity(c).len(),
                ));
            }
        }
    }
}

/// The markup of a list is the markup of its tasks, one after the
/// other: a task more at the end adds its item at the end.
pub proof fn list_markup_push(tasks: Seq<TaskView>, task: TaskView)
    ensures
        list_markup(tasks.push(task)) == list_markup(tasks) + item_markup(task),
    decreases tasks.len(),
{
    if tasks.len() == 0 {
        assert(tasks.push(task).drop_first() =~= Seq::<TaskView>::empty());
        assert(list_markup(tasks.push(task)) =~= item_markup(task) + list_markup(
            Seq::<TaskView>::empty(),
        ));
        assert(list_markup(tasks) + item_markup(task) =~= item_markup(task));
        assert(item_markup(task) + Seq::<char>::empty() =~= item_markup(task));
    } else {
        assert(tasks.push(task).drop_first() =~= tasks.drop_first().push(task));
        list_markup_push(tasks.drop_first(), task);
        assert(item_markup(tasks[0]) + (list_markup(tasks.drop_first()) + item_markup(task)) =~= (
        item_markup(tasks[0]) + list_markup(tasks.drop_first())) + item_markup(task));
    }
}

/// The markup depends on the tasks alone: lists that hold the same
/// tasks in the same order have the same markup, however often it is
/// written.
pub proof fn render_is_deterministic(a: Seq<Task>, b: Seq<Task>)
    requires
        views_of(a) == views_of(b),
    ensures
        list_markup(views_of(a)) == list_markup(views_of(b)),
{
}

} // verus!
