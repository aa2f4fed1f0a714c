//! The shape of the persisted document, over its tokens.
//!
//! The document is one object. Its member `tasks` is an array of
//! records; a record is an object whose member `name` is a string and
//! whose member `completed`, if there is one, is `true` or `false`.
//! Members with other keys may hold any value and are passed over.
//! Positions are indices into the sequence of tokens.

use crate::lexer::{Lexeme, Token, lexemes_of};
use crate::task::{Task, TaskView, names_valid, views_of};
use crate::text::{is_blank, string_of};
use vstd::prelude::*;

verus! {

/// How deep the arrays and objects of a value that is passed over may
/// nest.
pub const MAX_DEPTH: usize = 128;

/// The position behind the value that starts at `pos`, or nothing where
/// no well-formed value of at most `depth` levels starts there.
pub open spec fn value_end(t: Seq<Lexeme>, pos: int, depth: nat) -> Option<int>
    decreases depth, t.len() - pos, 0nat,
{
    if !(0 <= pos < t.len()) {
        None
    } else {
        match t[pos] {
            Lexeme::True | Lexeme::False | Lexeme::Null | Lexeme::Number | Lexeme::Text(_) => Some(
                pos + 1,
            ),
            Lexeme::BeginArray => if depth == 0 {
                None
            } else if pos + 1 < t.len() && t[pos + 1] == Lexeme::EndArray {
                Some(pos + 2)
            } else {
                elements_end(t, pos + 1, (depth - 1) as nat)
            },
            Lexeme::BeginObject => if depth == 0 {
                None
            } else if pos + 1 < t.len() && t[pos + 1] == Lexeme::EndObject {
                Some(pos + 2)
            } else {
                members_end(t, pos + 1, (depth - 1) as nat)
            },
            _ => None,
        }
    }
}

/// The position behind the closing bracket of the array whose next
/// element starts at `pos`.
pub open spec fn elements_end(t: Seq<Lexeme>, pos: int, depth: nat) -> Option<int>
    decreases depth, t.len() - pos, 1nat,
{
    match value_end(t, pos, depth) {
        Some(next) => if pos < next < t.len() {
            if t[next] == Lexeme::Comma {
                elements_end(t, next + 1, depth)
            } else if t[next] == Lexeme::EndArray {
                Some(next + 1)
            } else {
                None
            }
        } else {
            None
        },
        None => None,
    }
}

/// The position behind the closing brace of the object whose next
/// member starts at `pos`.
pub open spec fn members_end(t: Seq<Lexeme>, pos: int, depth: nat) -> Option<int>
    decreases depth, t.len() - pos, 1nat,
{
    if 0 <= pos && pos + 1 < t.len() && t[pos] is Text && t[pos + 1] == Lexeme::Colon {
        match value_end(t, pos + 2, depth) {
            Some(next) => if pos < next < t.len() {
                if t[next] == Lexeme::Comma {
                    members_end(t, next + 1, depth)
                } else if t[next] == Lexeme::EndObject {
                    Some(next + 1)
                } else {
                    None
                }
            } else {
                None
            },
            None => None,
        }
    } else {
        None
    }
}

/// A value ends behind its start and within the tokens.
pub proof fn value_end_bounds(t: Seq<Lexeme>, pos: int, depth: nat)
    ensures
        value_end(t, pos, depth) matches Some(end) ==> pos < end <= t.len(),
        elements_end(t, pos, depth) matches Some(end) ==> pos < end <= t.len(),
        members_end(t, pos, depth) matches Some(end) ==> pos < end <= t.len(),
    decreases depth, t.len() - pos,
{
    if 0 <= pos < t.len() {
        if depth > 0 {
            value_end_bounds(t, pos + 1, (depth - 1) as nat);
        }
        if let Some(next) = value_end(t, pos, depth) {
            if pos < next < t.len() {
                value_end_bounds(t, next + 1, depth);
            }
        }
        if let Some(next) = value_end(t, pos + 2, depth) {
            if pos < next < t.len() {
                value_end_bounds(t, next + 1, depth);
            }
        }
    }
}

/// Passes over the value that starts at `pos`.
fn skip_value(t: &Vec<Token>, pos: usize, depth: usize) -> (r: Option<usize>)
    requires
        pos <= t.len(),
    ensures
        r is Some == value_end(lexemes_of(t@), pos as int, depth as nat) is Some,
        r matches Some(end) ==> value_end(lexemes_of(t@), pos as int, depth as nat) == Some(
            end as int,
        ) && pos < end <= t.len(),
    decreases depth, 0nat,
{
    proof {
        value_end_bounds(lexemes_of(t@), pos as int, depth as nat);
    }
    if pos >= t.len() {
        return None;
    }
    match &t[pos] {
        Token::True | Token::False | Token::Null | Token::Number | Token::Text(_) => Some(pos + 1),
        Token::BeginArray => {
            if depth == 0 {
                None
            } else if pos + 1 < t.len() && matches!(t[pos + 1], Token::EndArray) {
                Some(pos + 2)
            } else {
                skip_elements(t, pos + 1, depth - 1)
            }
        },
        Token::BeginObject => {
            if depth == 0 {
                None
            } else if pos + 1 < t.len() && matches!(t[pos + 1], Token::EndObject) {
                Some(pos + 2)
            } else {
                skip_members(t, pos + 1, depth - 1)
            }
        },
        _ => None,
    }
}

/// Passes over the rest of an array, from its next element on.
fn skip_elements(t: &Vec<Token>, pos: usize, depth: usize) -> (r: Option<usize>)
    requires
        pos <= t.len(),
    ensures
        r is Some == elements_end(lexemes_of(t@), pos as int, depth as nat) is Some,
        r matches Some(end) ==> elements_end(lexemes_of(t@), pos as int, depth as nat) == Some(
            end as int,
        ) && pos < end <= t.len(),
    decreases depth, 1nat,
{
    proof {
        value_end_bounds(lexemes_of(t@), pos as int, depth as nat);
    }
    let mut i: usize = pos;
    loop
        invariant
            pos <= i <= t.len(),
            elements_end(lexemes_of(t@), pos as int, depth as nat) == elements_end(
                lexemes_of(t@),
                i as int,
                depth as nat,
            ),
        decreases t.len() - i,
    {
        let next: usize = match skip_value(t, i, depth) {
            Some(next) => next,
            None => {
                return None;
            },
        };
        if next >= t.len() {
            return None;
        }
        if matches!(t[next], Token::Comma) {
            i = next + 1;
        } else if matches!(t[next], Token::EndArray) {
            return Some(next + 1);
        } else {
            return None;
        }
    }
}

/// Passes over the rest of an object, from its next member on.
fn skip_members(t: &Vec<Token>, pos: usize, depth: usize) -> (r: Option<usize>)
    requires
        pos <= t.len(),
    ensures
        r is Some == members_end(lexemes_of(t@), pos as int, depth as nat) is Some,
        r matches Some(end) ==> members_end(lexemes_of(t@), pos as int, depth as nat) == Some(
            end as int,
        ) && pos < end <= t.len(),
    decreases depth, 1nat,
{
    proof {
        value_end_bounds(lexemes_of(t@), pos as int, depth as nat);
    }
    let mut i: usize = pos;
    loop
        invariant
            pos <= i <= t.len(),
            members_end(lexemes_of(t@), pos as int, depth as nat) == members_end(
                lexemes_of(t@),
                i as int,
                depth as nat,
            ),
        decreases t.len() - i,
    {
        if t.len() - i < 2 || !matches!(t[i], Token::Text(_)) || !matches!(t[i + 1], Token::Colon) {
            return None;
        }
        let next: usize = match skip_value(t, i + 2, depth) {
            Some(next) => next,
            None => {
                return None;
            },
        };
        if next >= t.len() {
            return None;
        }
        if matches!(t[next], Token::Comma) {
            i = next + 1;
        } else if matches!(t[next], Token::EndObject) {
            return Some(next + 1);
        } else {
            return None;
        }
    }
}

/// The key of a record's label.
pub open spec fn key_name() -> Seq<char> {
    seq!['n', 'a', 'm', 'e']
}

/// The key of a record's completion flag.
pub open spec fn key_completed() -> Seq<char> {
    seq!['c', 'o', 'm', 'p', 'l', 'e', 't', 'e', 'd']
}

/// The key of the document's array of records.
pub open spec fn key_tasks() -> Seq<char> {
    seq!['t', 'a', 's', 'k', 's']
}

/// The task that a record's fields make: the label must be there and
/// must not be blank; a flag that is not there counts as `false`.
pub open spec fn task_of(name: Option<Seq<char>>, completed: Option<bool>) -> Option<TaskView> {
    match name {
        Some(n) => if is_blank(n) {
            None
        } else {
            Some(
                TaskView {
                    name: n,
                    completed: match completed {
                        Some(b) => b,
                        None => false,
                    },
                },
            )
        },
        None => None,
    }
}

/// The record whose next member starts at `pos`, given the fields read
/// so far, and the position behind its closing brace. A field that
/// comes twice, a label that is no string and a flag that is no boolean
/// are errors.
pub open spec fn field_at(
    t: Seq<Lexeme>,
    pos: int,
    name: Option<Seq<char>>,
    completed: Option<bool>,
) -> Option<(TaskView, int)>
    decreases t.len() - pos, 1nat,
{
    if 0 <= pos && pos + 2 < t.len() && t[pos] is Text && t[pos + 1] == Lexeme::Colon {
        let key = t[pos]->Text_0;
        if key == key_name() {
            if name is None && t[pos + 2] is Text {
                field_next(t, pos + 3, Some(t[pos + 2]->Text_0), completed)
            } else {
                None
            }
        } else if key == key_completed() {
            if completed is None && (t[pos + 2] == Lexeme::True || t[pos + 2] == Lexeme::False) {
                field_next(t, pos + 3, name, Some(t[pos + 2] == Lexeme::True))
            } else {
                None
            }
        } else {
            match value_end(t, pos + 2, MAX_DEPTH as nat) {
                Some(next) => if pos < next <= t.len() {
                    field_next(t, next, name, completed)
                } else {
                    None
                },
                None => None,
            }
        }
    } else {
        None
    }
}

/// What follows a member of a record at `pos`: a comma and the next
/// member, or the closing brace.
pub open spec fn field_next(
    t: Seq<Lexeme>,
    pos: int,
    name: Option<Seq<char>>,
    completed: Option<bool>,
) -> Option<(TaskView, int)>
    decreases t.len() - pos, 0nat,
{
    if !(0 <= pos < t.len()) {
        None
    } else if t[pos] == Lexeme::Comma {
        field_at(t, pos + 1, name, completed)
    } else if t[pos] == Lexeme::EndObject {
        match task_of(name, completed) {
            Some(task) => Some((task, pos + 1)),
            None => None,
        }
    } else {
        None
    }
}

/// The record that starts at `pos` with its opening brace, and the
/// position behind its closing brace.
pub open spec fn record_at(t: Seq<Lexeme>, pos: int) -> Option<(TaskView, int)> {
    if 0 <= pos < t.len() && t[pos] == Lexeme::BeginObject {
        field_at(t, pos + 1, None, None)
    } else {
        None
    }
}

/// A record ends behind its start and within the tokens, and its label
/// is not blank.
pub proof fn field_at_bounds(
    t: Seq<Lexeme>,
    pos: int,
    name: Option<Seq<char>>,
    completed: Option<bool>,
)
    ensures
        field_at(t, pos, name, completed) matches Some((task, end)) ==> pos < end <= t.len()
            && !is_blank(task.name),
        field_next(t, pos, name, completed) matches Some((task, end)) ==> pos < end <= t.len()
            && !is_blank(task.name),
    decreases t.len() - pos,
{
    if 0 <= pos < t.len() {
        field_at_bounds(t, pos + 1, name, completed);
        if pos + 2 < t.len() {
            if t[pos + 2] is Text {
                field_at_bounds(t, pos + 3, Some(t[pos + 2]->Text_0), completed);
            }
            field_at_bounds(t, pos + 3, name, Some(t[pos + 2] == Lexeme::True));
            if let Some(next) = value_end(t, pos + 2, MAX_DEPTH as nat) {
                if pos < next <= t.len() {
                    field_at_bounds(t, next, name, completed);
                }
            }
        }
    }
}

/// Tests a key for that of a record's label.
fn is_name_key(k: &Vec<char>) -> (b: bool)
    ensures
        b == (k@ == key_name()),
{
    let b = k.len() == 4 && k[0] == 'n' && k[1] == 'a' && k[2] == 'm' && k[3] == 'e';
    proof {
        if b {
            assert(k@ =~= key_name());
        } else if k.len() == 4 {
            assert(key_name()[0] == 'n' && key_name()[1] == 'a' && key_name()[2] == 'm'
                && key_name()[3] == 'e');
        }
    }
    b
}

/// Tests a key for that of a record's completion flag.
fn is_completed_key(k: &Vec<char>) -> (b: bool)
    ensures
        b == (k@ == key_completed()),
{
    let b = k.len() == 9 && k[0] == 'c' && k[1] == 'o' && k[2] == 'm' && k[3] == 'p' && k[4] == 'l'
        && k[5] == 'e' && k[6] == 't' && k[7] == 'e' && k[8] == 'd';
    proof {
        let w = key_completed();
        if b {
            assert(k@ =~= w);
        } else if k.len() == 9 {
            assert(w[0] == 'c' && w[1] == 'o' && w[2] == 'm' && w[3] == 'p' && w[4] == 'l' && w[5]
                == 'e' && w[6] == 't' && w[7] == 'e' && w[8] == 'd');
        }
    }
    b
}

/// Tests a key for that of the document's array of records.
fn is_tasks_key(k: &Vec<char>) -> (b: bool)
    ensures
        b == (k@ == key_tasks()),
{
    let b = k.len() == 5 && k[0] == 't' && k[1] == 'a' && k[2] == 's' && k[3] == 'k' && k[4] == 's';
    proof {
        let w = key_tasks();
        if b {
            assert(k@ =~= w);
        } else if k.len() == 5 {
            assert(w[0] == 't' && w[1] == 'a' && w[2] == 's' && w[3] == 'k' && w[4] == 's');
        }
    }
    b
}

/// The label that the token at `at` holds, if a position is given.
spec fn label_at(t: Seq<Lexeme>, at: Option<usize>) -> Option<Seq<char>> {
    match at {
        Some(k) => Some(t[k as int]->Text_0),
        None => None,
    }
}

/// Reads the record that starts at `pos`.
fn parse_record(t: &Vec<Token>, pos: usize) -> (r: Option<(Task, usize)>)
    requires
        pos <= t.len(),
    ensures
        r is Some == record_at(lexemes_of(t@), pos as int) is Some,
        r matches Some((task, end)) ==> record_at(lexemes_of(t@), pos as int) == Some(
            (task@, end as int),
        ) && pos < end <= t.len() && !is_blank(task@.name),
{
    if pos >= t.len() || !matches!(t[pos], Token::BeginObject) {
        return None;
    }
    let ghost lx = lexemes_of(t@);
    let mut i: usize = pos + 1;
    let mut name_at: Option<usize> = None;
    let mut completed: Option<bool> = None;
    loop
        invariant
            lx == lexemes_of(t@),
            pos < i <= t.len(),
            name_at matches Some(k) ==> k < t.len() && lx[k as int] is Text,
            record_at(lx, pos as int) == field_at(lx, i as int, label_at(lx, name_at), completed),
        decreases t.len() - i,
    {
        if t.len() - i < 3 || !matches!(t[i + 1], Token::Colon) {
            return None;
        }
        let next: usize = match &t[i] {
            Token::Text(key) => {
                if is_name_key(key) {
                    if name_at.is_some() || !matches!(t[i + 2], Token::Text(_)) {
                        return None;
                    }
                    name_at = Some(i + 2);
                    i + 3
                } else if is_completed_key(key) {
                    if completed.is_some() {
                        return None;
                    }
                    match &t[i + 2] {
                        Token::True => {
                            completed = Some(true);
                        },
                        Token::False => {
                            completed = Some(false);
                        },
                        _ => {
                            return None;
                        },
                    }
                    i + 3
                } else {
                    match skip_value(t, i + 2, MAX_DEPTH) {
                        Some(next) => next,
                        None => {
                            return None;
                        },
                    }
                }
            },
            _ => {
                return None;
            },
        };
        if next >= t.len() {
            return None;
        }
        if matches!(t[next], Token::Comma) {
            i = next + 1;
        } else if matches!(t[next], Token::EndObject) {
            let k: usize = match name_at {
                Some(k) => k,
                None => {
                    return None;
                },
            };
            let flag: bool = match completed {
                Some(b) => b,
                None => false,
            };
            return match &t[k] {
                Token::Text(label) => match Task::restore(string_of(label), flag) {
                    Some(task) => Some((task, next + 1)),
                    None => None,
                },
                _ => None,
            };
        } else {
            return None;
        }
    }
}

/// A list of tasks with `head` put in front of it.
pub open spec fn with_front(head: Seq<TaskView>, rest: Option<(Seq<TaskView>, int)>) -> Option<
    (Seq<TaskView>, int),
> {
    match rest {
        Some((tail, end)) => Some((head + tail, end)),
        None => None,
    }
}

/// The records of the array whose next record starts at `pos`, and the
/// position behind the array's closing bracket.
pub open spec fn records_at(t: Seq<Lexeme>, pos: int) -> Option<(Seq<TaskView>, int)>
    decreases t.len() - pos,
{
    match record_at(t, pos) {
        Some((task, next)) => if pos < next < t.len() {
            if t[next] == Lexeme::Comma {
                with_front(seq![task], records_at(t, next + 1))
            } else if t[next] == Lexeme::EndArray {
                Some((seq![task], next + 1))
            } else {
                None
            }
        } else {
            None
        },
        None => None,
    }
}

/// The records of the array that starts at `pos` with its opening
/// bracket, and the position behind its closing bracket.
pub open spec fn array_at(t: Seq<Lexeme>, pos: int) -> Option<(Seq<TaskView>, int)> {
    if 0 <= pos && pos + 1 < t.len() && t[pos] == Lexeme::BeginArray {
        if t[pos + 1] == Lexeme::EndArray {
            Some((Seq::<TaskView>::empty(), pos + 2))
        } else {
            records_at(t, pos + 1)
        }
    } else {
        None
    }
}

/// An array of records ends behind its start and within the tokens, and
/// none of its labels is blank.
pub proof fn records_at_bounds(t: Seq<Lexeme>, pos: int)
    ensures
        records_at(t, pos) matches Some((tasks, end)) ==> pos < end <= t.len() && names_valid(
            tasks,
        ),
    decreases t.len() - pos,
{
    if let Some((task, next)) = record_at(t, pos) {
        field_at_bounds(t, pos + 1, None, None);
        if pos < next < t.len() && t[next] == Lexeme::Comma {
            records_at_bounds(t, next + 1);
            if let Some((tail, end)) = records_at(t, next + 1) {
                assert forall|i: int| 0 <= i < (seq![task] + tail).len() implies !is_blank(
                    #[trigger] (seq![task] + tail)[i].name,
                ) by {
                    if i > 0 {
                        assert((seq![task] + tail)[i] == tail[i - 1]);
                    }
                }
            }
        }
    }
}

/// Putting a task behind the head is putting it before the rest.
proof fn with_front_push(head: Seq<TaskView>, task: TaskView, rest: Option<(Seq<TaskView>, int)>)
    ensures
        with_front(head, with_front(seq![task], rest)) == with_front(head.push(task), rest),
        head + seq![task] == head.push(task),
{
    if let Some((tail, end)) = rest {
        assert(head + (seq![task] + tail) =~= head.push(task) + tail);
    }
    assert(head + seq![task] =~= head.push(task));
}

/// Reads the array of records that starts at `pos`.
fn parse_array(t: &Vec<Token>, pos: usize) -> (r: Option<(Vec<Task>, usize)>)
    requires
        pos <= t.len(),
    ensures
        r is Some == array_at(lexemes_of(t@), pos as int) is Some,
        r matches Some((tasks, end)) ==> array_at(lexemes_of(t@), pos as int) == Some(
            (views_of(tasks@), end as int),
        ) && pos < end <= t.len() && names_valid(views_of(tasks@)),
{
    if t.len() - pos < 2 || !matches!(t[pos], Token::BeginArray) {
        return None;
    }
    let mut acc: Vec<Task> = Vec::new();
    if matches!(t[pos + 1], Token::EndArray) {
        assert(views_of(acc@) =~= Seq::<TaskView>::empty());
        return Some((acc, pos + 2));
    }
    let ghost lx = lexemes_of(t@);
    let mut i: usize = pos + 1;
    proof {
        if let Some((tail, end)) = records_at(lx, i as int) {
            assert(views_of(acc@) + tail =~= tail);
        }
    }
    loop
        invariant
            lx == lexemes_of(t@),
            pos < i <= t.len(),
            names_valid(views_of(acc@)),
            array_at(lx, pos as int) == with_front(views_of(acc@), records_at(lx, i as int)),
        decreases t.len() - i,
    {
        let (task, next) = match parse_record(t, i) {
            Some(found) => found,
            None => {
                return None;
            },
        };
        if next >= t.len() {
            return None;
        }
        proof {
            with_front_push(views_of(acc@), task@, records_at(lx, next + 1));
            assert(views_of(acc@).push(task@) =~= views_of(acc@.push(task)));
        }
        if matches!(t[next], Token::Comma) {
            acc.push(task);
            i = next + 1;
        } else if matches!(t[next], Token::EndArray) {
            acc.push(task);
            return Some((acc, next + 1));
        } else {
            return None;
        }
    }
}

/// The tasks of the document whose next member starts at `pos`, given
/// the array read so far, and the position behind the document's
/// closing brace. An array of tasks that comes twice is an error.
pub open spec fn entry_at(t: Seq<Lexeme>, pos: int, tasks: Option<Seq<TaskView>>) -> Option<
    (Seq<TaskView>, int),
>
    decreases t.len() - pos, 1nat,
{
    if 0 <= pos && pos + 2 < t.len() && t[pos] is Text && t[pos + 1] == Lexeme::Colon {
        if t[pos]->Text_0 == key_tasks() {
            if tasks is None {
                match array_at(t, pos + 2) {
                    Some((found, next)) => if pos < next <= t.len() {
                        entry_next(t, next, Some(found))
                    } else {
                        None
                    },
                    None => None,
                }
            } else {
                None
            }
        } else {
            match value_end(t, pos + 2, MAX_DEPTH as nat) {
                Some(next) => if pos < next <= t.len() {
                    entry_next(t, next, tasks)
                } else {
                    None
                },
                None => None,
            }
        }
    } else {
        None
    }
}

/// What follows a member of the document at `pos`: a comma and the next
/// member, or the closing brace. A document without an array of tasks
/// is an error.
pub open spec fn entry_next(t: Seq<Lexeme>, pos: int, tasks: Option<Seq<TaskView>>) -> Option<
    (Seq<TaskView>, int),
>
    decreases t.len() - pos, 0nat,
{
    if !(0 <= pos < t.len()) {
        None
    } else if t[pos] == Lexeme::Comma {
        entry_at(t, pos + 1, tasks)
    } else if t[pos] == Lexeme::EndObject {
        match tasks {
            Some(found) => Some((found, pos + 1)),
            None => None,
        }
    } else {
        None
    }
}

/// The tasks of the document that the tokens write, or nothing where
/// they write no such document. Nothing may follow the document.
pub open spec fn document(t: Seq<Lexeme>) -> Option<Seq<TaskView>> {
    if t.len() > 0 && t[0] == Lexeme::BeginObject {
        match entry_at(t, 1, None) {
            Some((tasks, end)) => if end == t.len() {
                Some(tasks)
            } else {
                None
            },
            None => None,
        }
    } else {
        None
    }
}

/// The tasks of a document have labels that are not blank.
pub proof fn entry_at_valid(t: Seq<Lexeme>, pos: int, tasks: Option<Seq<TaskView>>)
    requires
        tasks matches Some(found) ==> names_valid(found),
    ensures
        entry_at(t, pos, tasks) matches Some((found, _)) ==> names_valid(found),
        entry_next(t, pos, tasks) matches Some((found, _)) ==> names_valid(found),
    decreases t.len() - pos,
{
    if 0 <= pos < t.len() {
        entry_at_valid(t, pos + 1, tasks);
        if pos + 2 < t.len() {
            if let Some((found, next)) = array_at(t, pos + 2) {
                records_at_bounds(t, pos + 3);
                if pos < next <= t.len() {
                    entry_at_valid(t, next, Some(found));
                }
            }
            if let Some(next) = value_end(t, pos + 2, MAX_DEPTH as nat) {
                if pos < next <= t.len() {
                    entry_at_valid(t, next, tasks);
                }
            }
        }
    }
}

/// The tasks of a document have labels that are not blank.
pub proof fn document_valid(t: Seq<Lexeme>)
    ensures
        document(t) matches Some(tasks) ==> names_valid(tasks),
{
    entry_at_valid(t, 1, None);
}

/// Reads the tokens as a document of tasks. Nothing comes back exactly
/// where they write no such document.
pub fn parse_document(t: &Vec<Token>) -> (r: Option<Vec<Task>>)
    ensures
        r is Some == document(lexemes_of(t@)) is Some,
        r matches Some(tasks) ==> document(lexemes_of(t@)) == Some(views_of(tasks@))
            && names_valid(views_of(tasks@)),
{
    if t.len() == 0 || !matches!(t[0], Token::BeginObject) {
        return None;
    }
    let ghost lx = lexemes_of(t@);
    let mut i: usize = 1;
    let mut tasks: Option<Vec<Task>> = None;
    loop
        invariant
            lx == lexemes_of(t@),
            0 < i <= t.len(),
            lx[0] == Lexeme::BeginObject,
            tasks matches Some(found) ==> names_valid(views_of(found@)),
            entry_at(lx, 1, None) == entry_at(
                lx,
                i as int,
                match tasks {
                    Some(found) => Some(views_of(found@)),
                    None => None,
                },
            ),
        decreases t.len() - i,
    {
        if t.len() - i < 3 || !matches!(t[i + 1], Token::Colon) {
            return None;
        }
        let next: usize = match &t[i] {
            Token::Text(key) => {
                if is_tasks_key(key) {
                    if tasks.is_some() {
                        return None;
                    }
                    match parse_array(t, i + 2) {
                        Some((found, next)) => {
                            tasks = Some(found);
                            next
                        },
                        None => {
                            return None;
                        },
                    }
                } else {
                    match skip_value(t, i + 2, MAX_DEPTH) {
                        Some(next) => next,
                        None => {
                            return None;
                        },
                    }
                }
            },
            _ => {
                return None;
            },
        };
        if next >= t.len() {
            return None;
        }
        if matches!(t[next], Token::Comma) {
            i = next + 1;
        } else if matches!(t[next], Token::EndObject) {
            if next + 1 != t.len() {
                return None;
            }
            return tasks;
        } else {
            return None;
        }
    }
}

} // verus!
