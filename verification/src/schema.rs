//! What a document holds, told of the value that it writes.
//!
//! The grammar reads tokens from left to right. Here the same reading
//! is told of the value as a tree: which members an object must have
//! to be a record, and which to be the document of a list of tasks. The
//! laws say that the two agree on the tokens of every value, and that
//! members which the reading does not know change nothing.

use crate::grammar::{
    MAX_DEPTH, array_at, document, entry_at, entry_next, field_at, field_next, key_completed,
    key_name, key_tasks, record_at, records_at, task_of,
};
use crate::lexer::Lexeme;
use crate::model::{
    Json, elements_tokens, fits, members_tokens, value_end_of_tokens, value_tokens,
    value_tokens_start,
};
use crate::task::TaskView;
use crate::text::{has_at, has_at_split};
use vstd::prelude::*;

verus! {

/// The fields of a record: its label and its flag, as far as they were
/// found.
pub struct Fields {
    pub name: Option<Seq<char>>,
    pub completed: Option<bool>,
}

/// The fields that the members hold, beside those found before them, or
/// nothing where the members are not those of a record: where a field
/// comes twice, the label is no string, the flag is no boolean, or
/// another member holds a value that nests too deep.
pub open spec fn fields_in(ms: Seq<(Seq<char>, Json)>, found: Fields) -> Option<Fields>
    decreases ms.len(),
{
    if ms.len() == 0 {
        Some(found)
    } else if ms[0].0 == key_name() {
        match ms[0].1 {
            Json::Text(s) => if found.name is None {
                fields_in(ms.drop_first(), Fields { name: Some(s), completed: found.completed })
            } else {
                None
            },
            _ => None,
        }
    } else if ms[0].0 == key_completed() {
        match ms[0].1 {
            Json::Bool(b) => if found.completed is None {
                fields_in(ms.drop_first(), Fields { name: found.name, completed: Some(b) })
            } else {
                None
            },
            _ => None,
        }
    } else if fits(ms[0].1, MAX_DEPTH as nat) {
        fields_in(ms.drop_first(), found)
    } else {
        None
    }
}

/// The task that fields make.
pub open spec fn task_of_fields(fields: Option<Fields>) -> Option<TaskView> {
    match fields {
        Some(f) => task_of(f.name, f.completed),
        None => None,
    }
}

/// The task that a value is the record of, or nothing where it is no
/// record.
pub open spec fn task_in(v: Json) -> Option<TaskView> {
    match v {
        Json::Object(ms) => task_of_fields(fields_in(ms, Fields { name: None, completed: None })),
        _ => None,
    }
}

/// The tasks that the values are the records of, in order, or nothing
/// where one of them is no record.
pub open spec fn tasks_in_all(vs: Seq<Json>) -> Option<Seq<TaskView>>
    decreases vs.len(),
{
    if vs.len() == 0 {
        Some(Seq::<TaskView>::empty())
    } else {
        match (task_in(vs[0]), tasks_in_all(vs.drop_first())) {
            (Some(task), Some(tasks)) => Some(seq![task] + tasks),
            _ => None,
        }
    }
}

/// The tasks that a value is the array of, or nothing where it is no
/// array of records.
pub open spec fn tasks_in_array(v: Json) -> Option<Seq<TaskView>> {
    match v {
        Json::Array(vs) => tasks_in_all(vs),
        _ => None,
    }
}

/// What a reading that ends at `end` hands out.
pub open spec fn read_to<A>(found: Option<A>, end: int) -> Option<(A, int)> {
    match found {
        Some(a) => Some((a, end)),
        None => None,
    }
}

/// What follows the first member of an object: its closing brace, or a
/// comma and the other members.
pub open spec fn after_member(ms: Seq<(Seq<char>, Json)>) -> Seq<Lexeme> {
    if ms.len() == 1 {
        seq![Lexeme::EndObject]
    } else {
        seq![Lexeme::Comma] + members_tokens(ms.drop_first())
    }
}

/// The tokens of the members of an object are the key of the first
/// member, a colon, the tokens of its value, and what follows it.
pub proof fn members_tokens_parts(t: Seq<Lexeme>, pos: int, ms: Seq<(Seq<char>, Json)>)
    requires
        ms.len() > 0,
        has_at(t, pos, members_tokens(ms)),
    ensures
        t[pos] == Lexeme::Text(ms[0].0),
        t[pos + 1] == Lexeme::Colon,
        has_at(t, pos + 2, value_tokens(ms[0].1)),
        has_at(t, pos + 2 + value_tokens(ms[0].1).len(), after_member(ms)),
        members_tokens(ms).len() == 2 + value_tokens(ms[0].1).len() + after_member(ms).len(),
        t[pos + 2] == value_tokens(ms[0].1)[0],
        pos + 2 < t.len(),
{
    let head = seq![Lexeme::Text(ms[0].0), Lexeme::Colon];
    let first = value_tokens(ms[0].1);
    let after = after_member(ms);
    value_tokens_start(ms[0].1);
    assert(members_tokens(ms) =~= head + (first + after));
    has_at_split(t, pos, head, first + after);
    has_at_split(t, pos + 2, first, after);
    assert(t[pos] == head[0] && t[pos + 1] == head[1]);
    assert(t[pos + 2] == first[0]);
}

/// Reading what follows a member of a record is reading its other
/// members.
pub proof fn field_next_of_members(
    t: Seq<Lexeme>,
    pos: int,
    ms: Seq<(Seq<char>, Json)>,
    found: Fields,
)
    requires
        ms.len() > 0,
        has_at(t, pos, after_member(ms)),
    ensures
        field_next(t, pos, found.name, found.completed) == read_to(
            task_of_fields(fields_in(ms.drop_first(), found)),
            pos + after_member(ms).len(),
        ),
    decreases ms.len(), 0nat,
{
    let after = after_member(ms);
    let rest = ms.drop_first();
    assert(t[pos] == after[0]);
    if ms.len() > 1 {
        has_at_split(t, pos, seq![Lexeme::Comma], members_tokens(rest));
        field_at_of_members(t, pos + 1, rest, found);
    }
}

/// Reading the tokens of the members of an object as the fields of a
/// record gives the task that the members make.
pub proof fn field_at_of_members(
    t: Seq<Lexeme>,
    pos: int,
    ms: Seq<(Seq<char>, Json)>,
    found: Fields,
)
    requires
        ms.len() > 0,
        has_at(t, pos, members_tokens(ms)),
    ensures
        field_at(t, pos, found.name, found.completed) == read_to(
            task_of_fields(fields_in(ms, found)),
            pos + members_tokens(ms).len(),
        ),
    decreases ms.len(), 1nat,
{
    let key = ms[0].0;
    let value = ms[0].1;
    let first = value_tokens(value);
    members_tokens_parts(t, pos, ms);
    if key == key_name() {
        if let Json::Text(s) = value {
            field_next_of_members(
                t,
                pos + 3,
                ms,
                Fields { name: Some(s), completed: found.completed },
            );
        }
    } else if key == key_completed() {
        if let Json::Bool(b) = value {
            field_next_of_members(t, pos + 3, ms, Fields { name: found.name, completed: Some(b) });
        }
    } else {
        value_end_of_tokens(t, pos + 2, value, MAX_DEPTH as nat);
        field_next_of_members(t, pos + 2 + first.len(), ms, found);
    }
}

/// Reading the tokens of a value as a record gives the task that the
/// value is the record of.
pub proof fn record_at_of_value(t: Seq<Lexeme>, pos: int, v: Json)
    requires
        has_at(t, pos, value_tokens(v)),
    ensures
        record_at(t, pos) == read_to(task_in(v), pos + value_tokens(v).len()),
{
    let w = value_tokens(v);
    value_tokens_start(v);
    assert(t[pos] == w[0]);
    if let Json::Object(ms) = v {
        if ms.len() == 0 {
            assert(t[pos + 1] == w[1]);
        } else {
            has_at_split(t, pos, seq![Lexeme::BeginObject], members_tokens(ms));
            field_at_of_members(t, pos + 1, ms, Fields { name: None, completed: None });
        }
    }
}

/// The tokens of the elements of an array are the tokens of its first
/// element and what follows it: the closing bracket, or a comma and the
/// other elements.
pub proof fn elements_tokens_parts(t: Seq<Lexeme>, pos: int, vs: Seq<Json>)
    requires
        vs.len() > 0,
        has_at(t, pos, elements_tokens(vs)),
    ensures
        has_at(t, pos, value_tokens(vs[0])),
        pos + value_tokens(vs[0]).len() < t.len(),
        vs.len() == 1 ==> t[pos + value_tokens(vs[0]).len()] == Lexeme::EndArray
            && elements_tokens(vs).len() == value_tokens(vs[0]).len() + 1,
        vs.len() > 1 ==> t[pos + value_tokens(vs[0]).len()] == Lexeme::Comma && has_at(
            t,
            pos + value_tokens(vs[0]).len() + 1,
            elements_tokens(vs.drop_first()),
        ) && elements_tokens(vs).len() == value_tokens(vs[0]).len() + 1 + elements_tokens(
            vs.drop_first(),
        ).len(),
{
    let first = value_tokens(vs[0]);
    if vs.len() == 1 {
        let close = seq![Lexeme::EndArray];
        has_at_split(t, pos, first, close);
        assert(t[pos + first.len()] == close[0]);
    } else {
        let comma = seq![Lexeme::Comma];
        let tail = elements_tokens(vs.drop_first());
        assert(elements_tokens(vs) =~= first + (comma + tail));
        has_at_split(t, pos, first, comma + tail);
        has_at_split(t, pos + first.len(), comma, tail);
        assert(t[pos + first.len()] == comma[0]);
    }
}

/// Reading the tokens of the elements of an array as records gives the
/// tasks that the elements are the records of.
pub proof fn records_at_of_elements(t: Seq<Lexeme>, pos: int, vs: Seq<Json>)
    requires
        vs.len() > 0,
        has_at(t, pos, elements_tokens(vs)),
    ensures
        records_at(t, pos) == read_to(tasks_in_all(vs), pos + elements_tokens(vs).len()),
    decreases vs.len(),
{
    let rest = vs.drop_first();
    elements_tokens_parts(t, pos, vs);
    value_tokens_start(vs[0]);
    record_at_of_value(t, pos, vs[0]);
    if vs.len() == 1 {
        if let Some(task) = task_in(vs[0]) {
            assert(seq![task] + Seq::<TaskView>::empty() =~= seq![task]);
        }
    } else {
        records_at_of_elements(t, pos + value_tokens(vs[0]).len() + 1, rest);
    }
}

/// Reading the tokens of a value as an array of records gives the tasks
/// that the value is the array of.
pub proof fn array_at_of_value(t: Seq<Lexeme>, pos: int, v: Json)
    requires
        has_at(t, pos, value_tokens(v)),
    ensures
        array_at(t, pos) == read_to(tasks_in_array(v), pos + value_tokens(v).len()),
{
    let w = value_tokens(v);
    value_tokens_start(v);
    assert(t[pos] == w[0]);
    if let Json::Array(vs) = v {
        if vs.len() == 0 {
            assert(t[pos + 1] == w[1]);
        } else {
            let tail = elements_tokens(vs);
            has_at_split(t, pos, seq![Lexeme::BeginArray], tail);
            value_tokens_start(vs[0]);
            elements_tokens_parts(t, pos + 1, vs);
            assert(t[pos + 1] == value_tokens(vs[0])[0]);
            records_at_of_elements(t, pos + 1, vs);
        }
    } else {
        if w.len() > 1 {
            assert(t[pos + 1] == w[1]);
        }
    }
}

/// The list that the members of a document hold, beside the one found
/// before them, or nothing where the members are not those of a
/// document: where the array of tasks comes twice or is no array of
/// records, or another member holds a value that nests too deep.
pub open spec fn list_in(ms: Seq<(Seq<char>, Json)>, found: Option<Seq<TaskView>>) -> Option<
    Option<Seq<TaskView>>,
>
    decreases ms.len(),
{
    if ms.len() == 0 {
        Some(found)
    } else if ms[0].0 == key_tasks() {
        match (found, tasks_in_array(ms[0].1)) {
            (None, Some(tasks)) => list_in(ms.drop_first(), Some(tasks)),
            _ => None,
        }
    } else if fits(ms[0].1, MAX_DEPTH as nat) {
        list_in(ms.drop_first(), found)
    } else {
        None
    }
}

/// The list that was found, if the members were read and held one.
pub open spec fn list_of(found: Option<Option<Seq<TaskView>>>) -> Option<Seq<TaskView>> {
    match found {
        Some(Some(tasks)) => Some(tasks),
        _ => None,
    }
}

/// The tasks that a value is the document of, or nothing where it is
/// not the document of a list of tasks.
pub open spec fn tasks_in(v: Json) -> Option<Seq<TaskView>> {
    match v {
        Json::Object(ms) => list_of(list_in(ms, None)),
        _ => None,
    }
}

/// Reading what follows a member of a document is reading its other
/// members.
pub proof fn entry_next_of_members(
    t: Seq<Lexeme>,
    pos: int,
    ms: Seq<(Seq<char>, Json)>,
    found: Option<Seq<TaskView>>,
)
    requires
        ms.len() > 0,
        has_at(t, pos, after_member(ms)),
    ensures
        entry_next(t, pos, found) == read_to(
            list_of(list_in(ms.drop_first(), found)),
            pos + after_member(ms).len(),
        ),
    decreases ms.len(), 0nat,
{
    let after = after_member(ms);
    let rest = ms.drop_first();
    assert(t[pos] == after[0]);
    if ms.len() > 1 {
        has_at_split(t, pos, seq![Lexeme::Comma], members_tokens(rest));
        entry_at_of_members(t, pos + 1, rest, found);
    }
}

/// Reading the tokens of the members of an object as the members of a
/// document gives the list that the members hold.
pub proof fn entry_at_of_members(
    t: Seq<Lexeme>,
    pos: int,
    ms: Seq<(Seq<char>, Json)>,
    found: Option<Seq<TaskView>>,
)
    requires
        ms.len() > 0,
        has_at(t, pos, members_tokens(ms)),
    ensures
        entry_at(t, pos, found) == read_to(
            list_of(list_in(ms, found)),
            pos + members_tokens(ms).len(),
        ),
    decreases ms.len(), 1nat,
{
    let key = ms[0].0;
    let value = ms[0].1;
    let next = pos + 2 + value_tokens(value).len();
    members_tokens_parts(t, pos, ms);
    value_tokens_start(value);
    if key == key_tasks() {
        array_at_of_value(t, pos + 2, value);
        if let Some(tasks) = tasks_in_array(value) {
            entry_next_of_members(t, next, ms, Some(tasks));
        }
    } else {
        value_end_of_tokens(t, pos + 2, value, MAX_DEPTH as nat);
        entry_next_of_members(t, next, ms, found);
    }
}

/// Reading the tokens of a value as a document gives the tasks that
/// the value is the document of.
pub proof fn document_of_value(v: Json)
    ensures
        document(value_tokens(v)) == tasks_in(v),
{
    let t = value_tokens(v);
    value_tokens_start(v);
    if let Json::Object(ms) = v {
        if ms.len() > 0 {
            assert forall|k: int| 0 <= k < members_tokens(ms).len() implies t[1 + k]
                == #[trigger] members_tokens(ms)[k] by {}
            entry_at_of_members(t, 1, ms, None);
        }
    }
}

/// A record without a flag is a task that is not completed.
pub proof fn missing_flag_is_false(name: Seq<char>)
    ensures
        task_in(Json::Object(seq![(key_name(), Json::Text(name))])) == task_of(Some(name), None),
{
    let ms = seq![(key_name(), Json::Text(name))];
    let found = Fields { name: Some(name), completed: None };
    assert(ms.drop_first().len() == 0);
    assert(fields_in(ms.drop_first(), found) == Some(found));
}

/// A member of a record whose key is neither that of the label nor that
/// of the flag is ignored: the record is the same with it and without
/// it, whatever value it holds within the depth.
pub proof fn unknown_field_is_ignored(ms: Seq<(Seq<char>, Json)>, i: int, found: Fields)
    requires
        0 <= i < ms.len(),
        ms[i].0 != key_name(),
        ms[i].0 != key_completed(),
        fits(ms[i].1, MAX_DEPTH as nat),
    ensures
        fields_in(ms, found) == fields_in(ms.remove(i), found),
    decreases ms.len(),
{
    if i == 0 {
        assert(ms.remove(0) =~= ms.drop_first());
    } else {
        let rest = ms.drop_first();
        assert(ms.remove(i).drop_first() =~= rest.remove(i - 1));
        assert(ms.remove(i)[0] == ms[0]);
        assert(rest[i - 1] == ms[i]);
        if ms[0].0 == key_name() {
            if let Json::Text(s) = ms[0].1 {
                unknown_field_is_ignored(
                    rest,
                    i - 1,
                    Fields { name: Some(s), completed: found.completed },
                );
            }
        } else if ms[0].0 == key_completed() {
            if let Json::Bool(b) = ms[0].1 {
                unknown_field_is_ignored(
                    rest,
                    i - 1,
                    Fields { name: found.name, completed: Some(b) },
                );
            }
        } else {
            unknown_field_is_ignored(rest, i - 1, found);
        }
    }
}

/// A member of the document whose key is not that of the array of
/// tasks is ignored: the document holds the same list with it and
/// without it, whatever value it holds within the depth.
pub proof fn unknown_entry_is_ignored(
    ms: Seq<(Seq<char>, Json)>,
    i: int,
    found: Option<Seq<TaskView>>,
)
    requires
        0 <= i < ms.len(),
        ms[i].0 != key_tasks(),
        fits(ms[i].1, MAX_DEPTH as nat),
    ensures
        list_in(ms, found) == list_in(ms.remove(i), found),
    decreases ms.len(),
{
    if i == 0 {
        assert(ms.remove(0) =~= ms.drop_first());
    } else {
        let rest = ms.drop_first();
        assert(ms.remove(i).drop_first() =~= rest.remove(i - 1));
        assert(ms.remove(i)[0] == ms[0]);
        assert(rest[i - 1] == ms[i]);
        if ms[0].0 == key_tasks() {
            if let (None, Some(tasks)) = (found, tasks_in_array(ms[0].1)) {
                unknown_entry_is_ignored(rest, i - 1, Some(tasks));
            }
        } else {
            unknown_entry_is_ignored(rest, i - 1, found);
        }
    }
}

} // verus!
