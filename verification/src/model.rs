//! Values, mathematically, and the tokens that write them.
//!
//! A value is a tree: a literal, a number, a string, an array of values
//! or an object of members. The laws say that the grammar passes over
//! the tokens of exactly those values that nest no deeper than it is
//! allowed to go.

use crate::grammar::{elements_end, members_end, value_end};
use crate::lexer::Lexeme;
use crate::text::{has_at, has_at_split};
use vstd::prelude::*;

verus! {

/// A value as a tree. A number carries no value.
pub enum Json {
    Null,
    Bool(bool),
    Number,
    Text(Seq<char>),
    Array(Seq<Json>),
    Object(Seq<(Seq<char>, Json)>),
}

/// Whether the arrays and objects of the value nest at most `depth`
/// deep.
pub open spec fn fits(v: Json, depth: nat) -> bool
    decreases v,
{
    match v {
        Json::Array(vs) => depth > 0 && forall|i: int|
            0 <= i < vs.len() ==> fits(#[trigger] vs[i], (depth - 1) as nat),
        Json::Object(ms) => depth > 0 && forall|i: int|
            0 <= i < ms.len() ==> fits((#[trigger] ms[i]).1, (depth - 1) as nat),
        _ => true,
    }
}

/// The tokens that write the value.
pub open spec fn value_tokens(v: Json) -> Seq<Lexeme>
    decreases v, 0nat,
{
    match v {
        Json::Null => seq![Lexeme::Null],
        Json::Bool(b) => if b {
            seq![Lexeme::True]
        } else {
            seq![Lexeme::False]
        },
        Json::Number => seq![Lexeme::Number],
        Json::Text(s) => seq![Lexeme::Text(s)],
        Json::Array(vs) => if vs.len() == 0 {
            seq![Lexeme::BeginArray, Lexeme::EndArray]
        } else {
            seq![Lexeme::BeginArray] + elements_tokens(vs)
        },
        Json::Object(ms) => if ms.len() == 0 {
            seq![Lexeme::BeginObject, Lexeme::EndObject]
        } else {
            seq![Lexeme::BeginObject] + members_tokens(ms)
        },
    }
}

/// The tokens that write the elements of an array, which is not empty,
/// and its closing bracket.
pub open spec fn elements_tokens(vs: Seq<Json>) -> Seq<Lexeme>
    decreases vs, 1nat,
{
    if vs.len() == 0 {
        Seq::<Lexeme>::empty()
    } else if vs.len() == 1 {
        value_tokens(vs[0]) + seq![Lexeme::EndArray]
    } else {
        value_tokens(vs[0]) + seq![Lexeme::Comma] + elements_tokens(vs.drop_first())
    }
}

/// The tokens that write the members of an object, which is not empty,
/// and its closing brace.
pub open spec fn members_tokens(ms: Seq<(Seq<char>, Json)>) -> Seq<Lexeme>
    decreases ms, 1nat,
{
    if ms.len() == 0 {
        Seq::<Lexeme>::empty()
    } else if ms.len() == 1 {
        seq![Lexeme::Text(ms[0].0), Lexeme::Colon] + value_tokens(ms[0].1) + seq![
            Lexeme::EndObject,
        ]
    } else {
        seq![Lexeme::Text(ms[0].0), Lexeme::Colon] + value_tokens(ms[0].1) + seq![Lexeme::Comma]
            + members_tokens(ms.drop_first())
    }
}

/// Whether each value of the sequence fits the depth.
pub open spec fn all_fit(vs: Seq<Json>, depth: nat) -> bool {
    forall|i: int| 0 <= i < vs.len() ==> fits(#[trigger] vs[i], depth)
}

/// Whether the value of each member of the sequence fits the depth.
pub open spec fn all_members_fit(ms: Seq<(Seq<char>, Json)>, depth: nat) -> bool {
    forall|i: int| 0 <= i < ms.len() ==> fits((#[trigger] ms[i]).1, depth)
}

/// The tokens of a value are not empty, and the first of them opens a
/// value: it is no comma, no colon and no closing mark.
pub proof fn value_tokens_start(v: Json)
    ensures
        value_tokens(v).len() > 0,
        value_tokens(v)[0] != Lexeme::Comma,
        value_tokens(v)[0] != Lexeme::Colon,
        value_tokens(v)[0] != Lexeme::EndArray,
        value_tokens(v)[0] != Lexeme::EndObject,
{
}

/// Passing over the tokens of a value ends behind them where the value
/// fits the depth, and fails where it does not.
pub proof fn value_end_of_tokens(t: Seq<Lexeme>, pos: int, v: Json, depth: nat)
    requires
        has_at(t, pos, value_tokens(v)),
    ensures
        value_end(t, pos, depth) == if fits(v, depth) {
            Some(pos + value_tokens(v).len())
        } else {
            None
        },
    decreases v, 0nat,
{
    let w = value_tokens(v);
    value_tokens_start(v);
    assert(t[pos] == w[0]);
    match v {
        Json::Array(vs) => {
            if vs.len() == 0 {
                assert(t[pos + 1] == w[1]);
            } else if depth > 0 {
                let tail = elements_tokens(vs);
                has_at_split(t, pos, seq![Lexeme::BeginArray], tail);
                value_tokens_start(vs[0]);
                elements_tokens_start(vs);
                assert(t[pos + 1] == tail[0]);
                elements_end_of_tokens(t, pos + 1, vs, (depth - 1) as nat);
            }
        },
        Json::Object(ms) => {
            if ms.len() == 0 {
                assert(t[pos + 1] == w[1]);
            } else if depth > 0 {
                let tail = members_tokens(ms);
                has_at_split(t, pos, seq![Lexeme::BeginObject], tail);
                assert(t[pos + 1] == tail[0]);
                members_end_of_tokens(t, pos + 1, ms, (depth - 1) as nat);
            }
        },
        _ => {},
    }
}

/// The tokens of the elements of an array start with the tokens of its
/// first element.
pub proof fn elements_tokens_start(vs: Seq<Json>)
    requires
        vs.len() > 0,
    ensures
        elements_tokens(vs).len() > value_tokens(vs[0]).len(),
        elements_tokens(vs)[0] == value_tokens(vs[0])[0],
{
    value_tokens_start(vs[0]);
}

/// Passing over the tokens of the elements of an array ends behind its
/// closing bracket where each element fits the depth, and fails where
/// one does not.
pub proof fn elements_end_of_tokens(t: Seq<Lexeme>, pos: int, vs: Seq<Json>, depth: nat)
    requires
        vs.len() > 0,
        has_at(t, pos, elements_tokens(vs)),
    ensures
        elements_end(t, pos, depth) == if all_fit(vs, depth) {
            Some(pos + elements_tokens(vs).len())
        } else {
            None
        },
    decreases vs, 1nat,
{
    let first = value_tokens(vs[0]);
    let rest = vs.drop_first();
    value_tokens_start(vs[0]);
    if vs.len() == 1 {
        let close = seq![Lexeme::EndArray];
        has_at_split(t, pos, first, close);
        assert(t[pos + first.len()] == close[0]);
        value_end_of_tokens(t, pos, vs[0], depth);
    } else {
        let comma = seq![Lexeme::Comma];
        let tail = elements_tokens(rest);
        assert(elements_tokens(vs) =~= first + (comma + tail));
        has_at_split(t, pos, first, comma + tail);
        has_at_split(t, pos + first.len(), comma, tail);
        assert(t[pos + first.len()] == comma[0]);
        value_end_of_tokens(t, pos, vs[0], depth);
        elements_end_of_tokens(t, pos + first.len() + 1, rest, depth);
        if all_fit(vs, depth) {
            assert forall|i: int| 0 <= i < rest.len() implies fits(#[trigger] rest[i], depth) by {
                assert(rest[i] == vs[i + 1]);
            }
        } else if fits(vs[0], depth) {
            if all_fit(rest, depth) {
                assert forall|i: int| 0 <= i < vs.len() implies fits(#[trigger] vs[i], depth) by {
                    if i > 0 {
                        assert(vs[i] == rest[i - 1]);
                    }
                }
            }
        }
    }
}

/// Passing over the tokens of the members of an object ends behind its
/// closing brace where the value of each member fits the depth, and
/// fails where one does not.
pub proof fn members_end_of_tokens(
    t: Seq<Lexeme>,
    pos: int,
    ms: Seq<(Seq<char>, Json)>,
    depth: nat,
)
    requires
        ms.len() > 0,
        has_at(t, pos, members_tokens(ms)),
    ensures
        members_end(t, pos, depth) == if all_members_fit(ms, depth) {
            Some(pos + members_tokens(ms).len())
        } else {
            None
        },
    decreases ms, 1nat,
{
    let head = seq![Lexeme::Text(ms[0].0), Lexeme::Colon];
    let first = value_tokens(ms[0].1);
    let rest = ms.drop_first();
    value_tokens_start(ms[0].1);
    if ms.len() == 1 {
        let close = seq![Lexeme::EndObject];
        assert(members_tokens(ms) =~= head + (first + close));
        has_at_split(t, pos, head, first + close);
        has_at_split(t, pos + 2, first, close);
        assert(t[pos] == head[0] && t[pos + 1] == head[1]);
        assert(t[pos + 2 + first.len()] == close[0]);
        value_end_of_tokens(t, pos + 2, ms[0].1, depth);
    } else {
        let comma = seq![Lexeme::Comma];
        let tail = members_tokens(rest);
        assert(members_tokens(ms) =~= head + (first + (comma + tail)));
        has_at_split(t, pos, head, first + (comma + tail));
        has_at_split(t, pos + 2, first, comma + tail);
        has_at_split(t, pos + 2 + first.len(), comma, tail);
        assert(t[pos] == head[0] && t[pos + 1] == head[1]);
        assert(t[pos + 2 + first.len()] == comma[0]);
        value_end_of_tokens(t, pos + 2, ms[0].1, depth);
        members_end_of_tokens(t, pos + 2 + first.len() + 1, rest, depth);
        if all_members_fit(ms, depth) {
            assert forall|i: int| 0 <= i < rest.len() implies fits(
                (#[trigger] rest[i]).1,
                depth,
            ) by {
                assert(rest[i] == ms[i + 1]);
            }
        } else if fits(ms[0].1, depth) {
            if all_members_fit(rest, depth) {
                assert forall|i: int| 0 <= i < ms.len() implies fits(
                    (#[trigger] ms[i]).1,
                    depth,
                ) by {
                    if i > 0 {
                        assert(ms[i] == rest[i - 1]);
                    }
                }
            }
        }
    }
}

} // verus!
