//! The text that persists a list of tasks.
//!
//! The text is written token by token, without gaps: an object whose
//! member `tasks` is an array with one record for each task, in order,
//! and each record an object with the members `name` and `completed`.

use crate::grammar::{key_completed, key_name, key_tasks};
use crate::lexer::{Lexeme, mark};
use crate::task::{Task, TaskView, views_of};
use crate::text::push_char;
use vstd::prelude::*;

verus! {

/// The hexadecimal digit, in lower case, of a number below sixteen.
pub open spec fn hex_digit(n: int) -> char {
    if n < 10 {
        (0x30 + n) as char
    } else {
        (0x57 + n) as char
    }
}

/// How one character of a string is written: a quote, a backslash and
/// the control characters are escaped, every other character stands for
/// itself.
pub open spec fn escaped_char(c: char) -> Seq<char> {
    if c == '"' {
        seq!['\\', '"']
    } else if c == '\\' {
        seq!['\\', '\\']
    } else if c == '\n' {
        seq!['\\', 'n']
    } else if c == '\r' {
        seq!['\\', 'r']
    } else if c == '\t' {
        seq!['\\', 't']
    } else if c == '\u{8}' {
        seq!['\\', 'b']
    } else if c == '\u{c}' {
        seq!['\\', 'f']
    } else if (c as u32) < 0x20 {
        seq!['\\', 'u', '0', '0', hex_digit((c as int) / 16), hex_digit((c as int) % 16)]
    } else {
        seq![c]
    }
}

/// How the characters of a string are written, one after the other.
pub open spec fn escaped(s: Seq<char>) -> Seq<char>
    decreases s.len(),
{
    if s.len() == 0 {
        Seq::<char>::empty()
    } else {
        escaped_char(s[0]) + escaped(s.drop_first())
    }
}

/// A string as it is written: escaped, between quotes.
pub open spec fn quoted(s: Seq<char>) -> Seq<char> {
    seq!['"'] + escaped(s) + seq!['"']
}

/// A token as it is written. A number, which holds no value, is written
/// as a zero.
pub open spec fn token_text(l: Lexeme) -> Seq<char> {
    match l {
        Lexeme::BeginObject => seq!['{'],
        Lexeme::EndObject => seq!['}'],
        Lexeme::BeginArray => seq!['['],
        Lexeme::EndArray => seq![']'],
        Lexeme::Colon => seq![':'],
        Lexeme::Comma => seq![','],
        Lexeme::True => seq!['t', 'r', 'u', 'e'],
        Lexeme::False => seq!['f', 'a', 'l', 's', 'e'],
        Lexeme::Null => seq!['n', 'u', 'l', 'l'],
        Lexeme::Number => seq!['0'],
        Lexeme::Text(s) => quoted(s),
    }
}

/// A sequence of tokens as it is written, without gaps.
pub open spec fn tokens_text(ls: Seq<Lexeme>) -> Seq<char>
    decreases ls.len(),
{
    if ls.len() == 0 {
        Seq::<char>::empty()
    } else {
        token_text(ls[0]) + tokens_text(ls.drop_first())
    }
}

/// The token that writes a completion flag.
pub open spec fn flag(b: bool) -> Lexeme {
    if b {
        Lexeme::True
    } else {
        Lexeme::False
    }
}

/// The tokens of the record of one task.
pub open spec fn record_tokens(task: TaskView) -> Seq<Lexeme> {
    seq![
        Lexeme::BeginObject,
        Lexeme::Text(key_name()),
        Lexeme::Colon,
        Lexeme::Text(task.name),
        Lexeme::Comma,
        Lexeme::Text(key_completed()),
        Lexeme::Colon,
        flag(task.completed),
        Lexeme::EndObject,
    ]
}

/// The tokens of the records of a list of tasks, with a comma between
/// each two.
pub open spec fn records_tokens(tasks: Seq<TaskView>) -> Seq<Lexeme>
    decreases tasks.len(),
{
    if tasks.len() == 0 {
        Seq::<Lexeme>::empty()
    } else if tasks.len() == 1 {
        record_tokens(tasks[0])
    } else {
        record_tokens(tasks[0]) + seq![Lexeme::Comma] + records_tokens(tasks.drop_first())
    }
}

/// The tokens of the document that holds a list of tasks.
pub open spec fn document_tokens(tasks: Seq<TaskView>) -> Seq<Lexeme> {
    seq![Lexeme::BeginObject, Lexeme::Text(key_tasks()), Lexeme::Colon, Lexeme::BeginArray]
        + records_tokens(tasks) + seq![Lexeme::EndArray, Lexeme::EndObject]
}

/// The text that persists a list of tasks.
pub open spec fn encoded(tasks: Seq<TaskView>) -> Seq<char> {
    tokens_text(document_tokens(tasks))
}

/// Writing two sequences of tokens one after the other is writing
/// their concatenation.
pub proof fn tokens_text_concat(a: Seq<Lexeme>, b: Seq<Lexeme>)
    ensures
        tokens_text(a + b) == tokens_text(a) + tokens_text(b),
    decreases a.len(),
{
    if a.len() == 0 {
        assert(a + b =~= b);
        assert(tokens_text(a) + tokens_text(b) =~= tokens_text(b));
    } else {
        assert((a + b).drop_first() =~= a.drop_first() + b);
        tokens_text_concat(a.drop_first(), b);
        assert(token_text(a[0]) + (tokens_text(a.drop_first()) + tokens_text(b)) =~= (token_text(
            a[0],
        ) + tokens_text(a.drop_first())) + tokens_text(b));
    }
}

/// Writing one token is writing the sequence that holds it alone.
pub proof fn tokens_text_single(l: Lexeme)
    ensures
        tokens_text(seq![l]) == token_text(l),
{
    assert(seq![l].drop_first() =~= Seq::<Lexeme>::empty());
    assert(token_text(l) + tokens_text(Seq::<Lexeme>::empty()) =~= token_text(l));
}

/// Writing a string character by character is writing its
/// concatenation.
pub proof fn escaped_concat(a: Seq<char>, b: Seq<char>)
    ensures
        escaped(a + b) == escaped(a) + escaped(b),
    decreases a.len(),
{
    if a.len() == 0 {
        assert(a + b =~= b);
        assert(escaped(a) + escaped(b) =~= escaped(b));
    } else {
        assert((a + b).drop_first() =~= a.drop_first() + b);
        escaped_concat(a.drop_first(), b);
        assert(escaped_char(a[0]) + (escaped(a.drop_first()) + escaped(b)) =~= (escaped_char(a[0])
            + escaped(a.drop_first())) + escaped(b));
    }
}

/// Writing a string of one character is writing that character.
pub proof fn escaped_single(c: char)
    ensures
        escaped(seq![c]) == escaped_char(c),
{
    assert(seq![c].drop_first() =~= Seq::<char>::empty());
    assert(escaped_char(c) + escaped(Seq::<char>::empty()) =~= escaped_char(c));
}

/// Writing a token behind others is writing it behind their text.
pub proof fn tokens_text_push(ls: Seq<Lexeme>, l: Lexeme)
    ensures
        tokens_text(ls.push(l)) == tokens_text(ls) + token_text(l),
{
    assert(ls.push(l) =~= ls + seq![l]);
    tokens_text_concat(ls, seq![l]);
    tokens_text_single(l);
}

/// Writing one token more of a sequence is writing it behind the text
/// of those before it.
pub proof fn tokens_text_take(ls: Seq<Lexeme>, k: int)
    requires
        0 <= k < ls.len(),
    ensures
        tokens_text(ls.take(k + 1)) == tokens_text(ls.take(k)) + token_text(ls[k]),
{
    assert(ls.take(k + 1) =~= ls.take(k).push(ls[k]));
    tokens_text_push(ls.take(k), ls[k]);
}

/// The hexadecimal digit of a number below sixteen.
fn hex_digit_char(n: u8) -> (c: char)
    requires
        n < 16,
    ensures
        c == hex_digit(n as int),
{
    if n < 10 {
        (0x30 + n) as char
    } else {
        (0x57 + n) as char
    }
}

/// Writes one character of a string.
fn write_escaped_char(out: &mut String, c: char)
    ensures
        final(out)@ == old(out)@ + escaped_char(c),
{
    let n: u32 = c as u32;
    if c == '"' || c == '\\' {
        push_char(out, '\\');
        push_char(out, c);
    } else if c == '\n' {
        push_char(out, '\\');
        push_char(out, 'n');
    } else if c == '\r' {
        push_char(out, '\\');
        push_char(out, 'r');
    } else if c == '\t' {
        push_char(out, '\\');
        push_char(out, 't');
    } else if c == '\u{8}' {
        push_char(out, '\\');
        push_char(out, 'b');
    } else if c == '\u{c}' {
        push_char(out, '\\');
        push_char(out, 'f');
    } else if n < 0x20 {
        push_char(out, '\\');
        push_char(out, 'u');
        push_char(out, '0');
        push_char(out, '0');
        push_char(out, hex_digit_char((n / 16) as u8));
        push_char(out, hex_digit_char((n % 16) as u8));
    } else {
        push_char(out, c);
    }
    assert(out@ =~= old(out)@ + escaped_char(c));
}

/// Writes a string token.
fn write_text(out: &mut String, s: &str)
    ensures
        final(out)@ == old(out)@ + token_text(Lexeme::Text(s@)),
{
    push_char(out, '"');
    let ghost start = out@;
    assert(escaped(s@.take(0)) =~= Seq::<char>::empty());
    for c in it: s.chars()
        invariant
            it.seq() == s@,
            out@ == start + escaped(s@.take(it.index())),
    {
        proof {
            let i = it.index();
            assert(s@.take(i + 1) =~= s@.take(i) + seq![c]);
            escaped_concat(s@.take(i), seq![c]);
            escaped_single(c);
        }
        write_escaped_char(out, c);
    }
    assert(s@.take(s@.len() as int) =~= s@);
    push_char(out, '"');
    assert(out@ =~= old(out)@ + quoted(s@));
}

/// Writes a punctuation mark.
fn write_mark(out: &mut String, c: char)
    requires
        mark(c) is Some,
    ensures
        final(out)@ == old(out)@ + token_text(mark(c)->0),
{
    push_char(out, c);
    assert(out@ =~= old(out)@ + token_text(mark(c)->0));
}

/// Writes a completion flag.
fn write_flag(out: &mut String, b: bool)
    ensures
        final(out)@ == old(out)@ + token_text(flag(b)),
{
    if b {
        push_char(out, 't');
        push_char(out, 'r');
        push_char(out, 'u');
        push_char(out, 'e');
    } else {
        push_char(out, 'f');
        push_char(out, 'a');
        push_char(out, 'l');
        push_char(out, 's');
        push_char(out, 'e');
    }
    assert(out@ =~= old(out)@ + token_text(flag(b)));
}

/// Writes the record of one task.
fn write_record(out: &mut String, task: &Task)
    ensures
        final(out)@ == old(out)@ + tokens_text(record_tokens(task@)),
{
    let ghost ls = record_tokens(task@);
    proof {
        reveal_strlit("name");
        reveal_strlit("completed");
        assert("name"@ =~= key_name());
        assert("completed"@ =~= key_completed());
        assert(ls.take(0) =~= Seq::<Lexeme>::empty());
        assert(old(out)@ + tokens_text(ls.take(0)) =~= old(out)@);
        tokens_text_take(ls, 0);
        tokens_text_take(ls, 1);
        tokens_text_take(ls, 2);
        tokens_text_take(ls, 3);
        tokens_text_take(ls, 4);
        tokens_text_take(ls, 5);
        tokens_text_take(ls, 6);
        tokens_text_take(ls, 7);
        tokens_text_take(ls, 8);
        assert(ls.take(9) =~= ls);
    }
    write_mark(out, '{');
    assert(out@ =~= old(out)@ + tokens_text(ls.take(1)));
    write_text(out, "name");
    assert(out@ =~= old(out)@ + tokens_text(ls.take(2)));
    write_mark(out, ':');
    assert(out@ =~= old(out)@ + tokens_text(ls.take(3)));
    write_text(out, task.name());
    assert(out@ =~= old(out)@ + tokens_text(ls.take(4)));
    write_mark(out, ',');
    assert(out@ =~= old(out)@ + tokens_text(ls.take(5)));
    write_text(out, "completed");
    assert(out@ =~= old(out)@ + tokens_text(ls.take(6)));
    write_mark(out, ':');
    assert(out@ =~= old(out)@ + tokens_text(ls.take(7)));
    write_flag(out, task.completed());
    assert(out@ =~= old(out)@ + tokens_text(ls.take(8)));
    write_mark(out, '}');
    assert(out@ =~= old(out)@ + tokens_text(ls.take(9)));
}

/// The tokens that open the document, up to the first record.
pub open spec fn opening() -> Seq<Lexeme> {
    seq![Lexeme::BeginObject, Lexeme::Text(key_tasks()), Lexeme::Colon, Lexeme::BeginArray]
}

/// The tokens that close the document, behind the last record.
pub open spec fn closing() -> Seq<Lexeme> {
    seq![Lexeme::EndArray, Lexeme::EndObject]
}

/// The records of a list start with the record of its first task; a
/// comma and the records of the others follow where there are others.
pub proof fn records_tokens_unfold(tasks: Seq<TaskView>, i: int)
    requires
        0 <= i < tasks.len(),
    ensures
        i + 1 == tasks.len() ==> records_tokens(tasks.skip(i)) == record_tokens(tasks[i]),
        i + 1 < tasks.len() ==> records_tokens(tasks.skip(i)) == record_tokens(tasks[i]) + seq![
            Lexeme::Comma,
        ] + records_tokens(tasks.skip(i + 1)),
{
    assert(tasks.skip(i).drop_first() =~= tasks.skip(i + 1));
}

/// Writes the text that persists the tasks given.
pub fn encode(tasks: &Vec<Task>) -> (out: String)
    ensures
        out@ == encoded(views_of(tasks@)),
{
    let ghost ts = views_of(tasks@);
    let mut out: String = String::new();
    proof {
        reveal_strlit("tasks");
        assert("tasks"@ =~= key_tasks());
        tokens_text_take(opening(), 0);
        tokens_text_take(opening(), 1);
        tokens_text_take(opening(), 2);
        tokens_text_take(opening(), 3);
        assert(opening().take(4) =~= opening());
        assert(opening().take(0) =~= Seq::<Lexeme>::empty());
        tokens_text_concat(opening(), records_tokens(ts) + closing());
        assert(opening() + (records_tokens(ts) + closing()) =~= document_tokens(ts));
        assert(ts.skip(0) =~= ts);
    }
    write_mark(&mut out, '{');
    assert(out@ =~= tokens_text(opening().take(1)));
    write_text(&mut out, "tasks");
    assert(out@ =~= tokens_text(opening().take(2)));
    write_mark(&mut out, ':');
    assert(out@ =~= tokens_text(opening().take(3)));
    write_mark(&mut out, '[');
    assert(out@ =~= tokens_text(opening().take(4)));
    let mut i: usize = 0;
    while i < tasks.len()
        invariant
            i <= tasks.len(),
            ts == views_of(tasks@),
            encoded(ts) == out@ + tokens_text(records_tokens(ts.skip(i as int)) + closing()),
        decreases tasks.len() - i,
    {
        let ghost before = out@;
        let ghost rest = records_tokens(ts.skip(i + 1)) + closing();
        proof {
            records_tokens_unfold(ts, i as int);
        }
        write_record(&mut out, &tasks[i]);
        if i + 1 < tasks.len() {
            write_mark(&mut out, ',');
            proof {
                let rec = record_tokens(ts[i as int]);
                assert(records_tokens(ts.skip(i as int)) + closing() =~= rec + (seq![
                    Lexeme::Comma,
                ] + rest));
                tokens_text_concat(rec, seq![Lexeme::Comma] + rest);
                tokens_text_concat(seq![Lexeme::Comma], rest);
                tokens_text_single(Lexeme::Comma);
                assert(out@ + tokens_text(rest) =~= before + (tokens_text(rec) + (token_text(
                    Lexeme::Comma,
                ) + tokens_text(rest))));
            }
        } else {
            proof {
                let rec = record_tokens(ts[i as int]);
                assert(rest =~= closing());
                assert(records_tokens(ts.skip(i as int)) + closing() =~= rec + rest);
                tokens_text_concat(rec, rest);
                assert(out@ + tokens_text(rest) =~= before + (tokens_text(rec) + tokens_text(
                    rest,
                )));
            }
        }
        i = i + 1;
    }
    proof {
        assert(records_tokens(ts.skip(i as int)) + closing() =~= closing());
        tokens_text_take(closing(), 0);
        tokens_text_take(closing(), 1);
        assert(closing().take(2) =~= closing());
        assert(closing().take(0) =~= Seq::<Lexeme>::empty());
    }
    let ghost before = out@;
    write_mark(&mut out, ']');
    write_mark(&mut out, '}');
    assert(out@ =~= before + tokens_text(closing()));
    out
}

} // verus!
