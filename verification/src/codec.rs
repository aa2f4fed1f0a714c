//! Reading the persisted text back, and the laws that tie reading to
//! writing.
//!
//! A text is read in two steps: it is cut into tokens, and the tokens
//! are read as the document of a list of tasks. A text that fails
//! either step persists nothing; loading it gives the empty list.

use crate::grammar::{
    array_at, document, document_valid, entry_at, entry_next, field_at, field_next,
    key_completed, key_name, key_tasks, parse_document, record_at, records_at,
};
use crate::lexer::{
    Lexeme, char_of_its_code, escape_at, hex4_at, hex_value, is_gap, lex, text_end, token_at,
    tokenize, tokens_from, unicode_escape_at,
};
use crate::model::{Json, value_tokens};
use crate::schema::{document_of_value, tasks_in};
use crate::task::{TaskStore, TaskView, names_valid};
use crate::text::{chars_of, has_at, has_at_split, is_blank};
use crate::writer::{
    closing, document_tokens, encode, encoded, escaped, escaped_char, hex_digit, opening,
    record_tokens, records_tokens, token_text, tokens_text,
};
use vstd::prelude::*;

verus! {

/// The key under which the text of the list is stored.
pub const STORAGE_KEY: &'static str = "tasks";

/// Why a text was not read as a list of tasks.
#[derive(Clone, Copy, Debug, PartialEq, Eq, Structural)]
pub enum DecodeError {
    /// The text holds something that is neither a token nor a gap
    /// between tokens.
    Lexical,
    /// The tokens do not write the document of a list of tasks.
    Structure,
}

/// The tasks that a text persists, or the reason for which it persists
/// none.
pub open spec fn decoded(s: Seq<char>) -> Result<Seq<TaskView>, DecodeError> {
    match lex(s) {
        Some(t) => match document(t) {
            Some(tasks) => Ok(tasks),
            None => Err(DecodeError::Structure),
        },
        None => Err(DecodeError::Lexical),
    }
}

/// The tasks that the stored value holds: those that it persists, and
/// none where nothing is stored or what is stored cannot be read.
pub open spec fn loaded(stored: Option<Seq<char>>) -> Seq<TaskView> {
    match stored {
        Some(s) => match decoded(s) {
            Ok(tasks) => tasks,
            Err(_) => Seq::<TaskView>::empty(),
        },
        None => Seq::<TaskView>::empty(),
    }
}

/// The characters of a stored value, if there is one.
pub open spec fn stored_text(stored: Option<&str>) -> Option<Seq<char>> {
    match stored {
        Some(s) => Some(s@),
        None => None,
    }
}

/// Reads a text as a list of tasks.
pub fn decode(text: &str) -> (r: Result<TaskStore, DecodeError>)
    ensures
        match r {
            Ok(store) => decoded(text@) == Ok::<Seq<TaskView>, DecodeError>(store@),
            Err(e) => decoded(text@) == Err::<Seq<TaskView>, DecodeError>(e),
        },
{
    let chars = chars_of(text);
    match tokenize(&chars) {
        Some(tokens) => match parse_document(&tokens) {
            Some(tasks) => Ok(TaskStore::from_tasks(tasks)),
            None => Err(DecodeError::Structure),
        },
        None => Err(DecodeError::Lexical),
    }
}

/// The store that the stored value gives: the tasks that it persists,
/// and no tasks where nothing is stored or what is stored cannot be
/// read.
pub fn load(stored: Option<&str>) -> (store: TaskStore)
    ensures
        store@ == loaded(stored_text(stored)),
{
    match stored {
        Some(text) => match decode(text) {
            Ok(store) => store,
            Err(_) => TaskStore::new(),
        },
        None => TaskStore::new(),
    }
}

/// Writes the text that persists the tasks of a store.
pub fn save(store: &TaskStore) -> (text: String)
    ensures
        text@ == encoded(store@),
{
    encode(store.list())
}

/// Reading what was written for a list of tasks gives the list back:
/// the same tasks, in the same order.
pub proof fn decode_inverts_encode(tasks: Seq<TaskView>)
    requires
        names_valid(tasks),
    ensures
        decoded(encoded(tasks)) == Ok::<Seq<TaskView>, DecodeError>(tasks),
{
    let t = document_tokens(tasks);
    lex_inverts_tokens_text(t);
    document_of_tokens(tasks);
}

/// Loading what was saved for a list of tasks restores the list: the
/// same tasks, in the same order.
pub proof fn load_restores_saved(tasks: Seq<TaskView>)
    requires
        names_valid(tasks),
    ensures
        loaded(Some(encoded(tasks))) == tasks,
{
    decode_inverts_encode(tasks);
}

/// Reading the text that writes a value gives the tasks that the value
/// is the document of, and a structure error where it is the document
/// of none.
pub proof fn decode_reads_values(v: Json)
    ensures
        decoded(tokens_text(value_tokens(v))) == match tasks_in(v) {
            Some(tasks) => Ok::<Seq<TaskView>, DecodeError>(tasks),
            None => Err::<Seq<TaskView>, DecodeError>(DecodeError::Structure),
        },
{
    lex_inverts_tokens_text(value_tokens(v));
    document_of_value(v);
}

/// Lists that are written as the same text are the same list.
pub proof fn encoding_tells_lists_apart(a: Seq<TaskView>, b: Seq<TaskView>)
    requires
        names_valid(a),
        names_valid(b),
        encoded(a) == encoded(b),
    ensures
        a == b,
{
    decode_inverts_encode(a);
    decode_inverts_encode(b);
}

/// Loading, saving what was loaded and loading again gives the same
/// list as loading once, whatever was stored at first.
pub proof fn load_save_load(stored: Option<Seq<char>>)
    ensures
        loaded(Some(encoded(loaded(stored)))) == loaded(stored),
{
    loaded_is_valid(stored);
    load_restores_saved(loaded(stored));
}

/// Whatever is stored, what is loaded is a list whose names are valid;
/// where nothing is stored it is the empty list.
pub proof fn loaded_is_valid(stored: Option<Seq<char>>)
    ensures
        names_valid(loaded(stored)),
        stored is None ==> loaded(stored) == Seq::<TaskView>::empty(),
{
    if let Some(s) = stored {
        if let Some(t) = lex(s) {
            document_valid(t);
        }
    }
}

/// Cutting the text of a sequence of tokens gives the tokens back.
pub proof fn lex_inverts_tokens_text(ls: Seq<Lexeme>)
    ensures
        lex(tokens_text(ls)) == Some(ls),
{
    tokens_from_text(tokens_text(ls), 0, ls);
}

/// Reading the tokens that were written for a list of tasks gives the
/// list back.
pub proof fn document_of_tokens(tasks: Seq<TaskView>)
    requires
        names_valid(tasks),
    ensures
        document(document_tokens(tasks)) == Some(tasks),
{
    let t = document_tokens(tasks);
    let r = records_tokens(tasks);
    let n = r.len() as int;
    records_tokens_shape(tasks);
    assert(t.len() == n + 6);
    assert(t[0] == opening()[0] && t[1] == opening()[1] && t[2] == opening()[2] && t[3]
        == opening()[3]);
    assert(t[4 + n] == closing()[0] && t[5 + n] == closing()[1]);
    assert(key_tasks().len() == 5);
    if tasks.len() == 0 {
        assert(tasks =~= Seq::<TaskView>::empty());
        assert(array_at(t, 3) == Some((tasks, 5int)));
    } else {
        assert(t[4] == r[0]);
        assert forall|k: int| 0 <= k < n implies t[4 + k] == #[trigger] r[k] by {}
        records_at_of_tokens(t, 4, tasks);
        assert(array_at(t, 3) == Some((tasks, 5 + n)));
    }
    assert(entry_next(t, 5 + n, Some(tasks)) == Some((tasks, 6 + n)));
    assert(entry_at(t, 1, None) == entry_next(t, 5 + n, Some(tasks)));
}

/// The digit that writes a number below sixteen has that number as its
/// value.
pub proof fn hex_value_of_digit(n: int)
    requires
        0 <= n < 16,
    ensures
        hex_value(hex_digit(n)) == Some(n),
{
}

/// Scanning what was written for a string gives the string back.
pub proof fn text_end_of_escaped(s: Seq<char>, pos: int, name: Seq<char>)
    requires
        has_at(s, pos, escaped(name) + seq!['"']),
    ensures
        text_end(s, pos) == Some((name, pos + escaped(name).len() + 1)),
    decreases name.len(),
{
    let w = escaped(name) + seq!['"'];
    if name.len() == 0 {
        assert(w[0] == '"');
        assert(name =~= Seq::<char>::empty());
    } else {
        let c = name[0];
        let rest = name.drop_first();
        let e = escaped_char(c);
        let tail = escaped(rest) + seq!['"'];
        assert(w =~= e + tail);
        has_at_split(s, pos, e, tail);
        text_end_of_escaped(s, pos + e.len(), rest);
        char_of_its_code(c);
        assert(seq![c] + rest =~= name);
        assert(s[pos] == e[0]);
        if e.len() >= 2 {
            assert(s[pos + 1] == e[1]);
        }
        if e.len() == 6 {
            let n = c as int;
            assert(s[pos + 2] == e[2]);
            assert(s[pos + 3] == e[3]);
            assert(s[pos + 4] == e[4]);
            assert(s[pos + 5] == e[5]);
            hex_value_of_digit(n / 16);
            hex_value_of_digit(n % 16);
            hex_value_of_digit(0);
            assert(hex4_at(s, pos + 2) == Some(n));
            assert(unicode_escape_at(s, pos + 2) == Some((c, pos + 6)));
            assert(escape_at(s, pos + 1) == Some((c, pos + 6)));
        } else if e.len() == 2 {
            assert(escape_at(s, pos + 1) == Some((c, pos + 2)));
        }
    }
}

/// Whether a number that ends before `pos` cannot go on there: the
/// text ends, or what stands there starts neither a fraction nor an
/// exponent.
pub open spec fn number_stops(s: Seq<char>, pos: int) -> bool {
    !(0 <= pos < s.len() && (s[pos] == '.' || s[pos] == 'e' || s[pos] == 'E'))
}

/// What is written for a token is not empty and starts with a
/// character that is no gap and at which a number stops.
pub proof fn token_text_start(l: Lexeme)
    ensures
        token_text(l).len() > 0,
        !is_gap(token_text(l)[0]),
        token_text(l)[0] != '.' && token_text(l)[0] != 'e' && token_text(l)[0] != 'E',
{
}

/// Scanning what was written for a token gives the token back, where a
/// number stops behind what was written for it.
pub proof fn token_at_of_text(s: Seq<char>, pos: int, l: Lexeme)
    requires
        has_at(s, pos, token_text(l)),
        l == Lexeme::Number ==> number_stops(s, pos + 1),
    ensures
        token_at(s, pos) == Some((l, pos + token_text(l).len())),
{
    let w = token_text(l);
    assert(s[pos] == w[0]);
    match l {
        Lexeme::Text(name) => {
            let tail = escaped(name) + seq!['"'];
            assert(w =~= seq!['"'] + tail);
            has_at_split(s, pos, seq!['"'], tail);
            text_end_of_escaped(s, pos + 1, name);
        },
        Lexeme::True => {
            assert(s[pos + 1] == w[1] && s[pos + 2] == w[2] && s[pos + 3] == w[3]);
        },
        Lexeme::False => {
            assert(s[pos + 1] == w[1] && s[pos + 2] == w[2] && s[pos + 3] == w[3] && s[pos + 4]
                == w[4]);
        },
        Lexeme::Null => {
            assert(s[pos + 1] == w[1] && s[pos + 2] == w[2] && s[pos + 3] == w[3]);
        },
        _ => {},
    }
}

/// Cutting what was written for a sequence of tokens gives the tokens
/// back, where the text ends with them.
pub proof fn tokens_from_text(s: Seq<char>, pos: int, ls: Seq<Lexeme>)
    requires
        has_at(s, pos, tokens_text(ls)),
        pos + tokens_text(ls).len() == s.len(),
    ensures
        tokens_from(s, pos) == Some(ls),
    decreases ls.len(),
{
    if ls.len() == 0 {
        assert(ls =~= Seq::<Lexeme>::empty());
    } else {
        let first = token_text(ls[0]);
        let rest = ls.drop_first();
        let after = tokens_text(rest);
        has_at_split(s, pos, first, after);
        token_text_start(ls[0]);
        assert(s[pos] == first[0]);
        if rest.len() > 0 {
            token_text_start(rest[0]);
            assert(s[pos + first.len()] == after[0]);
        }
        token_at_of_text(s, pos, ls[0]);
        tokens_from_text(s, pos + first.len(), rest);
        assert(seq![ls[0]] + rest =~= ls);
    }
}

/// Reading the tokens that were written for a task gives the task
/// back.
pub proof fn record_at_of_tokens(t: Seq<Lexeme>, pos: int, task: TaskView)
    requires
        !is_blank(task.name),
        has_at(t, pos, record_tokens(task)),
    ensures
        record_at(t, pos) == Some((task, pos + 9)),
{
    let w = record_tokens(task);
    let name = Some(task.name);
    let done = Some(task.completed);
    assert(w.len() == 9);
    assert(t[pos] == w[0] && t[pos + 1] == w[1] && t[pos + 2] == w[2] && t[pos + 3] == w[3]);
    assert(t[pos + 4] == w[4] && t[pos + 5] == w[5] && t[pos + 6] == w[6] && t[pos + 7] == w[7]);
    assert(t[pos + 8] == w[8]);
    assert(key_name().len() == 4 && key_completed().len() == 9);
    assert(field_next(t, pos + 8, name, done) == Some((task, pos + 9)));
    assert(field_at(t, pos + 5, name, None) == field_next(t, pos + 8, name, done));
    assert(field_next(t, pos + 4, name, None) == field_at(t, pos + 5, name, None));
    assert(field_at(t, pos + 1, None, None) == field_next(t, pos + 4, name, None));
}

/// The records of a list that is not empty start with an opening
/// brace.
pub proof fn records_tokens_shape(tasks: Seq<TaskView>)
    ensures
        tasks.len() > 0 ==> records_tokens(tasks).len() >= 9 && records_tokens(tasks)[0]
            == Lexeme::BeginObject,
    decreases tasks.len(),
{
    if tasks.len() > 1 {
        records_tokens_shape(tasks.drop_first());
    }
}

/// Reading the tokens that were written for a list of tasks, which is
/// not empty, gives the list back.
pub proof fn records_at_of_tokens(t: Seq<Lexeme>, pos: int, tasks: Seq<TaskView>)
    requires
        tasks.len() > 0,
        names_valid(tasks),
        has_at(t, pos, records_tokens(tasks)),
        pos + records_tokens(tasks).len() < t.len(),
        t[pos + records_tokens(tasks).len()] == Lexeme::EndArray,
    ensures
        records_at(t, pos) == Some((tasks, pos + records_tokens(tasks).len() + 1)),
    decreases tasks.len(),
{
    let first = record_tokens(tasks[0]);
    let rest = tasks.drop_first();
    assert(first.len() == 9);
    if tasks.len() == 1 {
        record_at_of_tokens(t, pos, tasks[0]);
        assert(seq![tasks[0]] =~= tasks);
    } else {
        let comma = seq![Lexeme::Comma];
        let tail = records_tokens(rest);
        assert(records_tokens(tasks) =~= first + (comma + tail));
        has_at_split(t, pos, first, comma + tail);
        has_at_split(t, pos + 9, comma, tail);
        assert(t[pos + 9] == comma[0]);
        record_at_of_tokens(t, pos, tasks[0]);
        assert forall|i: int| 0 <= i < rest.len() implies !is_blank(#[trigger] rest[i].name) by {
            assert(rest[i] == tasks[i + 1]);
        }
        records_at_of_tokens(t, pos + 10, rest);
        assert(seq![tasks[0]] + rest =~= tasks);
    }
}

} // verus!
