//! What holds of the stored line format: a stored line read back gives the
//! todo it was written from, and the priority of a todo survives any number
//! of trips through storage.

use super::note::is_hex_name;
use super::{
    decode_dependency_form, decode_line, decode_note_form, decode_plain_form, decode_todo,
    dependency_name_of, empty_list, flat_todo, priority_of_token, split_bracket, todo_suffix,
    TodoView,
};
use crate::text::{
    decimal, first_occurrence, is_digit, is_trimmed, is_whitespace, lemma_decimal,
    lemma_digits_value_nonnegative, lemma_first_occurrence, lemma_first_occurrence_is,
    lemma_trim_end_shape, lemma_trimmed_fixpoint, lemma_trimmed_is_trimmed, occurs_at,
    signed_decimal, split_once, trim_end, trim_start, trimmed,
};
use vstd::prelude::*;

verus! {

/// The priority token of a todo: `-` if it counts as done, then the numeral
/// of its priority.
pub open spec fn token_of(done: bool, priority: int) -> Seq<char> {
    (if done {
        seq!['-']
    } else {
        Seq::empty()
    }) + decimal(priority as nat)
}

/// The separator behind the name of a nested list: `.todo` and a space.
pub open spec fn dependency_mark() -> Seq<char> {
    todo_suffix().push(' ')
}

/// What is left of the name of a nested list without its `.todo`.
pub open spec fn stem_of(dependency_name: Seq<char>) -> Seq<char> {
    dependency_name.take(dependency_name.len() - todo_suffix().len())
}

/// Whether the stored line of the todo gives the same todo when read back:
/// the priority is not negative, the message has no whitespace at either
/// end, a note is named by hexadecimal digits and then the message does not
/// hold `.todo` followed by a space, and a nested list is named by
/// hexadecimal digits and `.todo`.
pub open spec fn reads_back(todo: TodoView) -> bool {
    &&& 0 <= todo.priority <= 127
    &&& is_trimmed(todo.message)
    &&& todo.well_formed()
    &&& todo.note.len() > 0 ==> is_hex_name(todo.note) && first_occurrence(
        todo.message,
        dependency_mark(),
        0,
    ) is None
    &&& todo.has_dependency() ==> todo.dependency_name.len() > todo_suffix().len()
        && is_hex_name(stem_of(todo.dependency_name)) && todo.dependency_name
        == dependency_name_of(stem_of(todo.dependency_name))
}

/// What reading a stored line can tell of a todo: everything but its nested
/// todos, and the done flag as it was written.
pub open spec fn as_stored(todo: TodoView) -> TodoView {
    TodoView { dependencies: empty_list(), done: todo.effective_done(), ..todo }
}

/// A separator whose first character does not occur in `prefix` first
/// occurs in `prefix + separator + tail` right behind `prefix`.
pub proof fn lemma_split_behind_prefix(prefix: Seq<char>, separator: Seq<char>, tail: Seq<char>)
    requires
        separator.len() > 0,
        forall|i: int| 0 <= i < prefix.len() ==> prefix[i] != separator[0],
    ensures
        split_once(prefix + separator + tail, separator) == Some((prefix, tail)),
{
    let text = prefix + separator + tail;
    let at = prefix.len() as int;
    assert(text.subrange(at, at + separator.len()) =~= separator);
    assert forall|k: int| 0 <= k < at implies !occurs_at(text, separator, k) by {
        if occurs_at(text, separator, k) {
            assert(text.subrange(k, k + separator.len())[0] == separator[0]);
            assert(text[k] == prefix[k]);
        }
    }
    lemma_first_occurrence_is(text, separator, 0, at);
    assert(text.take(at) =~= prefix);
    assert(text.skip(at + separator.len()) =~= tail);
}

/// Trimming the end keeps everything up to a character that is not
/// whitespace.
pub proof fn lemma_trim_end_keeps(s: Seq<char>, k: int)
    requires
        0 <= k < s.len(),
        !is_whitespace(s[k]),
    ensures
        trim_end(s).len() > k,
    decreases s.len(),
{
    if is_whitespace(s.last()) {
        lemma_trim_end_keeps(s.drop_last(), k);
    }
}

/// A text that starts with something other than whitespace keeps, when
/// trimmed, everything up to any character that is not whitespace.
pub proof fn lemma_trimmed_keeps(s: Seq<char>, k: int)
    requires
        0 <= k < s.len(),
        !is_whitespace(s[0]),
        !is_whitespace(s[k]),
    ensures
        trimmed(s).len() > k,
        forall|i: int| 0 <= i < trimmed(s).len() ==> trimmed(s)[i] == s[i],
{
    assert(trim_start(s) == s);
    lemma_trim_end_keeps(s, k);
    lemma_trim_end_shape(s);
}

/// The priority token of a done flag and a priority reads back as the two.
pub proof fn lemma_token(done: bool, priority: int)
    requires
        0 <= priority <= 127,
    ensures
        token_of(done, priority).len() > 0,
        trimmed(token_of(done, priority)) == token_of(done, priority),
        priority_of_token(token_of(done, priority)) == Some((done, priority)),
        forall|i: int|
            0 <= i < token_of(done, priority).len() ==> #[trigger] token_of(done, priority)[i]
                != ']' && !is_whitespace(token_of(done, priority)[i]),
{
    let digits = decimal(priority as nat);
    let token = token_of(done, priority);
    lemma_decimal(priority as nat);
    assert forall|i: int| 0 <= i < digits.len() implies #[trigger] digits[i] != ']'
        && !is_whitespace(digits[i]) && digits[i] != '-' by {
        assert(is_digit(digits[i]));
    }
    if done {
        assert(token.drop_first() =~= digits);
        assert(token[0] == '-');
        assert forall|i: int| 0 <= i < token.len() implies #[trigger] token[i] != ']'
            && !is_whitespace(token[i]) by {
            if i > 0 {
                assert(token[i] == digits[i - 1]);
            }
        }
    } else {
        assert(token =~= digits);
    }
    lemma_trimmed_fixpoint(token);
}

/// A text that starts with something other than whitespace and holds a `]`
/// is no priority token, trimmed or not.
pub proof fn lemma_no_token(text: Seq<char>, k: int)
    requires
        0 <= k < text.len(),
        text[k] == ']',
        !is_whitespace(text[0]),
    ensures
        priority_of_token(trimmed(text)) is None,
{
    lemma_trimmed_keeps(text, k);
    let token = trimmed(text);
    assert(token[k] == ']');
    let done = token.len() > 0 && token[0] == '-';
    if done {
        assert(k > 0);
        assert(token.drop_first()[k - 1] == ']');
        assert(!is_digit(token.drop_first()[k - 1]));
    } else {
        assert(!is_digit(token[k]));
    }
}

/// The stored line of a todo, cut behind its bracket: the priority token is
/// found again, and what follows it.
proof fn lemma_bracket(token: Seq<char>, mark: Seq<char>, tail: Seq<char>)
    requires
        mark.len() > 0,
        mark[0] == ']',
        forall|i: int| 0 <= i < token.len() ==> token[i] != ']',
    ensures
        split_bracket(seq!['['] + token + mark + tail, mark) == Some((token, tail)),
{
    let line = seq!['['] + token + mark + tail;
    lemma_split_behind_prefix(Seq::empty(), seq!['['], token + mark + tail);
    assert(Seq::<char>::empty() + seq!['['] + (token + mark + tail) =~= line);
    lemma_split_behind_prefix(token, mark, tail);
}

/// A line whose bracket is closed by `]` and a space has neither of the two
/// forms with an attachment.
proof fn lemma_plain_line_has_no_attachment(token: Seq<char>, message: Seq<char>)
    requires
        token.len() > 0,
        forall|i: int| 0 <= i < token.len() ==> token[i] != ']' && !is_whitespace(token[i]),
    ensures
        decode_dependency_form(seq!['['] + token + seq![']', ' '] + message) is None,
        decode_note_form(seq!['['] + token + seq![']', ' '] + message) is None,
{
    let inner = token + seq![']', ' '] + message;
    let line = seq!['['] + token + seq![']', ' '] + message;
    let mark = seq![']', '>'];
    lemma_split_behind_prefix(Seq::empty(), seq!['['], inner);
    assert(Seq::<char>::empty() + seq!['['] + inner =~= line);
    assert(split_bracket(line, mark) == split_once(inner, mark));
    lemma_first_occurrence(inner, mark, 0);
    match first_occurrence(inner, mark, 0) {
        Some(at) => {
            assert(inner.subrange(at, at + 2)[0] == ']');
            assert(inner.subrange(at, at + 2)[1] == '>');
            if at < token.len() {
                assert(inner[at] == token[at]);
            }
            assert(inner[token.len() as int + 1] == ' ');
            assert(at > token.len());
            let text = inner.take(at);
            assert(text[0] == token[0]);
            assert(text[token.len() as int] == ']');
            lemma_no_token(text, token.len() as int);
        },
        None => {},
    }
}

/// The stored line of a todo, written with the token in one piece.
proof fn lemma_encoded_shape(todo: TodoView)
    requires
        0 <= todo.priority,
    ensures
        todo.encoded() == seq!['['] + token_of(todo.effective_done(), todo.priority) + seq![']']
            + todo.marker() + seq![' '] + todo.message,
{
    assert(signed_decimal(todo.priority) == decimal(todo.priority as nat));
    assert(todo.encoded() =~= seq!['['] + token_of(todo.effective_done(), todo.priority) + seq![
        ']',
    ] + todo.marker() + seq![' '] + todo.message);
}

/// Hexadecimal names hold no whitespace, no `.` and no space.
proof fn lemma_hex_name(name: Seq<char>)
    requires
        is_hex_name(name),
    ensures
        is_trimmed(name),
        trimmed(name) == name,
        forall|i: int|
            0 <= i < name.len() ==> #[trigger] name[i] != '.' && name[i] != ' ' && !is_whitespace(
                name[i],
            ),
{
    assert forall|i: int| 0 <= i < name.len() implies #[trigger] name[i] != '.' && name[i] != ' '
        && !is_whitespace(name[i]) by {
        assert(super::note::is_hex_digit(name[i]));
    }
    assert(!is_whitespace(name[0]));
    assert(!is_whitespace(name.last()));
    lemma_trimmed_fixpoint(name);
}

/// Round trip: the stored line of a todo that `reads_back`, read back, is
/// the todo as it was stored, and that one's stored line is the same line
/// again. This holds of all three stored forms.
pub proof fn lemma_round_trip(todo: TodoView)
    requires
        reads_back(todo),
    ensures
        decode_line(todo.encoded()) == Some(as_stored(todo)),
        as_stored(todo).encoded() == todo.encoded(),
{
    let done = todo.effective_done();
    let token = token_of(done, todo.priority);
    let message = todo.message;
    let line = todo.encoded();
    lemma_encoded_shape(todo);
    lemma_encoded_shape(as_stored(todo));
    lemma_token(done, todo.priority);
    lemma_trimmed_fixpoint(message);
    let flag = (done, todo.priority);
    if todo.has_dependency() {
        let stem = stem_of(todo.dependency_name);
        let rest = stem + dependency_mark() + message;
        lemma_hex_name(stem);
        assert(line =~= seq!['['] + token + seq![']', '>'] + rest);
        lemma_bracket(token, seq![']', '>'], rest);
        lemma_split_behind_prefix(stem, dependency_mark(), message);
        assert(todo.note =~= Seq::<char>::empty());
        assert(decode_dependency_form(line) == Some(
            flat_todo(flag, todo.dependency_name, Seq::empty(), message),
        ));
    } else if todo.note.len() > 0 {
        let note = todo.note;
        let rest = note + seq![' '] + message;
        lemma_hex_name(note);
        assert(line =~= seq!['['] + token + seq![']', '>'] + rest);
        lemma_bracket(token, seq![']', '>'], rest);
        assert(first_occurrence(rest, dependency_mark(), 0) is None) by {
            lemma_first_occurrence(rest, dependency_mark(), 0);
            lemma_first_occurrence(message, dependency_mark(), 0);
            if first_occurrence(rest, dependency_mark(), 0) is Some {
                let at = first_occurrence(rest, dependency_mark(), 0)->0;
                let found = rest.subrange(at, at + 6);
                assert(found[0] == '.');
                if at < note.len() {
                    assert(rest[at] == note[at]);
                } else if at == note.len() {
                    assert(rest[at] == ' ');
                } else {
                    let inside = at - note.len() - 1;
                    assert(message.subrange(inside, inside + 6) =~= found);
                    assert(occurs_at(message, dependency_mark(), inside));
                }
            }
        }
        assert(decode_dependency_form(line) is None);
        lemma_split_behind_prefix(note, seq![' '], message);
        assert(todo.dependency_name =~= Seq::<char>::empty());
        assert(decode_note_form(line) == Some(flat_todo(flag, Seq::empty(), note, message)));
    } else {
        assert(line =~= seq!['['] + token + seq![']', ' '] + message);
        lemma_plain_line_has_no_attachment(token, message);
        lemma_bracket(token, seq![']', ' '], message);
        assert(todo.note =~= Seq::<char>::empty());
        assert(todo.dependency_name =~= Seq::<char>::empty());
        assert(decode_plain_form(line) == Some(
            flat_todo(flag, Seq::empty(), Seq::empty(), message),
        ));
    }
}

/// What every todo read from a stored line is like: its priority is
/// between 0 and 127, its message has no whitespace at either end, it has at
/// most one attachment, and the name of that attachment starts with
/// something other than whitespace.
pub proof fn lemma_decoded_shape(line: Seq<char>)
    requires
        decode_line(line) is Some,
    ensures
        ({
            let todo = decode_line(line)->0;
            &&& 0 <= todo.priority <= 127
            &&& is_trimmed(todo.message)
            &&& todo.well_formed()
            &&& todo.dependencies == empty_list()
            &&& todo.note.len() > 0 ==> !is_whitespace(todo.note[0])
            &&& todo.has_dependency() ==> !is_whitespace(todo.dependency_name[0])
        }),
{
    let todo = decode_line(line)->0;
    if decode_dependency_form(line) is Some {
        let (token, rest) = split_bracket(line, seq![']', '>'])->0;
        let (stem, message) = split_once(rest, dependency_mark())->0;
        lemma_token_range(trimmed(token));
        lemma_trimmed_is_trimmed(message);
        lemma_trimmed_is_trimmed(stem);
        assert(todo.dependency_name[0] == trimmed(stem)[0]);
    } else if decode_note_form(line) is Some {
        let (token, rest) = split_bracket(line, seq![']', '>'])->0;
        let (hash, message) = split_once(rest, seq![' '])->0;
        lemma_token_range(trimmed(token));
        lemma_trimmed_is_trimmed(message);
        lemma_trimmed_is_trimmed(hash);
    } else {
        let (token, message) = split_bracket(line, seq![']', ' '])->0;
        lemma_token_range(trimmed(token));
        lemma_trimmed_is_trimmed(message);
    }
}

/// A priority token stands for a priority between 0 and 127.
proof fn lemma_token_range(token: Seq<char>)
    requires
        priority_of_token(token) is Some,
    ensures
        0 <= (priority_of_token(token)->0).1 <= 127,
{
    let done = token.len() > 0 && token[0] == '-';
    let digits = if done {
        token.drop_first()
    } else {
        token
    };
    lemma_digits_value_nonnegative(digits);
}

/// The stored line of a todo whose priority is between 0 and 127, and whose
/// attachment, if it has one, is named by something that starts with other
/// than whitespace, can be read, and the todo read has the same priority.
pub proof fn lemma_line_keeps_priority(todo: TodoView)
    requires
        0 <= todo.priority <= 127,
        todo.note.len() > 0 ==> !is_whitespace(todo.note[0]),
        todo.has_dependency() ==> !is_whitespace(todo.dependency_name[0]),
    ensures
        decode_line(todo.encoded()) is Some,
        (decode_line(todo.encoded())->0).priority == todo.priority,
{
    let done = todo.effective_done();
    let token = token_of(done, todo.priority);
    let message = todo.message;
    let line = todo.encoded();
    lemma_encoded_shape(todo);
    lemma_token(done, todo.priority);
    if todo.marker().len() > 0 {
        let name = if todo.has_dependency() {
            todo.dependency_name
        } else {
            todo.note
        };
        let rest = name + seq![' '] + message;
        assert(line =~= seq!['['] + token + seq![']', '>'] + rest);
        lemma_bracket(token, seq![']', '>'], rest);
        if decode_dependency_form(line) is None {
            lemma_first_occurrence(rest, seq![' '], 0);
            assert(rest.subrange(name.len() as int, name.len() as int + 1) =~= seq![' ']);
            assert(occurs_at(rest, seq![' '], name.len() as int));
            let at = first_occurrence(rest, seq![' '], 0)->0;
            assert(rest.subrange(at, at + 1)[0] == ' ');
            assert(at > 0);
            let hash = rest.take(at);
            assert(hash[0] == name[0]);
            lemma_trimmed_keeps(hash, 0);
            assert(decode_note_form(line) is Some);
        }
    } else {
        assert(line =~= seq!['['] + token + seq![']', ' '] + message);
        lemma_plain_line_has_no_attachment(token, message);
        lemma_bracket(token, seq![']', ' '], message);
    }
}

/// The comparison priority survives storage: a todo read from a line, with
/// whatever nested list, written to a line and read again has the
/// comparison priority that it had.
pub proof fn lemma_comparison_priority_survives(
    line: Seq<char>,
    store: Map<Seq<char>, Seq<char>>,
    depth: nat,
)
    requires
        decode_todo(line, store, depth) is Some,
    ensures
        ({
            let todo = decode_todo(line, store, depth)->0;
            &&& decode_todo(todo.encoded(), store, depth) is Some
            &&& (decode_todo(todo.encoded(), store, depth)->0).comparison_priority()
                == todo.comparison_priority()
        }),
{
    let todo = decode_todo(line, store, depth)->0;
    lemma_decoded_shape(line);
    lemma_line_keeps_priority(todo);
}

} // verus!
