//! The todo entity: its state, its priority rules, its attachments and the
//! one-line text format it is stored in.

pub mod note;
pub mod round_trip;

use super::{TodoArray, TodoList};
use crate::storage::Storage;
use crate::text::{
    copy_range, digits_value, is_digits, parse_digits, push_signed_decimal, signed_decimal,
    split_at_first, split_once, to_chars, to_text, trim, trimmed,
};
use note::{is_hex_name, sha1, sha1_hex, Note, NoteError};
use vstd::prelude::*;
use vstd::string::StringExecFns;

verus! {

/// One task: a message, a priority, a done flag and at most one attachment,
/// either a note (by the hash of its text) or a nested list of sub-tasks (by
/// the name it is stored under).
#[derive(Debug, PartialEq, Default)]
pub struct Todo {
    pub message: String,
    pub note: String,
    pub priority: i8,
    pub dependencies: TodoList,
    pub dependency_name: String,
    pub done: bool,
}

/// Why an operation on a todo failed.
#[derive(Debug, PartialEq, Eq, Clone, Copy)]
pub enum TodoError {
    /// The line has none of the three stored forms.
    ReadFailed,
    /// Reserved: a note without text.
    NoteEmpty,
    /// The todo already has a nested list.
    AlreadyExists,
    /// The storage for a new nested list could not be created.
    DependencyCreationFailed,
}

/// What a todo is, as mathematical values.
pub ghost struct TodoView {
    pub message: Seq<char>,
    pub note: Seq<char>,
    pub priority: int,
    pub dependencies: TodoListView,
    pub dependency_name: Seq<char>,
    pub done: bool,
}

/// What a todo list is: its two partitions, each in order.
pub ghost struct TodoListView {
    pub undone: Seq<TodoView>,
    pub done: Seq<TodoView>,
}

/// The view of a todo.
pub open spec fn todo_view(todo: Todo) -> TodoView
    decreases todo,
{
    TodoView {
        message: todo.message@,
        note: todo.note@,
        priority: todo.priority as int,
        dependencies: list_view(todo.dependencies),
        dependency_name: todo.dependency_name@,
        done: todo.done,
    }
}

/// The view of a todo list.
pub open spec fn list_view(list: TodoList) -> TodoListView
    decreases list,
{
    TodoListView { undone: array_view(list.undone), done: array_view(list.done) }
}

/// The view of a todo array: the views of its todos, in order.
pub open spec fn array_view(array: TodoArray) -> Seq<TodoView>
    decreases array,
{
    Seq::new(
        array.todos@.len(),
        |i: int|
            if 0 <= i < array.todos@.len() {
                todo_view(array.todos@[i])
            } else {
                arbitrary()
            },
    )
}

impl View for Todo {
    type V = TodoView;

    open spec fn view(&self) -> TodoView {
        todo_view(*self)
    }
}

impl Clone for Todo {
    fn clone(&self) -> (copy: Self)
        ensures
            copy@ == self@,
        decreases self,
    {
        Todo {
            message: self.message.clone(),
            note: self.note.clone(),
            priority: self.priority,
            dependencies: self.dependencies.clone(),
            dependency_name: self.dependency_name.clone(),
            done: self.done,
        }
    }
}

/// The priority by which todos are ordered: unset (0) counts as 10, after
/// every set priority.
pub open spec fn comparison_priority(priority: int) -> int {
    if priority == 0 {
        10
    } else {
        priority
    }
}

/// A requested priority brought into range: 10 and more become unset (0),
/// negative ones become 1.
pub open spec fn fixed_priority(priority: int) -> int {
    if priority >= 10 || priority == 0 {
        0
    } else if priority < 0 {
        1
    } else {
        priority
    }
}

/// The empty list.
pub open spec fn empty_list() -> TodoListView {
    TodoListView { undone: Seq::empty(), done: Seq::empty() }
}

impl TodoView {
    /// Whether the todo has a nested list.
    pub open spec fn has_dependency(self) -> bool {
        self.dependency_name.len() > 0
    }

    /// Whether the todo counts as done: by its nested list once that list
    /// holds a done item, by its own flag otherwise.
    pub open spec fn effective_done(self) -> bool {
        if self.has_dependency() && self.dependencies.done.len() != 0 {
            self.dependencies.undone.len() == 0
        } else {
            self.done
        }
    }

    /// The priority by which the todo is ordered.
    pub open spec fn comparison_priority(self) -> int {
        comparison_priority(self.priority)
    }

    /// A todo has at most one attachment.
    pub open spec fn well_formed(self) -> bool {
        !(self.note.len() > 0 && self.dependency_name.len() > 0)
    }

    /// What stands between the bracket and the message: `>` and the name of
    /// the nested list, else `>` and the note's hash, else nothing.
    pub open spec fn marker(self) -> Seq<char> {
        if self.has_dependency() {
            seq!['>'] + self.dependency_name
        } else if self.note.len() > 0 {
            seq!['>'] + self.note
        } else {
            Seq::empty()
        }
    }

    /// The stored line: `[`, `-` if done, the priority, `]`, the marker, a
    /// space, the message.
    pub open spec fn encoded(self) -> Seq<char> {
        seq!['['] + (if self.effective_done() {
            seq!['-']
        } else {
            Seq::empty()
        }) + signed_decimal(self.priority) + seq![']'] + self.marker() + seq![' '] + self.message
    }

    /// The text of `hash`: the priority, a space, the message.
    pub open spec fn identity(self) -> Seq<char> {
        signed_decimal(self.priority) + seq![' '] + self.message
    }

    /// The line shown to the user.
    pub open spec fn displayed(self) -> Seq<char> {
        seq!['[', if self.effective_done() { 'x' } else { ' ' }, ']', ' ', '[']
            + signed_decimal(self.priority) + seq![
            ']',
            if self.note.len() > 0 {
                '>'
            } else if self.has_dependency() {
                '-'
            } else {
                ' '
            },
        ] + self.message
    }
}

/// The structural suffix of a nested list's name.
pub open spec fn todo_suffix() -> Seq<char> {
    seq!['.', 't', 'o', 'd', 'o']
}

/// The name that a nested list with the stem `name` is stored under.
pub open spec fn dependency_name_of(name: Seq<char>) -> Seq<char> {
    name + todo_suffix()
}

// ---------------------------------------------------------------------------
// The stored line, read back
// ---------------------------------------------------------------------------

/// The done flag and the priority that a priority token stands for: an
/// optional `-` (done), then one or more digits that denote at most 127.
pub open spec fn priority_of_token(token: Seq<char>) -> Option<(bool, int)> {
    let done = token.len() > 0 && token[0] == '-';
    let digits = if done {
        token.drop_first()
    } else {
        token
    };
    if digits.len() > 0 && is_digits(digits) && digits_value(digits) <= 127 {
        Some((done, digits_value(digits)))
    } else {
        None
    }
}

/// A line cut at its first `[` and, after that, at the first `mark`: what
/// stands between the two, and what follows `mark`.
pub open spec fn split_bracket(line: Seq<char>, mark: Seq<char>) -> Option<
    (Seq<char>, Seq<char>),
> {
    match split_once(line, seq!['[']) {
        Some((_, inner)) => split_once(inner, mark),
        None => None,
    }
}

/// A todo without nested todos that has the given fields.
pub open spec fn flat_todo(
    flag: (bool, int),
    dependency_name: Seq<char>,
    note: Seq<char>,
    message: Seq<char>,
) -> TodoView {
    TodoView {
        message,
        note,
        priority: flag.1,
        dependencies: empty_list(),
        dependency_name,
        done: flag.0,
    }
}

/// The first stored form, `[priority]>name.todo message`: a todo with a
/// nested list. Each part is taken without the whitespace around it.
pub open spec fn decode_dependency_form(line: Seq<char>) -> Option<TodoView> {
    match split_bracket(line, seq![']', '>']) {
        Some((token, rest)) => match split_once(rest, todo_suffix().push(' ')) {
            Some((stem, message)) => match priority_of_token(trimmed(token)) {
                Some(flag) => if trimmed(stem).len() > 0 {
                    Some(
                        flat_todo(
                            flag,
                            dependency_name_of(trimmed(stem)),
                            Seq::empty(),
                            trimmed(message),
                        ),
                    )
                } else {
                    None
                },
                None => None,
            },
            None => None,
        },
        None => None,
    }
}

/// The second stored form, `[priority]>hash message`: a todo with a note.
pub open spec fn decode_note_form(line: Seq<char>) -> Option<TodoView> {
    match split_bracket(line, seq![']', '>']) {
        Some((token, rest)) => match split_once(rest, seq![' ']) {
            Some((hash, message)) => match priority_of_token(trimmed(token)) {
                Some(flag) => if trimmed(hash).len() > 0 {
                    Some(flat_todo(flag, Seq::empty(), trimmed(hash), trimmed(message)))
                } else {
                    None
                },
                None => None,
            },
            None => None,
        },
        None => None,
    }
}

/// The third stored form, `[priority] message`: a todo without attachment.
pub open spec fn decode_plain_form(line: Seq<char>) -> Option<TodoView> {
    match split_bracket(line, seq![']', ' ']) {
        Some((token, message)) => match priority_of_token(trimmed(token)) {
            Some(flag) => Some(flat_todo(flag, Seq::empty(), Seq::empty(), trimmed(message))),
            None => None,
        },
        None => None,
    }
}

/// The todo that a stored line stands for, nested todos left out: the three
/// forms are tried in order and the first that fits wins.
pub open spec fn decode_line(line: Seq<char>) -> Option<TodoView> {
    if decode_dependency_form(line) is Some {
        decode_dependency_form(line)
    } else if decode_note_form(line) is Some {
        decode_note_form(line)
    } else {
        decode_plain_form(line)
    }
}

/// The lines of a stored text: what stands between its line feeds.
pub open spec fn lines_of(content: Seq<char>) -> Seq<Seq<char>>
    decreases content.len(),
{
    if content.len() == 0 {
        seq![Seq::empty()]
    } else {
        let before = lines_of(content.drop_last());
        if content.last() == '\n' {
            before.push(Seq::empty())
        } else {
            before.drop_last().push(before.last().push(content.last()))
        }
    }
}

/// The todo that a stored line stands for, with its nested list read from
/// `store` down to `depth` further levels of nesting.
pub open spec fn decode_todo(
    line: Seq<char>,
    store: Map<Seq<char>, Seq<char>>,
    depth: nat,
) -> Option<TodoView>
    decreases depth, 0nat, 0nat,
{
    match decode_line(line) {
        Some(todo) => Some(
            TodoView {
                dependencies: if todo.has_dependency() && depth > 0 {
                    read_list(store, todo.dependency_name, (depth - 1) as nat)
                } else {
                    empty_list()
                },
                ..todo
            },
        ),
        None => None,
    }
}

/// The list stored under `name`: empty when nothing is stored there, else
/// the todos of the lines that can be read, in their order, each in the
/// partition that its own done flag puts it in.
pub open spec fn read_list(
    store: Map<Seq<char>, Seq<char>>,
    name: Seq<char>,
    depth: nat,
) -> TodoListView
    decreases depth, 2nat, 0nat,
{
    if store.contains_key(name) {
        parse_lines(lines_of(store[name]), store, depth)
    } else {
        empty_list()
    }
}

/// The list that the given lines stand for; lines that cannot be read are
/// left out.
pub open spec fn parse_lines(
    lines: Seq<Seq<char>>,
    store: Map<Seq<char>, Seq<char>>,
    depth: nat,
) -> TodoListView
    decreases depth, 1nat, lines.len(),
{
    if lines.len() == 0 {
        empty_list()
    } else {
        let before = parse_lines(lines.drop_last(), store, depth);
        match decode_todo(lines.last(), store, depth) {
            Some(todo) => if todo.done {
                TodoListView { done: before.done.push(todo), ..before }
            } else {
                TodoListView { undone: before.undone.push(todo), ..before }
            },
            None => before,
        }
    }
}

/// The characters `a`, `b`.
fn pair_of(a: char, b: char) -> (v: Vec<char>)
    ensures
        v@ == seq![a, b],
{
    let mut v: Vec<char> = Vec::new();
    v.push(a);
    v.push(b);
    assert(v@ =~= seq![a, b]);
    v
}

/// The character `a`.
fn single(a: char) -> (v: Vec<char>)
    ensures
        v@ == seq![a],
{
    let mut v: Vec<char> = Vec::new();
    v.push(a);
    assert(v@ =~= seq![a]);
    v
}

/// Reads a priority token.
fn read_priority_token(token: &Vec<char>) -> (r: Option<(bool, i8)>)
    ensures
        match r {
            Some((done, priority)) => priority_of_token(token@) == Some((done, priority as int)),
            None => priority_of_token(token@) is None,
        },
{
    let done = token.len() > 0 && token[0] == '-';
    let digits = if done {
        copy_range(token, 1, token.len())
    } else {
        copy_range(token, 0, token.len())
    };
    assert(digits@ =~= if done {
        token@.drop_first()
    } else {
        token@
    });
    match parse_digits(&digits, 127) {
        Some(n) => Some((done, n as i8)),
        None => None,
    }
}

/// Cuts a line at its first `[` and then at the first `mark`.
fn cut_bracket(line: &Vec<char>, mark: &Vec<char>) -> (r: Option<(Vec<char>, Vec<char>)>)
    ensures
        match r {
            Some((token, rest)) => split_bracket(line@, mark@) == Some((token@, rest@)),
            None => split_bracket(line@, mark@) is None,
        },
{
    match split_at_first(line, &single('[')) {
        Some((_, inner)) => split_at_first(&inner, mark),
        None => None,
    }
}

/// A todo without nested todos that has the given fields.
fn flat(flag: (bool, i8), dependency_name: String, note: String, message: String) -> (todo: Todo)
    ensures
        todo@ == flat_todo((flag.0, flag.1 as int), dependency_name@, note@, message@),
{
    Todo {
        message,
        note,
        priority: flag.1,
        dependencies: TodoList::new(),
        dependency_name,
        done: flag.0,
    }
}

fn read_dependency_form(line: &Vec<char>) -> (r: Option<Todo>)
    ensures
        match r {
            Some(todo) => decode_dependency_form(line@) == Some(todo@),
            None => decode_dependency_form(line@) is None,
        },
{
    let (token, rest) = match cut_bracket(line, &pair_of(']', '>')) {
        Some(parts) => parts,
        None => { return None; },
    };
    let mut suffix = to_chars(".todo");
    proof {
        reveal_strlit(".todo");
        assert(suffix@ =~= todo_suffix());
    }
    suffix.push(' ');
    let (stem, message) = match split_at_first(&rest, &suffix) {
        Some(parts) => parts,
        None => { return None; },
    };
    let flag = match read_priority_token(&trim(&token)) {
        Some(flag) => flag,
        None => { return None; },
    };
    let stem = trim(&stem);
    if stem.len() == 0 {
        return None;
    }
    let name = Todo::static_dependency_name(&to_text(&stem));
    Some(flat(flag, name, String::new(), to_text(&trim(&message))))
}

fn read_note_form(line: &Vec<char>) -> (r: Option<Todo>)
    ensures
        match r {
            Some(todo) => decode_note_form(line@) == Some(todo@),
            None => decode_note_form(line@) is None,
        },
{
    let (token, rest) = match cut_bracket(line, &pair_of(']', '>')) {
        Some(parts) => parts,
        None => { return None; },
    };
    let (hash, message) = match split_at_first(&rest, &single(' ')) {
        Some(parts) => parts,
        None => { return None; },
    };
    let flag = match read_priority_token(&trim(&token)) {
        Some(flag) => flag,
        None => { return None; },
    };
    let hash = trim(&hash);
    if hash.len() == 0 {
        return None;
    }
    Some(flat(flag, String::new(), to_text(&hash), to_text(&trim(&message))))
}

fn read_plain_form(line: &Vec<char>) -> (r: Option<Todo>)
    ensures
        match r {
            Some(todo) => decode_plain_form(line@) == Some(todo@),
            None => decode_plain_form(line@) is None,
        },
{
    let (token, message) = match cut_bracket(line, &pair_of(']', ' ')) {
        Some(parts) => parts,
        None => { return None; },
    };
    let flag = match read_priority_token(&trim(&token)) {
        Some(flag) => flag,
        None => { return None; },
    };
    Some(flat(flag, String::new(), String::new(), to_text(&trim(&message))))
}

/// The todo that a stored line stands for, nested todos left out.
pub fn read_line(line: &Vec<char>) -> (r: Option<Todo>)
    ensures
        match r {
            Some(todo) => decode_line(line@) == Some(todo@) && todo@.well_formed(),
            None => decode_line(line@) is None,
        },
{
    match read_dependency_form(line) {
        Some(todo) => Some(todo),
        None => match read_note_form(line) {
            Some(todo) => Some(todo),
            None => read_plain_form(line),
        },
    }
}

impl Todo {
    /// A todo that is not done and has no attachment.
    pub fn new(message: String, priority: i8) -> (todo: Self)
        ensures
            todo@ == (TodoView {
                message: message@,
                note: Seq::empty(),
                priority: fixed_priority(priority as int),
                dependencies: empty_list(),
                dependency_name: Seq::empty(),
                done: false,
            }),
            todo@.well_formed(),
    {
        Todo {
            dependency_name: String::new(),
            note: String::new(),
            dependencies: TodoList::new(),
            message,
            priority: Todo::fixed_priority(priority),
            done: false,
        }
    }

    /// The todo that a stored line stands for, with its nested list read
    /// from the store, nested lists being read as deep as the store has
    /// names. Fails when the line has none of the three stored forms.
    pub fn try_from(s: &str, store: &Storage) -> (r: Result<Todo, TodoError>)
        ensures
            match r {
                Ok(todo) => decode_todo(s@, store@, store@.dom().len()) == Some(todo@)
                    && todo@.well_formed(),
                Err(e) => e == TodoError::ReadFailed && decode_line(s@) is None,
            },
    {
        match Todo::read_to_depth(&to_chars(s), store, store.len()) {
            Some(todo) => Ok(todo),
            None => Err(TodoError::ReadFailed),
        }
    }

    /// The todo that a stored line stands for, nested lists read down to
    /// `depth` further levels.
    pub fn read_to_depth(line: &Vec<char>, store: &Storage, depth: usize) -> (r: Option<Todo>)
        ensures
            match r {
                Some(todo) => decode_todo(line@, store@, depth as nat) == Some(todo@)
                    && todo@.well_formed(),
                None => decode_line(line@) is None,
            },
        decreases depth, 0nat,
    {
        match read_line(line) {
            Some(todo) => {
                let mut todo = todo;
                if todo.has_dependency() && depth > 0 {
                    todo.dependencies = TodoList::read_to_depth(
                        store,
                        &todo.dependency_name,
                        depth - 1,
                    );
                }
                Some(todo)
            },
            None => None,
        }
    }

    /// The name that a nested list with the stem `name` is stored under.
    pub fn static_dependency_name(name: &String) -> (full: String)
        ensures
            full@ == dependency_name_of(name@),
    {
        let mut full = name.clone();
        full.push('.');
        full.push('t');
        full.push('o');
        full.push('d');
        full.push('o');
        assert(full@ =~= dependency_name_of(name@));
        full
    }

    /// The name under which the nested list is stored.
    pub fn dependency_path(&self) -> (name: String)
        ensures
            name@ == self@.dependency_name,
    {
        self.dependency_name.clone()
    }

    /// Whether the todo has a nested list.
    pub fn has_dependency(&self) -> (b: bool)
        ensures
            b == self@.has_dependency(),
    {
        !self.dependency_name.as_str().is_empty()
    }

    /// Whether the todo counts as done.
    pub fn done(&self) -> (b: bool)
        ensures
            b == self@.effective_done(),
    {
        let done_len = self.dependencies.done.len();
        if self.has_dependency() && done_len != 0 {
            return self.dependencies.undone.len() == 0;
        }
        self.done
    }

    /// The line shown to the user: `[x]` or `[ ]`, the priority in brackets,
    /// `>` for a note, `-` for a nested list, a space for neither, the message.
    pub fn display(&self) -> (line: String)
        ensures
            line@ == self@.displayed(),
    {
        let mut line = String::new();
        line.push('[');
        line.push(if self.done() { 'x' } else { ' ' });
        line.push(']');
        line.push(' ');
        line.push('[');
        push_signed_decimal(&mut line, self.priority);
        line.push(']');
        line.push(
            if !self.note.as_str().is_empty() {
                '>'
            } else if self.has_dependency() {
                '-'
            } else {
                ' '
            },
        );
        line.append(self.message.as_str());
        assert(line@ =~= self@.displayed());
        line
    }

    /// Detaches the note: removes its text from the store and clears the
    /// reference. Fails, changing nothing, when the todo has no note or
    /// nothing is stored under the note's hash.
    pub fn remove_note(&mut self, store: &mut Storage) -> (r: Result<(), NoteError>)
        ensures
            r is Ok <==> old(self)@.note.len() > 0 && old(store)@.contains_key(old(self)@.note),
            r is Ok ==> final(self)@ == (TodoView { note: Seq::empty(), ..old(self)@ })
                && final(store)@ == old(store)@.remove(old(self)@.note),
            r is Err ==> r == Err::<(), NoteError>(NoteError::NotFound) && final(self)@ == old(
                self,
            )@ && final(store)@ == old(store)@,
    {
        if self.note.as_str().is_empty() || !store.contains(&self.note) {
            return Err(NoteError::NotFound);
        }
        store.remove(&self.note);
        self.note = String::new();
        Ok(())
    }

    /// Attaches an empty nested list, stored under a name made of the
    /// todo's hash. Fails, changing nothing, when the todo already has a
    /// nested list. Otherwise a note that the todo had is detached first and
    /// its text removed from the store.
    pub fn add_dependency(&mut self, store: &mut Storage) -> (r: Result<(), TodoError>)
        ensures
            r is Err <==> old(self)@.has_dependency(),
            r is Err ==> r == Err::<(), TodoError>(TodoError::AlreadyExists) && final(self)@
                == old(self)@ && final(store)@ == old(store)@,
            r is Ok ==> final(self)@ == (TodoView {
                note: Seq::empty(),
                dependency_name: dependency_name_of(sha1_hex(old(self)@.identity())),
                dependencies: empty_list(),
                ..old(self)@
            }) && final(store)@ == (if old(self)@.note.len() > 0 {
                old(store)@.remove(old(self)@.note)
            } else {
                old(store)@
            }).insert(dependency_name_of(sha1_hex(old(self)@.identity())), Seq::empty()),
            r is Ok ==> final(self)@.well_formed() && final(self)@.has_dependency(),
    {
        if self.has_dependency() {
            return Err(TodoError::AlreadyExists)
        }
        if !self.note.as_str().is_empty() {
            store.remove(&self.note);
            self.note = String::new();
        }
        assert(self.note@ =~= Seq::<char>::empty());
        self.dependency_name = Self::static_dependency_name(&self.hash());
        store.put(self.dependency_path(), String::new());
        self.dependencies = TodoList::new();
        Ok(())
    }

    /// Detaches the nested list: removes what is stored under its name and
    /// clears the reference, whether or not there was one.
    pub fn remove_dependency(&mut self, store: &mut Storage)
        ensures
            final(self)@ == (TodoView {
                dependency_name: Seq::empty(),
                dependencies: empty_list(),
                ..old(self)@
            }),
            final(store)@ == if old(self)@.has_dependency() {
                old(store)@.remove(old(self)@.dependency_name)
            } else {
                old(store)@
            },
            final(self)@.well_formed(),
    {
        if self.has_dependency() {
            store.remove(&self.dependency_name);
        }
        self.dependency_name = String::new();
        self.dependencies = TodoList::new();
    }

    /// Attaches a note whose text is what came back from the editor.
    pub fn add_note(&mut self, edited: String, store: &mut Storage)
        ensures
            final(self)@ == (TodoView {
                note: sha1_hex(edited@),
                dependency_name: Seq::empty(),
                dependencies: empty_list(),
                ..old(self)@
            }),
            final(store)@ == (if old(self)@.has_dependency() {
                old(store)@.remove(old(self)@.dependency_name)
            } else {
                old(store)@
            }).insert(sha1_hex(edited@), edited@),
            final(self)@.well_formed(),
    {
        let note = Note::from_editor(edited);
        self.set_note(note, store);
    }

    /// Attaches `note`: a nested list that the todo had is detached first,
    /// then the todo refers to the note by its hash and the note's text is
    /// stored under that hash.
    pub fn set_note(&mut self, note: Note, store: &mut Storage)
        ensures
            final(self)@ == (TodoView {
                note: sha1_hex(note@),
                dependency_name: Seq::empty(),
                dependencies: empty_list(),
                ..old(self)@
            }),
            final(store)@ == (if old(self)@.has_dependency() {
                old(store)@.remove(old(self)@.dependency_name)
            } else {
                old(store)@
            }).insert(sha1_hex(note@), note@),
            final(self)@.well_formed(),
    {
        self.remove_dependency(store);
        self.note = note.hash();
        note.save(store);
    }

    /// Replaces the text of the todo's note by what came back from the
    /// editor: the todo then refers to the hash of the new text, which is
    /// stored under it. What was stored under the old hash stays. Fails,
    /// changing nothing, when nothing is stored under the old hash.
    pub fn edit_note(&mut self, edited: String, store: &mut Storage) -> (r: Result<(), NoteError>)
        ensures
            r is Ok <==> old(store)@.contains_key(old(self)@.note),
            r is Ok ==> final(self)@ == (TodoView { note: sha1_hex(edited@), ..old(self)@ })
                && final(store)@ == old(store)@.insert(sha1_hex(edited@), edited@),
            r is Err ==> r == Err::<(), NoteError>(NoteError::NotFound) && final(self)@ == old(
                self,
            )@ && final(store)@ == old(store)@,
    {
        let mut note = match Note::from_hash(&self.note, store) {
            Ok(note) => note,
            Err(e) => { return Err(e); },
        };
        note.edit_with_editor(edited);
        self.note = note.hash();
        note.save(store);
        Ok(())
    }

    /// The text of the todo's note; empty when nothing is stored under the
    /// note's hash.
    pub fn get_note(&self, store: &Storage) -> (text: String)
        ensures
            text@ == if store@.contains_key(self@.note) {
                store@[self@.note]
            } else {
                Seq::empty()
            },
    {
        match Note::from_hash(&self.note, store) {
            Err(_) => String::new(),
            Ok(note) => note.content(),
        }
    }

    /// Replaces the message.
    pub fn set_message(&mut self, message: String)
        ensures
            final(self)@ == (TodoView { message: message@, ..old(self)@ }),
    {
        self.message = message;
    }

    /// The hash of the priority, a space and the message.
    pub fn hash(&self) -> (hash: String)
        ensures
            hash@ == sha1_hex(self@.identity()),
            hash@.len() == 40,
            is_hex_name(hash@),
    {
        let mut identity = String::new();
        push_signed_decimal(&mut identity, self.priority);
        identity.push(' ');
        identity.append(self.message.as_str());
        assert(identity@ =~= self@.identity());
        sha1(&identity)
    }

    /// Flips the todo's own done flag.
    pub fn toggle_done(&mut self)
        ensures
            final(self)@ == (TodoView { done: !old(self)@.done, ..old(self)@ }),
    {
        self.done = !self.done;
    }

    /// One step toward the bottom: a priority whose comparison priority is
    /// below 9 goes up by one, every other becomes unset.
    pub fn decrease_priority(&mut self)
        ensures
            final(self)@ == (TodoView {
                priority: if old(self)@.comparison_priority() < 9 {
                    old(self)@.priority + 1
                } else {
                    0
                },
                ..old(self)@
            }),
    {
        if self.comparison_priority() < 9 {
            self.priority += 1
        } else {
            self.priority = 0
        }
    }

    /// One step toward the top: a comparison priority above 1 goes down by
    /// one (so unset becomes 9), every other becomes 1.
    pub fn increase_priority(&mut self)
        ensures
            final(self)@ == (TodoView {
                priority: if old(self)@.comparison_priority() > 1 {
                    old(self)@.comparison_priority() - 1
                } else {
                    1
                },
                ..old(self)@
            }),
    {
        if self.comparison_priority() > 1 {
            self.priority = self.comparison_priority() - 1
        } else {
            self.priority = 1
        }
    }

    /// Sets the priority, brought into range.
    pub fn set_priority(&mut self, add: i8)
        ensures
            final(self)@ == (TodoView { priority: fixed_priority(add as int), ..old(self)@ }),
    {
        self.priority = add;
        self.fix_priority();
    }

    /// Brings the priority into range.
    pub fn fix_priority(&mut self)
        ensures
            final(self)@ == (TodoView {
                priority: fixed_priority(old(self)@.priority),
                ..old(self)@
            }),
    {
        self.priority = Todo::fixed_priority(self.priority)
    }

    /// The priority by which the todo is ordered.
    #[inline(always)]
    pub fn comparison_priority(&self) -> (p: i8)
        ensures
            p == self@.comparison_priority(),
    {
        if self.priority == 0 {
            10
        } else {
            self.priority
        }
    }

    /// A requested priority brought into range.
    pub fn fixed_priority(priority: i8) -> (p: i8)
        ensures
            p == fixed_priority(priority as int),
            0 <= p <= 9,
    {
        if priority >= 10 {
            0
        } else if priority == 0 {
            0
        } else if priority < 0 {
            1
        } else {
            priority
        }
    }

    /// The stored line of the todo.
    pub fn as_string(&self) -> (line: String)
        ensures
            line@ == self@.encoded(),
    {
        let mut line = String::new();
        line.push('[');
        if self.done() {
            line.push('-');
        }
        push_signed_decimal(&mut line, self.priority);
        line.push(']');
        if self.has_dependency() {
            line.push('>');
            line.append(self.dependency_name.as_str());
        } else if !self.note.as_str().is_empty() {
            line.push('>');
            line.append(self.note.as_str());
        }
        line.push(' ');
        line.append(self.message.as_str());
        assert(line@ =~= self@.encoded());
        line
    }
}

} // verus!
