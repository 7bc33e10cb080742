//! Ordered todo arrays and the todo list with its two partitions.

pub mod todo;

use crate::storage::Storage;
use crate::text::to_chars;
use todo::{
    array_view, empty_list, lines_of, list_view, parse_lines, read_list, todo_view, Todo,
    TodoListView, TodoView,
};
use vstd::prelude::*;
use vstd::string::StringExecFns;

verus! {

/// `swap` of slices in the standard library: exchanges the elements at the
/// two indices, which must both be in bounds, and leaves the others alone.
pub assume_specification<T>[ <[T]>::swap ](s: &mut [T], a: usize, b: usize)
    requires
        a < old(s)@.len(),
        b < old(s)@.len(),
    ensures
        final(s)@ == old(s)@.update(a as int, old(s)@[b as int]).update(
            b as int,
            old(s)@[a as int],
        ),
;

/// A sequence of todos, meant to be kept in ascending order of comparison
/// priority.
#[derive(Debug, PartialEq, Default)]
pub struct TodoArray {
    pub todos: Vec<Todo>,
}

/// Why an operation on a todo array failed.
#[derive(Debug, PartialEq, Eq, Clone, Copy)]
pub enum TodoArrayError {
    /// There is no todo at the index.
    IndexNotFound,
}

/// The todos that are not done and those that are.
#[derive(Debug, PartialEq, Default)]
pub struct TodoList {
    pub undone: TodoArray,
    pub done: TodoArray,
}

impl View for TodoArray {
    type V = Seq<TodoView>;

    open spec fn view(&self) -> Seq<TodoView> {
        array_view(*self)
    }
}

impl View for TodoList {
    type V = TodoListView;

    open spec fn view(&self) -> TodoListView {
        list_view(*self)
    }
}

impl Clone for TodoArray {
    fn clone(&self) -> (copy: Self)
        ensures
            copy@ == self@,
        decreases self,
    {
        let mut copy = TodoArray::new();
        let mut i: usize = 0;
        while i < self.todos.len()
            invariant
                i <= self.todos.len(),
                copy@ == self@.take(i as int),
            decreases self.todos.len() - i,
        {
            copy.push(self.todos[i].clone());
            assert(copy@ =~= self@.take(i + 1));
            i += 1;
        }
        assert(self@.take(self.todos.len() as int) =~= self@);
        copy
    }
}

impl Clone for TodoList {
    fn clone(&self) -> (copy: Self)
        ensures
            copy@ == self@,
        decreases self,
    {
        TodoList { undone: self.undone.clone(), done: self.done.clone() }
    }
}

// ---------------------------------------------------------------------------
// Order
// ---------------------------------------------------------------------------

/// Whether the todos stand in ascending order of comparison priority.
pub open spec fn sorted(todos: Seq<TodoView>) -> bool {
    forall|i: int, j: int|
        0 <= i <= j < todos.len() ==> todos[i].comparison_priority()
            <= todos[j].comparison_priority()
}

/// `todos` with the element at `from` taken out and put back at `to`; the
/// others keep their order.
pub open spec fn relocated<E>(todos: Seq<E>, from: int, to: int) -> Seq<E> {
    todos.remove(from).insert(to, todos[from])
}

/// Where `move_index` puts the element: at `to` when it moves toward the end;
/// toward the front `shift` places before `to + 1`, if that is before `from`;
/// else it stays.
pub open spec fn move_landing(from: int, to: int, shift: int) -> int {
    if from < to {
        to
    } else if to + 1 - shift < from {
        to + 1 - shift
    } else {
        from
    }
}

/// The stretch that `reorder` searches: from the right neighbour to the end
/// when the todo at `index` is above its right neighbour, else from the start
/// to `index`.
pub open spec fn reorder_window(todos: Seq<TodoView>, index: int) -> (int, int) {
    if index + 1 < todos.len() && todos[index].comparison_priority() > todos[index
        + 1].comparison_priority() {
        (index + 1, todos.len() - 1)
    } else {
        (0, index)
    }
}

/// Whether every todo behind position `at` has a higher comparison priority
/// than the one at `at`.
pub open spec fn precedes_all_behind(todos: Seq<TodoView>, at: int) -> bool {
    forall|k: int|
        at < k < todos.len() ==> todos[at].comparison_priority() < (
        #[trigger] todos[k]).comparison_priority()
}

/// The todos whose comparison priority is `priority`, in order.
pub open spec fn with_priority(todos: Seq<TodoView>, priority: int) -> Seq<TodoView> {
    todos.filter(|t: TodoView| t.comparison_priority() == priority)
}

/// Whether `after` holds the todos of `before` in ascending order of
/// comparison priority, those of equal priority in the order they had.
pub open spec fn stably_sorted(before: Seq<TodoView>, after: Seq<TodoView>) -> bool {
    &&& sorted(after)
    &&& forall|p: int| #[trigger] with_priority(after, p) == with_priority(before, p)
}

/// Moving an element there and back again restores the sequence: after
/// `move_index(from, to, shift)` has put the element at its landing place,
/// `move_index(landing, from, 1)` puts it back at `from`, and every element
/// is where it was.
pub proof fn lemma_move_index_inverse<E>(todos: Seq<E>, from: int, to: int, shift: int)
    requires
        0 <= from < todos.len(),
        0 <= to < todos.len(),
        0 <= shift <= to + 1,
    ensures
        ({
            let landing = move_landing(from, to, shift);
            &&& 0 <= landing < todos.len()
            &&& move_landing(landing, from, 1) == from
            &&& relocated(relocated(todos, from, landing), landing, from) == todos
        }),
{
    let landing = move_landing(from, to, shift);
    assert(relocated(relocated(todos, from, landing), landing, from) =~= todos);
}

/// A sequence and the same sequence with one element relocated hold the same
/// elements, each as often.
pub proof fn lemma_relocated_permutes<E>(todos: Seq<E>, from: int, to: int)
    requires
        0 <= from < todos.len(),
        0 <= to < todos.len(),
    ensures
        relocated(todos, from, to).to_multiset() == todos.to_multiset(),
{
    broadcast use vstd::seq_lib::to_multiset_remove, vstd::seq_lib::to_multiset_insert;

    let rest = todos.remove(from);
    assert(rest.to_multiset() == todos.to_multiset().remove(todos[from]));
    assert(rest.insert(to, todos[from]).to_multiset() == rest.to_multiset().insert(todos[from]));
    assert(todos.to_multiset().count(todos[from]) > 0) by {
        vstd::seq_lib::to_multiset_contains(todos, todos[from]);
        assert(todos.contains(todos[from]));
    }
    assert(relocated(todos, from, to).to_multiset() =~= todos.to_multiset());
}

/// After one todo of an ordered sequence has changed, the others still
/// stand in order: what `reorder` asks for to restore the order.
pub proof fn lemma_others_stay_in_order(todos: Seq<TodoView>, index: int, changed: TodoView)
    requires
        sorted(todos),
        0 <= index < todos.len(),
    ensures
        sorted(todos.update(index, changed).remove(index)),
{
    let rest = todos.update(index, changed).remove(index);
    assert forall|i: int, j: int| 0 <= i <= j < rest.len() implies rest[i].comparison_priority()
        <= rest[j].comparison_priority() by {
        let ti = if i < index { i } else { i + 1 };
        let tj = if j < index { j } else { j + 1 };
        assert(rest[i] == todos[ti] && rest[j] == todos[tj]);
    }
}

/// A todo moved toward the front past todos of another comparison priority
/// leaves the todos of every priority in the order they had.
pub proof fn lemma_move_keeps_classes(todos: Seq<TodoView>, from: int, to: int, priority: int)
    requires
        0 <= to <= from < todos.len(),
        forall|k: int|
            to <= k < from ==> (#[trigger] todos[k]).comparison_priority()
                != todos[from].comparison_priority(),
    ensures
        with_priority(relocated(todos, from, to), priority) == with_priority(todos, priority),
{
    let of_class = |t: TodoView| t.comparison_priority() == priority;
    let head = todos.take(to);
    let passed = todos.subrange(to, from);
    let moved = seq![todos[from]];
    let tail = todos.skip(from + 1);
    assert(todos =~= head + passed + moved + tail);
    assert(relocated(todos, from, to) =~= head + moved + passed + tail);
    Seq::filter_distributes_over_add(head + passed + moved, tail, of_class);
    Seq::filter_distributes_over_add(head + passed, moved, of_class);
    Seq::filter_distributes_over_add(head, passed, of_class);
    Seq::filter_distributes_over_add(head + moved + passed, tail, of_class);
    Seq::filter_distributes_over_add(head + moved, passed, of_class);
    Seq::filter_distributes_over_add(head, moved, of_class);
    if of_class(todos[from]) {
        assert forall|k: int| 0 <= k < passed.len() implies !of_class(#[trigger] passed[k]) by {
            assert(passed[k] == todos[to + k]);
        }
        passed.lemma_all_neg_filter_empty(of_class);
        assert(passed.filter(of_class) =~= Seq::<TodoView>::empty());
    } else {
        moved.lemma_all_neg_filter_empty(of_class);
        assert(moved.filter(of_class) =~= Seq::<TodoView>::empty());
    }
    assert(head.filter(of_class) + passed.filter(of_class) + moved.filter(of_class) + tail.filter(
        of_class,
    ) =~= head.filter(of_class) + moved.filter(of_class) + passed.filter(of_class) + tail.filter(
        of_class,
    ));
}

/// A todo put into an ordered sequence behind one that is not above it and
/// before one that is not below it leaves the sequence in order; where the
/// one behind it is above it, so is every todo behind it.
pub proof fn lemma_insert_in_order(rest: Seq<TodoView>, at: int, todo: TodoView)
    requires
        sorted(rest),
        0 <= at <= rest.len(),
        at > 0 ==> rest[at - 1].comparison_priority() <= todo.comparison_priority(),
        at < rest.len() ==> todo.comparison_priority() <= rest[at].comparison_priority(),
    ensures
        sorted(rest.insert(at, todo)),
        (at < rest.len() ==> todo.comparison_priority() < rest[at].comparison_priority())
            ==> precedes_all_behind(rest.insert(at, todo), at),
{
    let all = rest.insert(at, todo);
    assert forall|i: int, j: int| 0 <= i <= j < all.len() implies all[i].comparison_priority()
        <= all[j].comparison_priority() by {
        let ri = if i < at { i } else { i - 1 };
        let rj = if j < at { j } else { j - 1 };
        if i != at && j != at {
            assert(rest[ri].comparison_priority() <= rest[rj].comparison_priority());
        } else if i == at && j != at {
            assert(rest[at].comparison_priority() <= rest[rj].comparison_priority());
        } else if j == at && i != at {
            assert(rest[ri].comparison_priority() <= rest[at - 1].comparison_priority());
        }
    }
    if at < rest.len() ==> todo.comparison_priority() < rest[at].comparison_priority() {
        assert forall|k: int| at < k < all.len() implies all[at].comparison_priority() < (
        #[trigger] all[k]).comparison_priority() by {
            assert(rest[at].comparison_priority() <= rest[k - 1].comparison_priority());
        }
    }
}

/// What `reorder` owes when it has put the todo at `index` at `landing`:
/// where the neighbours that the todo gets are not above it in front and not
/// below it behind, and above it behind unless it stays, the sequence is in
/// order if the others were, and the todo has moved only if it stood out of
/// order.
proof fn lemma_reordered(before: Seq<TodoView>, index: int, landing: int)
    requires
        0 <= index < before.len(),
        0 <= landing < before.len(),
        ({
            let rest = before.remove(index);
            let priority = before[index].comparison_priority();
            &&& landing > 0 ==> rest[landing - 1].comparison_priority() <= priority
            &&& landing < rest.len() ==> priority <= rest[landing].comparison_priority()
            &&& landing != index && landing < rest.len() ==> priority
                < rest[landing].comparison_priority()
            &&& landing < index ==> priority < before[landing].comparison_priority()
            &&& landing > index ==> before[index + 1].comparison_priority() < priority
        }),
    ensures
        relocated(before, index, landing).to_multiset() == before.to_multiset(),
        sorted(before.remove(index)) ==> sorted(relocated(before, index, landing)),
        sorted(before.remove(index)) ==> if sorted(before) {
            landing == index
        } else {
            precedes_all_behind(relocated(before, index, landing), landing)
        },
{
    let rest = before.remove(index);
    lemma_relocated_permutes(before, index, landing);
    if sorted(rest) {
        lemma_insert_in_order(rest, landing, before[index]);
        if landing == index {
            assert(relocated(before, index, landing) =~= before);
        } else if sorted(before) {
            if landing < index {
                assert(before[landing].comparison_priority()
                    <= before[index].comparison_priority());
            } else {
                assert(before[index].comparison_priority() <= before[index
                    + 1].comparison_priority());
            }
        }
    }
}

impl TodoArray {
    /// An empty array.
    pub fn new() -> (array: Self)
        ensures
            array@ == Seq::<TodoView>::empty(),
    {
        let array = TodoArray { todos: Vec::new() };
        assert(array@ =~= Seq::<TodoView>::empty());
        array
    }

    /// The lines shown to the user, one per todo.
    pub fn display(&self) -> (lines: Vec<String>)
        ensures
            lines@.len() == self@.len(),
            forall|i: int|
                0 <= i < lines@.len() ==> (#[trigger] lines@[i])@ == self@[i].displayed(),
    {
        let mut lines: Vec<String> = Vec::new();
        let mut i: usize = 0;
        while i < self.todos.len()
            invariant
                i <= self.todos.len(),
                lines@.len() == i,
                forall|k: int| 0 <= k < i ==> (#[trigger] lines@[k])@ == self@[k].displayed(),
            decreases self.todos.len() - i,
        {
            lines.push(self.todos[i].display());
            i += 1;
        }
        lines
    }

    /// The number of todos.
    pub fn len(&self) -> (n: usize)
        ensures
            n == self@.len(),
    {
        self.todos.len()
    }

    /// The todo at `index`.
    pub fn index(&self, index: usize) -> (todo: &Todo)
        requires
            index < self@.len(),
        ensures
            todo@ == self@[index as int],
    {
        &self.todos[index]
    }

    /// The todo at `index`, to be changed in place.
    pub fn index_mut(&mut self, index: usize) -> (todo: &mut Todo)
        requires
            index < old(self)@.len(),
        ensures
            todo@ == old(self)@[index as int],
            final(self)@ == old(self)@.update(index as int, final(todo)@),
    {
        proof {
            let before = *self;
            assert forall|after: TodoArray, t: Todo|
                after.todos@ == before.todos@.update(index as int, t) implies #[trigger] array_view(
                after,
            ) == array_view(before).update(index as int, #[trigger] todo_view(t)) by {
                assert(array_view(after) =~= array_view(before).update(index as int, todo_view(t)));
            }
        }
        &mut self.todos[index]
    }

    /// Takes the todo at `index` out; those behind it move up by one.
    pub fn remove(&mut self, index: usize) -> (todo: Todo)
        requires
            index < old(self)@.len(),
        ensures
            todo@ == old(self)@[index as int],
            final(self)@ == old(self)@.remove(index as int),
    {
        let todo = self.todos.remove(index);
        assert(self@ =~= old(self)@.remove(index as int));
        todo
    }

    /// Appends a todo, whatever its priority.
    pub fn push(&mut self, item: Todo)
        ensures
            final(self)@ == old(self)@.push(item@),
    {
        self.todos.push(item);
        assert(self@ =~= old(self)@.push(item@));
    }

    /// The stretch that `reorder` searches for the new place of the todo at
    /// `index`.
    #[inline(always)]
    pub fn reorder_low_high(&self, index: usize) -> (window: (usize, usize))
        requires
            index < self@.len(),
        ensures
            (window.0 as int, window.1 as int) == reorder_window(self@, index as int),
    {
        let n = self.todos.len();
        assert(self@.len() == n);
        let priority = self.todos[index].comparison_priority();
        if index + 1 < n && priority > self.todos[index + 1].comparison_priority() {
            (index + 1, n - 1)
        } else {
            (0, index)
        }
    }

    /// Puts the todo at `index`, whose priority has changed, where it
    /// belongs, by moving it alone, and says where it now stands.
    ///
    /// When the other todos stand in order, the array is in order afterwards.
    /// A todo that already stood in order stays where it is; one that did not
    /// is put behind every todo that is not above it, before those that are.
    pub fn reorder(&mut self, index: usize) -> (landing: usize)
        requires
            index < old(self)@.len(),
        ensures
            landing < old(self)@.len(),
            final(self)@ == relocated(old(self)@, index as int, landing as int),
            final(self)@.to_multiset() == old(self)@.to_multiset(),
            sorted(old(self)@.remove(index as int)) ==> sorted(final(self)@),
            sorted(old(self)@.remove(index as int)) ==> if sorted(old(self)@) {
                landing == index
            } else {
                precedes_all_behind(final(self)@, landing as int)
            },
    {
        let ghost before = self@;
        assert(before.len() == self.todos@.len());
        let priority = self.todos[index].comparison_priority();
        if priority < self.todos[0].comparison_priority() {
            assert(priority < before[0].comparison_priority());
            let landing = self.move_index(index, 0, 1);
            proof {
                lemma_reordered(before, index as int, landing as int);
            }
            return landing;
        }
        let (low, high) = self.reorder_low_high(index);
        let mut middle: usize = low;
        while middle < high
            invariant
                self@ == before,
                before == old(self)@,
                index < before.len(),
                priority == before[index as int].comparison_priority(),
                (low as int, high as int) == reorder_window(before, index as int),
                low <= middle <= high,
                forall|k: int| low <= k <= middle ==> before[k].comparison_priority() <= priority,
            decreases high - middle,
        {
            let here = self.todos[middle].comparison_priority();
            let next = self.todos[middle + 1].comparison_priority();
            assert(here == before[middle as int].comparison_priority());
            assert(next == before[middle + 1].comparison_priority());
            if priority < next && priority >= here {
                let landing = self.move_index(index, middle, 0);
                proof {
                    lemma_reordered(before, index as int, landing as int);
                }
                return landing;
            }
            middle += 1;
        }
        let landing = self.move_index(index, high, 0);
        proof {
            lemma_reordered(before, index as int, landing as int);
        }
        landing
    }

    /// Moves the todo at `from` to its landing place by exchanging it with
    /// one neighbour after the other, and says where it landed. Toward the
    /// end it lands at `to`; toward the front at `to + 1 - shift`, or stays
    /// when that is not before `from`. The other todos keep their order.
    #[inline(always)]
    pub fn move_index(&mut self, from: usize, to: usize, shift: usize) -> (landing: usize)
        requires
            from < old(self)@.len(),
            to < old(self)@.len(),
            shift <= to + 1,
        ensures
            landing == move_landing(from as int, to as int, shift as int),
            final(self)@ == relocated(old(self)@, from as int, landing as int),
    {
        assert(self@.len() == self.todos.len());
        let mut j = from;
        let ghost start = self.todos@;
        assert(self.todos@ =~= relocated(start, from as int, from as int));
        if from < to {
            let mut i: usize = from;
            while i < to
                invariant
                    from <= i <= to < start.len(),
                    j == i,
                    self.todos@ == relocated(start, from as int, i as int),
                decreases to - i,
            {
                self.todos.swap(i, i + 1);
                assert(self.todos@ =~= relocated(start, from as int, i + 1));
                j = i + 1;
                i += 1;
            }
        } else {
            let stop = to + 1 - shift;
            let mut i: usize = from;
            while i > stop
                invariant
                    from < start.len(),
                    i <= from,
                    i >= stop || i == from,
                    j == i,
                    self.todos@ == relocated(start, from as int, i as int),
                decreases i,
            {
                i -= 1;
                self.todos.swap(i, i + 1);
                assert(self.todos@ =~= relocated(start, from as int, i as int));
                j = i;
            }
        }
        assert(self@ =~= relocated(old(self)@, from as int, j as int));
        j
    }

    /// Brings the todos into ascending order of comparison priority; todos
    /// of equal priority keep their order. Each todo in turn is moved toward
    /// the front past the todos that are above it.
    #[inline(always)]
    pub fn sort(&mut self)
        ensures
            stably_sorted(old(self)@, final(self)@),
            final(self)@.to_multiset() == old(self)@.to_multiset(),
    {
        let n = self.todos.len();
        assert(self@.len() == n);
        assert(sorted(self@.take(0)));
        let mut i: usize = 0;
        while i < n
            invariant
                i <= n == self@.len(),
                sorted(self@.take(i as int)),
                self@.to_multiset() == old(self)@.to_multiset(),
                forall|p: int| #[trigger] with_priority(self@, p) == with_priority(old(self)@, p),
            decreases n - i,
        {
            let ghost current = self@;
            let key = self.todos[i].comparison_priority();
            let mut to: usize = i;
            while to > 0 && self.todos[to - 1].comparison_priority() > key
                invariant
                    to <= i < n == current.len(),
                    self@ == current,
                    key == current[i as int].comparison_priority(),
                    forall|k: int|
                        to <= k < i ==> (#[trigger] current[k]).comparison_priority() > key,
                decreases to,
            {
                to -= 1;
            }
            self.move_index(i, to, 1);
            proof {
                let front = current.take(i as int);
                lemma_relocated_permutes(current, i as int, to as int);
                assert forall|p: int| #[trigger]
                    with_priority(self@, p) == with_priority(old(self)@, p) by {
                    lemma_move_keeps_classes(current, i as int, to as int, p);
                    assert(with_priority(current, p) == with_priority(old(self)@, p));
                }
                if to > 0 {
                    assert(front[to - 1] == current[to - 1]);
                }
                if to < i {
                    assert(front[to as int] == current[to as int]);
                }
                lemma_insert_in_order(front, to as int, current[i as int]);
                assert(self@.take(i + 1) =~= front.insert(to as int, current[i as int]));
            }
            i += 1;
        }
        assert(self@.take(n as int) =~= self@);
    }
}

/// The lines of a stored text.
pub fn split_lines(content: &str) -> (lines: Vec<Vec<char>>)
    ensures
        line_views(lines@) == lines_of(content@),
{
    let chars = to_chars(content);
    let mut lines: Vec<Vec<char>> = Vec::new();
    let mut current: Vec<char> = Vec::new();
    let mut i: usize = 0;
    assert(chars@.take(0) =~= Seq::<char>::empty());
    assert(line_views(lines@).push(current@) =~= seq![Seq::<char>::empty()]);
    while i < chars.len()
        invariant
            i <= chars.len(),
            lines_of(chars@.take(i as int)) == line_views(lines@).push(current@),
        decreases chars.len() - i,
    {
        let c = chars[i];
        proof {
            assert(chars@.take(i + 1).drop_last() =~= chars@.take(i as int));
            assert(chars@.take(i + 1).last() == c);
        }
        let ghost before = line_views(lines@).push(current@);
        if c == '\n' {
            lines.push(current);
            current = Vec::new();
            assert(line_views(lines@).push(current@) =~= before.push(Seq::empty()));
        } else {
            current.push(c);
            assert(line_views(lines@).push(current@) =~= before.drop_last().push(
                before.last().push(c),
            ));
        }
        i += 1;
    }
    assert(chars@.take(chars.len() as int) =~= chars@);
    let ghost before = line_views(lines@).push(current@);
    lines.push(current);
    assert(line_views(lines@) =~= before);
    lines
}

/// The character sequences of the lines.
pub open spec fn line_views(lines: Seq<Vec<char>>) -> Seq<Seq<char>> {
    Seq::new(lines.len(), |i: int| lines[i]@)
}

/// The stored text of the todos: the line of each, with a line feed behind it.
pub open spec fn lines_text(todos: Seq<TodoView>) -> Seq<char>
    decreases todos.len(),
{
    if todos.len() == 0 {
        Seq::empty()
    } else {
        lines_text(todos.drop_last()) + todos.last().encoded() + seq!['\n']
    }
}

/// The store after the nested list of each of the todos that has one was
/// written to it, in order.
pub open spec fn nested_written(
    todos: Seq<TodoView>,
    store: Map<Seq<char>, Seq<char>>,
) -> Map<Seq<char>, Seq<char>>
    decreases todos, 0nat,
{
    if todos.len() == 0 {
        store
    } else {
        let before = nested_written(todos.drop_last(), store);
        let last = todos.last();
        if last.has_dependency() {
            written(last.dependencies, last.dependency_name, before)
        } else {
            before
        }
    }
}

/// The store after `list` was written to it under `name`: first the nested
/// lists of the undone todos, then those of the done ones, then the list's
/// own text, the undone todos before the done ones.
pub open spec fn written(
    list: TodoListView,
    name: Seq<char>,
    store: Map<Seq<char>, Seq<char>>,
) -> Map<Seq<char>, Seq<char>>
    decreases list, 1nat,
{
    nested_written(list.done, nested_written(list.undone, store)).insert(
        name,
        lines_text(list.undone) + lines_text(list.done),
    )
}

/// The list with every undone todo whose own done flag is set moved to the
/// end of the done ones; on both sides the order stays.
pub open spec fn partitioned(list: TodoListView) -> TodoListView {
    TodoListView {
        undone: list.undone.filter(|t: TodoView| !t.done),
        done: list.done + list.undone.filter(|t: TodoView| t.done),
    }
}

/// Among the todos whose done flag is not set, none has it set.
proof fn lemma_kept_are_undone(todos: Seq<TodoView>)
    ensures
        todos.filter(|t: TodoView| !t.done).filter(|t: TodoView| !t.done) == todos.filter(
            |t: TodoView| !t.done,
        ),
        todos.filter(|t: TodoView| !t.done).filter(|t: TodoView| t.done) == Seq::<
            TodoView,
        >::empty(),
    decreases todos.len(),
{
    let keep = |t: TodoView| !t.done;
    let take = |t: TodoView| t.done;
    if todos.len() == 0 {
        assert(todos.filter(keep) =~= Seq::<TodoView>::empty()) by {
            reveal(Seq::filter);
        }
        assert(Seq::<TodoView>::empty().filter(keep) =~= Seq::<TodoView>::empty()) by {
            reveal(Seq::filter);
        }
        assert(Seq::<TodoView>::empty().filter(take) =~= Seq::<TodoView>::empty()) by {
            reveal(Seq::filter);
        }
    } else {
        let front = todos.drop_last();
        let last = todos.last();
        lemma_kept_are_undone(front);
        assert(todos =~= front.push(last));
        front.lemma_filter_push(last, keep);
        if keep(last) {
            front.filter(keep).lemma_filter_push(last, keep);
            front.filter(keep).lemma_filter_push(last, take);
        }
    }
}

/// Partitioning a list twice gives what partitioning it once gives.
pub proof fn lemma_fix_undone_idempotent(list: TodoListView)
    ensures
        partitioned(partitioned(list)) == partitioned(list),
{
    lemma_kept_are_undone(list.undone);
    let once = partitioned(list);
    assert(once.done + Seq::<TodoView>::empty() =~= once.done);
}

impl TodoList {
    /// A list with both partitions empty.
    pub fn new() -> (list: Self)
        ensures
            list@ == empty_list(),
    {
        let undone = TodoArray::new();
        let done = TodoArray::new();
        TodoList { done, undone }
    }

    /// The list stored under `name`: empty when nothing is stored there;
    /// else the todos of the lines that can be read, in their order, each in
    /// the partition that its own done flag puts it in. Lines that cannot be
    /// read are left out. Nested lists are read as deep as the store has
    /// names.
    pub fn read(store: &Storage, name: &String) -> (list: Self)
        ensures
            list@ == read_list(store@, name@, store@.dom().len()),
    {
        TodoList::read_to_depth(store, name, store.len())
    }

    /// The list stored under `name`, nested lists read down to `depth`
    /// further levels.
    pub fn read_to_depth(store: &Storage, name: &String, depth: usize) -> (list: Self)
        ensures
            list@ == read_list(store@, name@, depth as nat),
        decreases depth, 2nat,
    {
        let mut todo_list = Self::new();
        let content = match store.get(name) {
            Some(content) => content,
            None => { return todo_list; },
        };
        let lines = split_lines(content.as_str());
        let ghost all = line_views(lines@);
        let mut k: usize = 0;
        assert(all.take(0) =~= Seq::<Seq<char>>::empty());
        while k < lines.len()
            invariant
                k <= lines.len(),
                all == line_views(lines@),
                todo_list@ == parse_lines(all.take(k as int), store@, depth as nat),
            decreases lines.len() - k,
        {
            proof {
                assert(all.take(k + 1).drop_last() =~= all.take(k as int));
                assert(all.take(k + 1).last() == lines@[k as int]@);
            }
            match Todo::read_to_depth(&lines[k], store, depth) {
                Some(todo) => {
                    if todo.done {
                        todo_list.done.push(todo);
                    } else {
                        todo_list.undone.push(todo);
                    }
                },
                None => {},
            }
            k += 1;
        }
        assert(all.take(lines.len() as int) =~= all);
        todo_list
    }

    /// Appends a todo to the undone ones, whatever its priority.
    pub fn add(&mut self, todo: Todo)
        ensures
            final(self)@ == (TodoListView { undone: old(self)@.undone.push(todo@), ..old(self)@ }),
    {
        self.undone.push(todo);
    }

    /// Moves every todo whose own done flag is set from the undone todos to
    /// the end of the done ones; on both sides the order stays.
    pub fn fix_undone(&mut self)
        ensures
            final(self)@ == partitioned(old(self)@),
    {
        let ghost undone = self@.undone;
        let ghost done = self@.done;
        let ghost keep = |t: TodoView| !t.done;
        let ghost take = |t: TodoView| t.done;
        let ghost seen: int = 0;
        let mut index: usize = 0;
        proof {
            assert(undone.take(0) =~= Seq::<TodoView>::empty());
            assert(undone.skip(0) =~= undone);
            assert(self@.undone =~= undone.take(0).filter(keep) + undone.skip(0));
            assert(self@.done =~= done + undone.take(0).filter(take));
        }
        while index < self.undone.len()
            invariant
                0 <= seen <= undone.len(),
                keep == |t: TodoView| !t.done,
                take == |t: TodoView| t.done,
                index == undone.take(seen).filter(keep).len(),
                self@.undone == undone.take(seen).filter(keep) + undone.skip(seen),
                self@.done == done + undone.take(seen).filter(take),
            decreases undone.len() - seen,
        {
            proof {
                assert(seen < undone.len());
                assert(self@.undone[index as int] == undone.skip(seen)[0]);
                assert(undone.take(seen + 1) =~= undone.take(seen).push(undone[seen]));
                undone.take(seen).lemma_filter_push(undone[seen], keep);
                undone.take(seen).lemma_filter_push(undone[seen], take);
            }
            if self.undone.todos[index].done {
                let todo = self.undone.remove(index);
                self.done.push(todo);
                proof {
                    assert(self@.undone =~= undone.take(seen + 1).filter(keep) + undone.skip(
                        seen + 1,
                    ));
                    assert(self@.done =~= done + undone.take(seen + 1).filter(take));
                }
            } else {
                proof {
                    assert(self@.undone =~= undone.take(seen + 1).filter(keep) + undone.skip(
                        seen + 1,
                    ));
                }
                index += 1;
            }
            proof {
                seen = seen + 1;
            }
        }
        proof {
            assert(seen == undone.len()) by {
                if seen < undone.len() {
                    assert(self@.undone.len() == index + undone.skip(seen).len());
                }
            }
            assert(undone.take(seen) =~= undone);
            assert(undone.skip(seen) =~= Seq::<TodoView>::empty());
            assert(self@.undone =~= undone.filter(keep));
            assert(self@ == partitioned(old(self)@));
        }
    }

    /// Writes the list to the store under `name`, replacing what was stored
    /// there, after writing the nested list of every todo that has one under
    /// that list's own name.
    pub fn write(&self, store: &mut Storage, name: &String)
        ensures
            final(store)@ == written(self@, name@, old(store)@),
        decreases self, 1nat,
    {
        let mut text = String::new();
        self.undone.write_nested(store, &mut text);
        self.done.write_nested(store, &mut text);
        assert(text@ =~= lines_text(self@.undone) + lines_text(self@.done));
        store.put(name.clone(), text);
    }
}

impl TodoArray {
    /// Writes the nested list of every todo that has one to the store and
    /// appends the line of every todo to `text`.
    pub fn write_nested(&self, store: &mut Storage, text: &mut String)
        ensures
            final(store)@ == nested_written(self@, old(store)@),
            final(text)@ == old(text)@ + lines_text(self@),
        decreases self, 0nat,
    {
        let mut i: usize = 0;
        assert(self@.take(0) =~= Seq::<TodoView>::empty());
        assert(text@ =~= old(text)@ + lines_text(self@.take(0)));
        while i < self.todos.len()
            invariant
                i <= self.todos.len(),
                store@ == nested_written(self@.take(i as int), old(store)@),
                text@ == old(text)@ + lines_text(self@.take(i as int)),
            decreases self.todos.len() - i,
        {
            let todo = &self.todos[i];
            proof {
                assert(self@.take(i + 1).drop_last() =~= self@.take(i as int));
                assert(self@.take(i + 1).last() == todo@);
            }
            if todo.has_dependency() {
                todo.dependencies.write(store, &todo.dependency_name);
            }
            let line = todo.as_string();
            text.append(line.as_str());
            text.push('\n');
            assert(text@ =~= old(text)@ + lines_text(self@.take(i + 1)));
            i += 1;
        }
        assert(self@.take(self.todos.len() as int) =~= self@);
    }
}

} // verus!
