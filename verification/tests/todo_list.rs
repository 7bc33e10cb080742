use todolist::storage::Storage;
use todolist::todo_list::todo::Todo;
use todolist::todo_list::{split_lines, TodoArray, TodoArrayError, TodoList};

fn todo(message: &str, priority: i8, done: bool) -> Todo {
    Todo {
        message: message.to_string(),
        note: String::new(),
        priority,
        dependencies: TodoList::new(),
        dependency_name: String::new(),
        done,
    }
}

/// An array whose todos have the given priorities and are named by their place.
fn array_of(priorities: &[i8]) -> TodoArray {
    let mut array = TodoArray::new();
    for (place, priority) in priorities.iter().enumerate() {
        array.push(todo(&format!("{}", place), *priority, false));
    }
    array
}

fn names(array: &TodoArray) -> Vec<String> {
    array.todos.iter().map(|t| t.message.clone()).collect()
}

fn keys(array: &TodoArray) -> Vec<i8> {
    array.todos.iter().map(|t| t.comparison_priority()).collect()
}

fn is_sorted(keys: &[i8]) -> bool {
    keys.windows(2).all(|w| w[0] <= w[1])
}

fn all_arrays(length: usize, priorities: &[i8]) -> Vec<Vec<i8>> {
    let mut arrays: Vec<Vec<i8>> = vec![Vec::new()];
    for _ in 0..length {
        let mut longer = Vec::new();
        for array in &arrays {
            for p in priorities {
                let mut next = array.clone();
                next.push(*p);
                longer.push(next);
            }
        }
        arrays = longer;
    }
    arrays
}

fn plain_move(names: &mut Vec<String>, from: usize, to: usize, shift: usize) -> usize {
    let mut j = from;
    if from < to {
        for i in from..to {
            names.swap(i, i + 1);
            j = i + 1;
        }
    } else {
        for i in (to + 1 - shift..from).rev() {
            names.swap(i, i + 1);
            j = i;
        }
    }
    j
}

fn plain_reorder(keys: &[i8], names: &mut Vec<String>, index: usize) -> usize {
    let priority = keys[index];
    if priority < keys[0] {
        return plain_move(names, index, 0, 1);
    }
    let (low, high) = if index + 1 < keys.len() && priority > keys[index + 1] {
        (index + 1, keys.len() - 1)
    } else {
        (0, index)
    };
    for middle in low..high {
        if priority < keys[middle + 1] && priority >= keys[middle] {
            return plain_move(names, index, middle, 0);
        }
    }
    plain_move(names, index, high, 0)
}

#[test]
fn new_array_is_empty() {
    let array = TodoArray::new();
    assert_eq!(array.len(), 0);
    assert_eq!(array.todos, Vec::new());
    assert_eq!(array.display(), Vec::<String>::new());
    assert_eq!(TodoArray::default(), array);
}

#[test]
fn error_of_arrays() {
    assert_eq!(TodoArrayError::IndexNotFound, TodoArrayError::IndexNotFound);
}

#[test]
fn push_len_index_remove() {
    let mut array = array_of(&[3, 1, 2]);
    assert_eq!(array.len(), 3);
    assert_eq!(array.index(1).priority, 1);
    array.index_mut(1).set_priority(7);
    assert_eq!(keys(&array), vec![3, 7, 2]);
    let removed = array.remove(0);
    assert_eq!(removed.message, "0");
    assert_eq!(names(&array), vec!["1", "2"]);
    let removed = array.remove(1);
    assert_eq!(removed.message, "2");
    assert_eq!(names(&array), vec!["1"]);
}

#[test]
fn display_lists_every_todo() {
    let mut array = array_of(&[3, 0]);
    array.todos[1].toggle_done();
    assert_eq!(array.display(), vec!["[ ] [3] 0".to_string(), "[x] [0] 1".to_string()]);
}

#[test]
fn move_index_shifts_the_others() {
    let mut array = array_of(&[1, 2, 3, 4, 5]);
    assert_eq!(array.move_index(1, 3, 0), 3);
    assert_eq!(names(&array), vec!["0", "2", "3", "1", "4"]);
    assert_eq!(array.move_index(3, 1, 1), 1);
    assert_eq!(names(&array), vec!["0", "1", "2", "3", "4"]);
    assert_eq!(array.move_index(4, 1, 0), 2);
    assert_eq!(names(&array), vec!["0", "1", "4", "2", "3"]);
    assert_eq!(array.move_index(2, 2, 0), 2);
    assert_eq!(array.move_index(2, 2, 1), 2);
    assert_eq!(array.move_index(2, 1, 0), 2);
    assert_eq!(names(&array), vec!["0", "1", "4", "2", "3"]);
    assert_eq!(array.move_index(4, 0, 1), 0);
    assert_eq!(names(&array), vec!["3", "0", "1", "4", "2"]);
    assert_eq!(array.move_index(4, 3, 3), 1);
    assert_eq!(names(&array), vec!["3", "2", "0", "1", "4"]);
}

#[test]
fn move_index_agrees_with_adjacent_swaps() {
    for length in 1..=5usize {
        for from in 0..length {
            for to in 0..length {
                for shift in 0..=to + 1 {
                    let priorities = vec![1i8; length];
                    let mut array = array_of(&priorities);
                    let mut expected = names(&array);
                    let landing = array.move_index(from, to, shift);
                    assert_eq!(landing, plain_move(&mut expected, from, to, shift));
                    assert_eq!(names(&array), expected);
                    assert_eq!(array.todos[landing].message, format!("{}", from));
                }
            }
        }
    }
}

#[test]
fn move_index_there_and_back() {
    for length in 1..=6usize {
        for from in 0..length {
            for to in 0..length {
                for shift in 0..=1usize {
                    let priorities = vec![1i8; length];
                    let mut array = array_of(&priorities);
                    let start = names(&array);
                    let landing = array.move_index(from, to, shift);
                    assert_eq!(array.move_index(landing, from, 1), from);
                    assert_eq!(names(&array), start);
                }
            }
        }
    }
}

#[test]
fn move_index_back_without_shift_may_miss() {
    let mut array = array_of(&[1, 1, 1, 1, 1, 1]);
    assert_eq!(array.move_index(2, 5, 0), 5);
    assert_eq!(array.move_index(5, 2, 0), 3);
    assert_eq!(names(&array), vec!["0", "1", "3", "2", "4", "5"]);
}

#[test]
fn reorder_low_high_gives_the_window() {
    let array = array_of(&[1, 5, 3, 0]);
    assert_eq!(array.reorder_low_high(1), (2, 3));
    assert_eq!(array.reorder_low_high(0), (0, 0));
    assert_eq!(array.reorder_low_high(2), (0, 2));
    assert_eq!(array.reorder_low_high(3), (0, 3));
    let unset_first = array_of(&[0, 9]);
    assert_eq!(unset_first.reorder_low_high(0), (1, 1));
}

#[test]
fn reorder_examples() {
    let mut array = array_of(&[1, 3, 5, 7]);
    array.index_mut(2).set_priority(1);
    assert_eq!(array.reorder(2), 1);
    assert_eq!(names(&array), vec!["0", "2", "1", "3"]);

    let mut array = array_of(&[1, 3, 5, 7]);
    array.index_mut(0).set_priority(0);
    assert_eq!(array.reorder(0), 3);
    assert_eq!(names(&array), vec!["1", "2", "3", "0"]);

    let mut array = array_of(&[2, 3, 5, 7]);
    array.index_mut(3).set_priority(1);
    assert_eq!(array.reorder(3), 0);
    assert_eq!(names(&array), vec!["3", "0", "1", "2"]);

    let mut array = array_of(&[2, 3, 3, 7]);
    array.index_mut(1).set_priority(4);
    assert_eq!(array.reorder(1), 2);
    assert_eq!(names(&array), vec!["0", "2", "1", "3"]);

    let mut array = array_of(&[2, 3, 3, 3]);
    assert_eq!(array.reorder(1), 1);
    assert_eq!(names(&array), vec!["0", "1", "2", "3"]);

    let mut array = array_of(&[4]);
    assert_eq!(array.reorder(0), 0);
}

#[test]
fn reorder_restores_the_order() {
    let priorities = [0i8, 1, 2, 3];
    for length in 1..=5usize {
        for given in all_arrays(length, &priorities) {
            for index in 0..length {
                let mut array = array_of(&given);
                let before_keys = keys(&array);
                let mut rest = before_keys.clone();
                rest.remove(index);
                if !is_sorted(&rest) {
                    continue;
                }
                let was_sorted = is_sorted(&before_keys);
                let landing = array.reorder(index);
                let after_keys = keys(&array);
                assert!(is_sorted(&after_keys), "{:?} {}", given, index);
                assert_eq!(array.todos[landing].message, format!("{}", index));
                let mut others = names(&array);
                others.remove(landing);
                let mut expected: Vec<String> = (0..length).map(|i| format!("{}", i)).collect();
                expected.remove(index);
                assert_eq!(others, expected);
                if was_sorted {
                    assert_eq!(landing, index, "{:?} {}", given, index);
                } else {
                    assert!(
                        after_keys[landing + 1..].iter().all(|k| *k > after_keys[landing]),
                        "{:?} {}",
                        given,
                        index
                    );
                }
            }
        }
    }
}

#[test]
fn reorder_agrees_with_the_linear_scan() {
    let priorities = [0i8, 1, 2, 9];
    for length in 1..=5usize {
        for given in all_arrays(length, &priorities) {
            for index in 0..length {
                let mut array = array_of(&given);
                let mut expected = names(&array);
                let expected_landing = plain_reorder(&keys(&array), &mut expected, index);
                assert_eq!(array.reorder(index), expected_landing, "{:?} {}", given, index);
                assert_eq!(names(&array), expected, "{:?} {}", given, index);
            }
        }
    }
}

#[test]
fn sort_is_stable_and_puts_unset_last() {
    let mut array = array_of(&[3, 0, 1, 3, 0, 2, 1, 9]);
    array.sort();
    assert_eq!(keys(&array), vec![1, 1, 2, 3, 3, 9, 10, 10]);
    assert_eq!(names(&array), vec!["2", "6", "5", "0", "3", "7", "1", "4"]);

    let mut empty = TodoArray::new();
    empty.sort();
    assert_eq!(empty.len(), 0);

    let mut sorted = array_of(&[1, 2, 3]);
    sorted.sort();
    assert_eq!(names(&sorted), vec!["0", "1", "2"]);

    let mut reversed = array_of(&[0, 9, 8, 7]);
    reversed.sort();
    assert_eq!(names(&reversed), vec!["3", "2", "1", "0"]);
}

#[test]
fn new_list_is_empty() {
    let list = TodoList::new();
    assert_eq!(list.undone.len(), 0);
    assert_eq!(list.done.len(), 0);
    assert_eq!(TodoList::default(), list);
}

#[test]
fn add_appends_to_undone() {
    let mut list = TodoList::new();
    list.add(todo("a", 5, false));
    list.add(todo("b", 1, true));
    assert_eq!(names(&list.undone), vec!["a", "b"]);
    assert_eq!(list.done.len(), 0);
}

#[test]
fn fix_undone_moves_the_done_ones() {
    let mut list = TodoList::new();
    list.done.push(todo("old", 1, true));
    for (name, done) in [("a", true), ("b", true), ("c", false), ("d", true), ("e", false), ("f", true), ("g", true)] {
        list.add(todo(name, 1, done));
    }
    list.fix_undone();
    assert_eq!(names(&list.undone), vec!["c", "e"]);
    assert_eq!(names(&list.done), vec!["old", "a", "b", "d", "f", "g"]);
}

#[test]
fn fix_undone_goes_by_the_own_flag() {
    let mut list = TodoList::new();
    let mut parent = todo("parent", 1, false);
    parent.dependency_name = "p.todo".to_string();
    parent.dependencies.done.push(todo("child", 1, true));
    assert!(parent.done());
    list.add(parent);
    list.fix_undone();
    assert_eq!(names(&list.undone), vec!["parent"]);
    assert_eq!(list.done.len(), 0);
}

#[test]
fn fix_undone_twice_is_fix_undone_once() {
    for length in 0..=6usize {
        for flags in 0..(1u32 << length) {
            let mut list = TodoList::new();
            list.done.push(todo("old", 1, false));
            for place in 0..length {
                list.add(todo(&format!("{}", place), 1, flags & (1 << place) != 0));
            }
            list.fix_undone();
            let undone = names(&list.undone);
            let done = names(&list.done);
            assert!(list.undone.todos.iter().all(|t| !t.done));
            assert_eq!(undone.len() + done.len(), length + 1);
            list.fix_undone();
            assert_eq!(names(&list.undone), undone);
            assert_eq!(names(&list.done), done);
        }
    }
}

#[test]
fn lines_are_split_at_line_feeds() {
    let text = |lines: Vec<Vec<char>>| -> Vec<String> {
        lines.iter().map(|l| l.iter().collect()).collect()
    };
    assert_eq!(text(split_lines("")), vec![""]);
    assert_eq!(text(split_lines("a")), vec!["a"]);
    assert_eq!(text(split_lines("a\n")), vec!["a", ""]);
    assert_eq!(text(split_lines("a\nb")), vec!["a", "b"]);
    assert_eq!(text(split_lines("\n\nb\r\n")), vec!["", "", "b\r", ""]);
}

#[test]
fn read_of_a_missing_name_is_empty() {
    let store = Storage::new();
    let list = TodoList::read(&store, &"does/not/exist".to_string());
    assert_eq!(list.undone.len(), 0);
    assert_eq!(list.done.len(), 0);
    assert_eq!(list, TodoList::new());

    let mut other = Storage::new();
    other.put("present".to_string(), "[1] a\n".to_string());
    assert_eq!(TodoList::read(&other, &"absent".to_string()), TodoList::new());
}

#[test]
fn read_partitions_and_skips() {
    let mut store = Storage::new();
    store.put(
        "todo".to_string(),
        "[1] first\n[-2] second\nnot a todo\n\n[3]>cafe third\r\n[-0] fourth\n[5] last".to_string(),
    );
    let list = TodoList::read(&store, &"todo".to_string());
    assert_eq!(names(&list.undone), vec!["first", "third", "last"]);
    assert_eq!(names(&list.done), vec!["second", "fourth"]);
    assert_eq!(list.undone.todos[1].note, "cafe");
    assert_eq!(list.done.todos[0].priority, 2);
    assert!(list.done.todos.iter().all(|t| t.done));
    assert!(list.undone.todos.iter().all(|t| !t.done));
}

#[test]
fn read_goes_by_the_own_flag() {
    let mut store = Storage::new();
    store.put("top".to_string(), "[1]>sub.todo parent\n".to_string());
    store.put("sub.todo".to_string(), "[-1] child\n".to_string());
    let list = TodoList::read(&store, &"top".to_string());
    assert_eq!(names(&list.undone), vec!["parent"]);
    assert_eq!(list.done.len(), 0);
    assert!(list.undone.todos[0].done());
    assert_eq!(names(&list.undone.todos[0].dependencies.done), vec!["child"]);
}

#[test]
fn read_follows_nested_lists() {
    let mut store = Storage::new();
    store.put("top".to_string(), "[1]>a.todo one\n[2]>b.todo two\n".to_string());
    store.put("a.todo".to_string(), "[1]>c.todo deep\n[2] shallow\n".to_string());
    store.put("c.todo".to_string(), "[-4] deepest\n".to_string());
    let list = TodoList::read(&store, &"top".to_string());
    let one = &list.undone.todos[0];
    let two = &list.undone.todos[1];
    assert_eq!(names(&one.dependencies.undone), vec!["deep", "shallow"]);
    assert_eq!(names(&one.dependencies.undone.todos[0].dependencies.done), vec!["deepest"]);
    assert_eq!(two.dependency_name, "b.todo");
    assert_eq!(two.dependencies, TodoList::new());
}

#[test]
fn read_of_a_list_that_names_itself_ends() {
    let mut store = Storage::new();
    store.put("a.todo".to_string(), "[1]>a.todo again\n".to_string());
    let list = TodoList::read(&store, &"a.todo".to_string());
    let first = &list.undone.todos[0];
    assert_eq!(first.message, "again");
    let second = &first.dependencies.undone.todos[0];
    assert_eq!(second.message, "again");
    assert_eq!(second.dependencies, TodoList::new());

    let shallow = TodoList::read_to_depth(&store, &"a.todo".to_string(), 0);
    assert_eq!(shallow.undone.todos[0].dependencies, TodoList::new());
}

#[test]
fn write_stores_undone_before_done() {
    let mut store = Storage::new();
    let mut list = TodoList::new();
    list.add(todo("a", 1, false));
    list.add(todo("b", 0, false));
    list.done.push(todo("c", 3, true));
    list.write(&mut store, &"todo".to_string());
    assert_eq!(store.get(&"todo".to_string()), Some(&"[1] a\n[0] b\n[-3] c\n".to_string()));
    assert_eq!(store.len(), 1);

    TodoList::new().write(&mut store, &"todo".to_string());
    assert_eq!(store.get(&"todo".to_string()), Some(&String::new()));
}

#[test]
fn write_stores_nested_lists_first() {
    let mut store = Storage::new();
    let mut inner = todo("inner", 2, false);
    inner.dependency_name = "deep.todo".to_string();
    inner.dependencies.done.push(todo("leaf", 1, true));
    let mut outer = todo("outer", 1, false);
    outer.dependency_name = "sub.todo".to_string();
    outer.dependencies.add(inner);
    let mut list = TodoList::new();
    list.add(outer);
    list.add(todo("plain", 4, false));
    list.write(&mut store, &"top".to_string());

    assert_eq!(store.len(), 3);
    assert_eq!(store.get(&"top".to_string()), Some(&"[1]>sub.todo outer\n[4] plain\n".to_string()));
    assert_eq!(store.get(&"sub.todo".to_string()), Some(&"[-2]>deep.todo inner\n".to_string()));
    assert_eq!(store.get(&"deep.todo".to_string()), Some(&"[-1] leaf\n".to_string()));

    let read = TodoList::read(&store, &"top".to_string());
    assert_eq!(names(&read.undone), vec!["outer", "plain"]);
    let inner_read = &read.undone.todos[0].dependencies.done.todos[0];
    assert_eq!(inner_read.message, "inner");
    assert_eq!(names(&inner_read.dependencies.done), vec!["leaf"]);
}

#[test]
fn write_then_read_gives_the_list_back() {
    let mut store = Storage::new();
    let mut list = TodoList::new();
    list.add(todo("a", 1, false));
    list.add(todo("b", 9, false));
    list.done.push(todo("c", 0, true));
    list.write(&mut store, &"todo".to_string());
    assert_eq!(TodoList::read(&store, &"todo".to_string()), list);
}

#[test]
fn clones_are_equal_and_independent() {
    let mut inner = todo("inner", 2, true);
    inner.note = "cafe".to_string();
    let mut outer = todo("outer", 1, false);
    outer.dependency_name = "sub.todo".to_string();
    outer.dependencies.add(inner);
    let mut list = TodoList::new();
    list.add(outer);
    list.done.push(todo("finished", 0, true));

    let mut copy = list.clone();
    assert_eq!(copy, list);
    assert_eq!(copy.undone.clone(), list.undone);
    assert_eq!(copy.undone.todos[0].clone(), list.undone.todos[0]);

    copy.undone.todos[0].dependencies.undone.todos[0].set_message("changed".to_string());
    assert_ne!(copy, list);
    assert_eq!(list.undone.todos[0].dependencies.undone.todos[0].message, "inner");
}
