use worksteal::editing::{EditorCommand, TextEditor};

fn text(s: &str) -> Vec<char> {
    s.chars().collect()
}

fn insert(position: usize, s: &str) -> EditorCommand {
    EditorCommand::Insert { position, text: text(s) }
}

fn delete(position: usize, s: &str) -> EditorCommand {
    EditorCommand::Delete { position, text: text(s) }
}

#[test]
fn commands_apply_and_reverse() {
    let mut content = text("Hello World");
    let cmd = EditorCommand::Replace { position: 6, old: text("World"), new: text("Rust") };
    cmd.apply(&mut content);
    assert_eq!(content, text("Hello Rust"));
    let undo_cmd = cmd.reverse();
    undo_cmd.apply(&mut content);
    assert_eq!(content, text("Hello World"));
}

#[test]
fn reverse_swaps_insert_and_delete() {
    let mut content = text("abc");
    let cmd = insert(1, "xy");
    cmd.apply(&mut content);
    assert_eq!(content, text("axybc"));
    cmd.reverse().apply(&mut content);
    assert_eq!(content, text("abc"));

    let mut content2 = text("axybc");
    let del = delete(1, "xy");
    del.apply(&mut content2);
    assert_eq!(content2, text("abc"));
    del.reverse().apply(&mut content2);
    assert_eq!(content2, text("axybc"));
}

#[test]
fn editor_executes_undoes_and_redoes() {
    let mut editor = TextEditor::new();
    editor.execute(insert(0, "Hello"));
    assert_eq!(editor.content(), "Hello");
    editor.execute(insert(5, " World"));
    assert_eq!(editor.content(), "Hello World");
    editor.execute(delete(5, " World"));
    assert_eq!(editor.content(), "Hello");
    editor.undo();
    assert_eq!(editor.content(), "Hello World");
    editor.undo();
    assert_eq!(editor.content(), "Hello");
    editor.redo();
    assert_eq!(editor.content(), "Hello World");
}

#[test]
fn undo_and_redo_on_empty_stacks_change_nothing() {
    let mut editor = TextEditor::new();
    editor.undo();
    assert_eq!(editor.content(), "");
    editor.redo();
    assert_eq!(editor.content(), "");
    editor.execute(insert(0, "x"));
    editor.redo();
    assert_eq!(editor.content(), "x");
}

#[test]
fn executing_discards_the_redo_pile() {
    let mut editor = TextEditor::new();
    editor.execute(insert(0, "ab"));
    editor.execute(insert(2, "cd"));
    editor.undo();
    assert_eq!(editor.content(), "ab");
    editor.execute(insert(2, "zz"));
    assert_eq!(editor.content(), "abzz");
    // The undone "cd" insertion is gone: redo has nothing to apply.
    editor.redo();
    assert_eq!(editor.content(), "abzz");
}
