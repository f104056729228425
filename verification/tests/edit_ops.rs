use fs_guard::edit::{apply_operation, default_case_sensitive, EditError, EditOperation};

#[test]
fn test_replace_operation() {
    let mut content = String::from("Hello, world! Hello, again!");
    let operation = EditOperation::Replace {
        find: String::from("Hello"),
        replace: String::from("Hi"),
        occurrence: 0,
        case_sensitive: true,
    };

    apply_operation(&operation, &mut content).unwrap();
    assert_eq!(content, "Hi, world! Hello, again!");

    // Replace all occurrences
    let operation = EditOperation::Replace {
        find: String::from("world"),
        replace: String::from("planet"),
        occurrence: -1,
        case_sensitive: true,
    };

    apply_operation(&operation, &mut content).unwrap();
    assert_eq!(content, "Hi, planet! Hello, again!");
}

#[test]
fn test_insert_operation() {
    let mut content = String::from("Hello world!");
    let operation = EditOperation::Insert {
        position: 5,
        content: String::from(", beautiful"),
    };

    apply_operation(&operation, &mut content).unwrap();
    assert_eq!(content, "Hello, beautiful world!");
}

#[test]
fn test_delete_operation() {
    let mut content = String::from("Hello, beautiful world!");
    let operation = EditOperation::Delete { start: 5, end: 16 };

    apply_operation(&operation, &mut content).unwrap();
    assert_eq!(content, "Hello world!");
}

#[test]
fn test_replace_lines_operation() {
    let mut content = String::from("Line 1\nLine 2\nLine 3\nLine 4");
    let operation = EditOperation::ReplaceLines {
        start_line: 1,
        end_line: 2,
        content: String::from("New Line 2\nNew Line 3"),
    };

    apply_operation(&operation, &mut content).unwrap();
    assert_eq!(content, "Line 1\nNew Line 2\nNew Line 3\nLine 4");
}

#[test]
fn replace_second_occurrence() {
    let mut content = String::from("ab ab ab");
    let operation = EditOperation::Replace {
        find: String::from("ab"),
        replace: String::from("X"),
        occurrence: 1,
        case_sensitive: true,
    };
    apply_operation(&operation, &mut content).unwrap();
    assert_eq!(content, "ab X ab");
}

#[test]
fn replace_case_insensitive_all() {
    let mut content = String::from("Hello hello HELLO");
    let operation = EditOperation::Replace {
        find: String::from("hello"),
        replace: String::from("hi"),
        occurrence: -1,
        case_sensitive: false,
    };
    apply_operation(&operation, &mut content).unwrap();
    assert_eq!(content, "hi hi hi");
}

#[test]
fn replace_case_insensitive_kth() {
    let mut content = String::from("Hello hello HELLO");
    let operation = EditOperation::Replace {
        find: String::from("HeLLo"),
        replace: String::from("hi"),
        occurrence: 2,
        case_sensitive: false,
    };
    apply_operation(&operation, &mut content).unwrap();
    assert_eq!(content, "Hello hello hi");
}

#[test]
fn replace_empty_find_is_refused() {
    let mut content = String::from("abc");
    let operation = EditOperation::Replace {
        find: String::new(),
        replace: String::from("x"),
        occurrence: 0,
        case_sensitive: true,
    };
    assert_eq!(
        apply_operation(&operation, &mut content),
        Err(EditError::EmptyFind)
    );
    assert_eq!(content, "abc");
}

#[test]
fn replace_not_found() {
    let mut content = String::from("abc");
    let operation = EditOperation::Replace {
        find: String::from("xyz"),
        replace: String::from("q"),
        occurrence: -1,
        case_sensitive: true,
    };
    assert_eq!(
        apply_operation(&operation, &mut content),
        Err(EditError::NotFound)
    );
    assert_eq!(content, "abc");
}

#[test]
fn replace_occurrence_out_of_range() {
    let mut content = String::from("aa aa");
    let operation = EditOperation::Replace {
        find: String::from("aa"),
        replace: String::from("b"),
        occurrence: 5,
        case_sensitive: true,
    };
    assert_eq!(
        apply_operation(&operation, &mut content),
        Err(EditError::OccurrenceNotFound)
    );
    let operation = EditOperation::Replace {
        find: String::from("aa"),
        replace: String::from("b"),
        occurrence: -2,
        case_sensitive: true,
    };
    assert_eq!(
        apply_operation(&operation, &mut content),
        Err(EditError::OccurrenceNotFound)
    );
    assert_eq!(content, "aa aa");
}

#[test]
fn insert_at_ends() {
    let mut content = String::from("bc");
    let front = EditOperation::Insert { position: 0, content: String::from("a") };
    apply_operation(&front, &mut content).unwrap();
    assert_eq!(content, "abc");
    let back = EditOperation::Insert { position: 3, content: String::from("d") };
    apply_operation(&back, &mut content).unwrap();
    assert_eq!(content, "abcd");
}

#[test]
fn insert_past_end_is_refused() {
    let mut content = String::from("abc");
    let operation = EditOperation::Insert { position: 4, content: String::from("x") };
    assert_eq!(
        apply_operation(&operation, &mut content),
        Err(EditError::PositionPastEnd)
    );
    assert_eq!(content, "abc");
}

#[test]
fn delete_range_errors() {
    let mut content = String::from("abc");
    let start_past = EditOperation::Delete { start: 3, end: 4 };
    assert_eq!(
        apply_operation(&start_past, &mut content),
        Err(EditError::StartPastEnd)
    );
    let end_past = EditOperation::Delete { start: 1, end: 4 };
    assert_eq!(
        apply_operation(&end_past, &mut content),
        Err(EditError::EndPastEnd)
    );
    let empty = EditOperation::Delete { start: 2, end: 2 };
    assert_eq!(
        apply_operation(&empty, &mut content),
        Err(EditError::EmptyRange)
    );
    assert_eq!(content, "abc");
}

#[test]
fn replace_lines_errors() {
    let mut content = String::from("one\ntwo");
    let inverted = EditOperation::ReplaceLines {
        start_line: 2,
        end_line: 1,
        content: String::from("x"),
    };
    assert_eq!(
        apply_operation(&inverted, &mut content),
        Err(EditError::LineRangeInverted)
    );
    let past = EditOperation::ReplaceLines {
        start_line: 2,
        end_line: 3,
        content: String::from("x"),
    };
    assert_eq!(
        apply_operation(&past, &mut content),
        Err(EditError::LineStartPastEnd)
    );
    assert_eq!(content, "one\ntwo");
}

#[test]
fn replace_lines_to_end_clamps() {
    let mut content = String::from("a\nb\nc");
    let operation = EditOperation::ReplaceLines {
        start_line: 1,
        end_line: 9,
        content: String::from("B"),
    };
    apply_operation(&operation, &mut content).unwrap();
    assert_eq!(content, "a\nB");
}

#[test]
fn default_case_sensitivity_is_exact() {
    assert!(default_case_sensitive());
}
