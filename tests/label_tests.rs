use yolo_io::{
    Decimal, FileMetadata, YoloClass, YoloEntry, YoloFile, YoloFileParseError,
    YoloFileParseErrorDetails,
};

fn dec(s: &str) -> Decimal {
    Decimal::parse(s).unwrap()
}

fn metadata(classes: &[(isize, &str)], tolerance: &str) -> FileMetadata {
    FileMetadata {
        classes: classes
            .iter()
            .map(|(id, name)| YoloClass { id: *id, name: name.to_string() })
            .collect(),
        duplicate_tolerance: dec(tolerance),
    }
}

fn validate(meta: &FileMetadata, path: &str, content: &str) -> Result<YoloFile, YoloFileParseError> {
    YoloFile::from_text(meta, &path.to_string(), &content.to_string())
}

const PATH: &str = "tests/sandbox/data/label.txt";

#[test]
fn single_line_gives_one_entry() {
    let meta = metadata(&[(0, "person")], "0.01");
    let file = validate(&meta, PATH, "0 0.5 0.5 0.5 0.5").unwrap();
    assert_eq!(file.stem, "label");
    assert_eq!(file.path, PATH);
    assert_eq!(
        file.entries,
        vec![YoloEntry {
            class: 0,
            x_center: dec("0.5"),
            y_center: dec("0.5"),
            width: dec("0.5"),
            height: dec("0.5"),
        }]
    );
}

#[test]
fn identical_rows_are_duplicates() {
    let meta = metadata(&[(0, "person")], "0.01");
    let r = validate(&meta, PATH, "0 0.25 0.5 0.25 0.5\n0 0.25 0.5 0.25 0.5");
    match r {
        Err(YoloFileParseError::DuplicateEntries(d)) => {
            assert_eq!(d.row, Some(0));
            assert_eq!(d.other_row, Some(1));
        }
        other => panic!("unexpected {:?}", other),
    }
}

#[test]
fn unparsable_class_names_token() {
    let meta = metadata(&[(0, "person")], "0.01");
    let r = validate(&meta, PATH, "a 0.5 0.5 0.5 0.5");
    match r {
        Err(YoloFileParseError::FailedToParseClassId(d)) => {
            assert_eq!(d.class, Some("a".to_string()));
            assert_eq!(d.row, Some(0));
            assert_eq!(d.column, Some("class".to_string()));
        }
        other => panic!("unexpected {:?}", other),
    }
}

#[test]
fn coordinate_bounds_are_inclusive() {
    let meta = metadata(&[(0, "person")], "0.01");
    assert!(validate(&meta, PATH, "0 0.0 1.0 0.0 1.0").is_ok());
    assert!(validate(&meta, PATH, "0 1 0 1 0").is_ok());
    match validate(&meta, PATH, "0 -0.0001 0.5 0.5 0.5") {
        Err(YoloFileParseError::LabelDataOutOfRange(d)) => {
            assert_eq!(d.column, Some("x".to_string()));
            assert_eq!(d.value, Some(dec("-0.0001")));
        }
        other => panic!("unexpected {:?}", other),
    }
    match validate(&meta, PATH, "0 0.5 0.5 0.5 1.0001") {
        Err(YoloFileParseError::LabelDataOutOfRange(d)) => {
            assert_eq!(d.column, Some("h".to_string()));
            assert_eq!(d.value, Some(dec("1.0001")));
        }
        other => panic!("unexpected {:?}", other),
    }
}

#[test]
fn zero_tolerance_allows_identical_rows() {
    let meta = metadata(&[(0, "person")], "0");
    let file = validate(&meta, PATH, "0 0.25 0.5 0.25 0.5\n0 0.25 0.5 0.25 0.5").unwrap();
    assert_eq!(file.entries.len(), 2);
}

#[test]
fn boxes_within_tolerance_are_duplicates() {
    let meta = metadata(&[(0, "person")], "0.05");
    let r = validate(&meta, PATH, "0 0.5 0.5 0.2 0.2\n0 0.515 0.5 0.2 0.2");
    assert!(matches!(r, Err(YoloFileParseError::DuplicateEntries(_))));
    let meta = metadata(&[(0, "person")], "0.01");
    assert!(validate(&meta, PATH, "0 0.5 0.5 0.2 0.2\n0 0.515 0.5 0.2 0.2").is_ok());
}

#[test]
fn edge_difference_equal_to_tolerance_is_a_duplicate() {
    let meta = metadata(&[(0, "person")], "0.1");
    let r = validate(&meta, PATH, "0 0.5 0.5 0.2 0.2\n0 0.6 0.5 0.2 0.2");
    assert!(matches!(r, Err(YoloFileParseError::DuplicateEntries(_))));
}

#[test]
fn entries_follow_lines() {
    let meta = metadata(&[(0, "person"), (1, "car")], "0.01");
    let file = validate(
        &meta,
        PATH,
        "0 0.25 0.5 0.25 0.5\n0 0.5 0.5 0.15 0.5\n1 0.5 0.5 0.5 0.35\n",
    )
    .unwrap();
    assert_eq!(file.entries.len(), 3);
    assert_eq!(file.entries[2].class, 1);
    assert_eq!(file.entries[2].height, dec("0.35"));
}

#[test]
fn crlf_lines_are_read() {
    let meta = metadata(&[(0, "person")], "0.01");
    let file = validate(&meta, PATH, "0 0.1 0.1 0.1 0.1\r\n0 0.7 0.7 0.1 0.1\r\n").unwrap();
    assert_eq!(file.entries.len(), 2);
}

#[test]
fn empty_file_is_refused() {
    let meta = metadata(&[(0, "person")], "0.01");
    match validate(&meta, PATH, "") {
        Err(YoloFileParseError::EmptyFile(d)) => assert_eq!(d.path, PATH),
        other => panic!("unexpected {:?}", other),
    }
}

#[test]
fn missing_column_is_invalid_format() {
    let meta = metadata(&[(0, "person")], "0.01");
    assert!(matches!(
        validate(&meta, PATH, "0 0.5 0.5"),
        Err(YoloFileParseError::InvalidFormat(_))
    ));
    assert!(matches!(
        validate(&meta, PATH, "0 0.5 0.5 0.5 0.5\n\n0 0.1 0.1 0.1 0.1"),
        Err(YoloFileParseError::InvalidFormat(_))
    ));
    assert!(matches!(
        validate(&meta, PATH, "0  0.5 0.5 0.5 0.5"),
        Err(YoloFileParseError::InvalidFormat(_))
    ));
}

#[test]
fn unknown_class_is_refused() {
    let meta = metadata(&[(0, "person")], "0.01");
    match validate(&meta, PATH, "0 0.5 0.5 0.5 0.5\n2 0.5 0.5 0.5 0.5") {
        Err(YoloFileParseError::ClassIdNotFound(d)) => {
            assert_eq!(d.class, Some("2".to_string()));
            assert_eq!(d.row, Some(1));
        }
        other => panic!("unexpected {:?}", other),
    }
}

#[test]
fn unreadable_columns_are_named() {
    let meta = metadata(&[(0, "person")], "0.01");
    for (content, column) in [
        ("0 a 0.5 0.5 0.5", "x"),
        ("0 0.5 a 0.5 0.5", "y"),
        ("0 0.5 0.5 a 0.5", "w"),
        ("0 0.5 0.5 0.5 a", "h"),
    ] {
        match validate(&meta, PATH, content) {
            Err(YoloFileParseError::FailedToParseColumn(d)) => {
                assert_eq!(d.column, Some(column.to_string()));
                assert_eq!(d.class, Some("0".to_string()));
                assert_eq!(d.row, Some(0));
            }
            other => panic!("unexpected {:?}", other),
        }
    }
}

#[test]
fn parse_checks_come_before_range_checks() {
    let meta = metadata(&[(0, "person")], "0.01");
    assert!(matches!(
        validate(&meta, PATH, "0 1.5 0.5 0.5 a"),
        Err(YoloFileParseError::FailedToParseColumn(_))
    ));
}

#[test]
fn test_yolo_file_new_nonexistent_path_returns_error() {
    let meta = metadata(&[(0, "person")], "0.01");
    let path = format!("{}/missing.txt", "tests/sandbox");
    let result = YoloFile::new(&meta, &path, &None);
    assert!(matches!(result, Err(YoloFileParseError::FailedToReadFile(_))));
}

#[test]
fn revalidation_gives_the_same_result() {
    let meta = metadata(&[(0, "person")], "0.01");
    let text = "0 0.25 0.5 0.25 0.5\n0 0.5 0.5 0.15 0.5";
    assert_eq!(validate(&meta, PATH, text), validate(&meta, PATH, text));
    let bad = "0 0.25 0.5 0.25 0.5\nx 0.5 0.5 0.15 0.5";
    assert_eq!(validate(&meta, PATH, bad), validate(&meta, PATH, bad));
}

#[test]
fn messages_name_the_fault() {
    let meta = metadata(&[(0, "person")], "0.01");
    let p = "tests/sandbox/data/invalid2.txt";
    let e = validate(&meta, p, "a 0.5 0.5 0.5 0.5").unwrap_err();
    assert_eq!(
        e.message(),
        "Unable to parse value 'a' in file 'tests/sandbox/data/invalid2.txt' on line 0"
    );
    let e = validate(&meta, p, "2 0.5 0.5 0.5 0.5").unwrap_err();
    assert_eq!(e.message(), "Invalid class id '2' in file 'tests/sandbox/data/invalid2.txt'");
    let e = validate(&meta, p, "0 a 0.5 0.5 0.5").unwrap_err();
    assert_eq!(
        e.message(),
        "Failed to parse 'x' column with value of '0' on line 0 in file 'tests/sandbox/data/invalid2.txt'"
    );
    let e = validate(&meta, p, "0 1.5 0.5 0.5 0.5").unwrap_err();
    assert_eq!(
        e.message(),
        "Invalid data value for 'x' in file 'tests/sandbox/data/invalid2.txt' on line 0.  Value is '1.5'"
    );
    let e = validate(&meta, p, "").unwrap_err();
    assert_eq!(e.message(), "File 'tests/sandbox/data/invalid2.txt' is empty");
    let e = validate(&meta, p, "0 0.25 0.5 0.25 0.5\n0 0.25 0.5 0.25 0.5").unwrap_err();
    assert_eq!(
        e.message(),
        "Duplicate entries found in file 'tests/sandbox/data/invalid2.txt' on row 0 and row 1"
    );
}

#[test]
fn details_are_public_values() {
    let d = YoloFileParseErrorDetails {
        path: "p".to_string(),
        class: None,
        row: Some(3),
        other_row: None,
        column: None,
        value: Some(dec("-2.50")),
    };
    assert_eq!(
        YoloFileParseError::LabelDataOutOfRange(d).message(),
        "Invalid data value for '' in file 'p' on line 3.  Value is '-2.5'"
    );
}

#[test]
fn exponent_coordinates_are_accepted() {
    let meta = metadata(&[(0, "person")], "0.01");
    let file = validate(&meta, PATH, "0 1e-1 0.5 0.5 5E-1").unwrap();
    assert_eq!(file.entries[0].x_center, dec("0.1"));
    assert_eq!(file.entries[0].height, dec("0.5"));
    match validate(&meta, PATH, "0 1.0001 0.5 1e-1 0.5") {
        Err(YoloFileParseError::LabelDataOutOfRange(d)) => {
            assert_eq!(d.column, Some("x".to_string()));
            assert_eq!(d.value, Some(dec("1.0001")));
            assert_eq!(d.row, Some(0));
        }
        other => panic!("unexpected {:?}", other),
    }
    match validate(&meta, PATH, "0 1e-1 0.5 0.5 0.5\na 0 0 0 0") {
        Err(YoloFileParseError::FailedToParseClassId(d)) => assert_eq!(d.row, Some(1)),
        other => panic!("unexpected {:?}", other),
    }
}
