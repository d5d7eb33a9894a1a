use yolo_io::{
    pair, Decimal, FileMetadata, LabelCandidate, PairingError, PairingResult, PathWithKey,
    YoloClass, YoloFileParseError,
};

fn meta() -> FileMetadata {
    FileMetadata {
        classes: vec![
            YoloClass { id: 0, name: "person".to_string() },
            YoloClass { id: 1, name: "car".to_string() },
        ],
        duplicate_tolerance: Decimal::parse("0.01").unwrap(),
    }
}

fn image(path: &str, key: &str) -> PathWithKey {
    PathWithKey { path: path.to_string(), key: key.to_string() }
}

fn label(path: &str, key: &str, content: Option<&str>) -> LabelCandidate {
    LabelCandidate { file: image(path, key), content: content.map(|c| c.to_string()) }
}

fn stems(items: &[&str]) -> Vec<String> {
    items.iter().map(|s| s.to_string()).collect()
}

fn valid_count(r: &[PairingResult]) -> usize {
    r.iter().filter(|o| matches!(o, PairingResult::Valid(_))).count()
}

#[test]
fn one_image_one_label_is_one_valid_pair() {
    let r = pair(
        &meta(),
        &stems(&["test1"]),
        &vec![label("d/test1.txt", "test1", Some("0 0.5 0.5 0.5 0.5"))],
        &vec![image("d/test1.jpg", "test1")],
    );
    assert_eq!(r.len(), 1);
    match &r[0] {
        PairingResult::Valid(p) => {
            assert_eq!(p.name, "test1");
            assert_eq!(p.image_path, Some("d/test1.jpg".to_string()));
            let f = p.label_file.as_ref().unwrap();
            assert_eq!(f.path, "d/test1.txt");
            assert_eq!(f.stem, "test1");
            assert_eq!(f.entries.len(), 1);
        }
        other => panic!("unexpected {:?}", other),
    }
}

#[test]
fn image_without_label_reports_missing_label() {
    let r = pair(&meta(), &stems(&["test2"]), &vec![], &vec![image("d/test2.jpg", "test2")]);
    assert_eq!(valid_count(&r), 0);
    assert_eq!(
        r,
        vec![
            PairingResult::Invalid(PairingError::LabelFileMissingUnableToUnwrapImagePath),
            PairingResult::Invalid(PairingError::LabelFileMissing("d/test2.jpg".to_string())),
        ]
    );
}

#[test]
fn label_without_image_reports_missing_image() {
    let r = pair(
        &meta(),
        &stems(&["test4"]),
        &vec![label("d/test4.txt", "test4", Some("0 0.5 0.5 0.5 0.5"))],
        &vec![],
    );
    assert_eq!(r, vec![PairingResult::Invalid(PairingError::ImageFileMissing("d/test4.txt".to_string()))]);
}

#[test]
fn invalid_label_is_reported_first_and_left_out() {
    let r = pair(
        &meta(),
        &stems(&["test3"]),
        &vec![
            label("d/two/test3.txt", "test3", Some("3 0.5 0.5 0.5 0.5")),
            label("d/one/test3.txt", "test3", Some("0 0.5 0.5 0.5 0.5")),
        ],
        &vec![image("d/test3.jpg", "test3")],
    );
    assert_eq!(r.len(), 2);
    assert!(matches!(
        &r[0],
        PairingResult::Invalid(PairingError::LabelFileError(YoloFileParseError::ClassIdNotFound(_)))
    ));
    match &r[1] {
        PairingResult::Valid(p) => {
            assert_eq!(p.label_file.as_ref().unwrap().path, "d/one/test3.txt")
        }
        other => panic!("unexpected {:?}", other),
    }
}

#[test]
fn identical_duplicates_give_one_valid_and_the_rest_duplicates() {
    let text = "0 0.5 0.5 0.5 0.5";
    let r = pair(
        &meta(),
        &stems(&["dup"]),
        &vec![
            label("d/z/dup.txt", "dup", Some(text)),
            label("d/dup.txt", "dup", Some(text)),
            label("d/a/dup.txt", "dup", Some(text)),
        ],
        &vec![image("d/z/dup.png", "dup"), image("d/dup.png", "dup"), image("d/a/dup.png", "dup")],
    );
    assert_eq!(r.len(), 3);
    assert_eq!(valid_count(&r), 1);
    match &r[0] {
        PairingResult::Valid(p) => assert_eq!(p.image_path, Some("d/a/dup.png".to_string())),
        other => panic!("unexpected {:?}", other),
    }
    for o in &r[1..] {
        match o {
            PairingResult::Invalid(PairingError::Duplicate(d)) => {
                assert_eq!(d.name, "dup");
                assert_eq!(d.primary.image_path, Some("d/a/dup.png".to_string()));
            }
            other => panic!("unexpected {:?}", other),
        }
    }
}

#[test]
fn differing_labels_give_a_mismatch() {
    let r = pair(
        &meta(),
        &stems(&["test1"]),
        &vec![
            label("d/test1.txt", "test1", Some("0 0.5 0.5 0.5 0.5")),
            label("d/else/test1.txt", "test1", Some("1 0.5 0.5 0.5 0.5")),
        ],
        &vec![image("d/test1.jpg", "test1"), image("d/else/test1.jpg", "test1")],
    );
    assert_eq!(r.len(), 2);
    assert!(matches!(&r[0], PairingResult::Valid(_)));
    match &r[1] {
        PairingResult::Invalid(PairingError::DuplicateLabelMismatch(d)) => {
            assert_eq!(d.primary.image_path, Some("d/else/test1.jpg".to_string()));
            assert_eq!(d.duplicate.image_path, Some("d/test1.jpg".to_string()));
        }
        other => panic!("unexpected {:?}", other),
    }
}

#[test]
fn unreadable_label_is_a_label_error() {
    let r = pair(
        &meta(),
        &stems(&["s"]),
        &vec![label("d/s.txt", "s", None)],
        &vec![image("d/s.jpg", "s")],
    );
    assert_eq!(r.len(), 2);
    assert!(matches!(
        &r[0],
        PairingResult::Invalid(PairingError::LabelFileError(YoloFileParseError::FailedToReadFile(_)))
    ));
    assert_eq!(r[1], PairingResult::Invalid(PairingError::LabelFileMissing("d/s.jpg".to_string())));
}

#[test]
fn stems_are_processed_in_the_order_given() {
    let r = pair(
        &meta(),
        &stems(&["a", "b"]),
        &vec![
            label("d/b.txt", "b", Some("0 0.5 0.5 0.5 0.5")),
            label("d/a.txt", "a", Some("0 0.5 0.5 0.5 0.5")),
        ],
        &vec![image("d/b.jpg", "b"), image("d/a.jpg", "a")],
    );
    assert_eq!(r.len(), 2);
    match (&r[0], &r[1]) {
        (PairingResult::Valid(x), PairingResult::Valid(y)) => {
            assert_eq!(x.name, "a");
            assert_eq!(y.name, "b");
        }
        other => panic!("unexpected {:?}", other),
    }
}
