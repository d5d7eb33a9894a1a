use yolo_io::{
    ClassMap, Decimal, DuplicateImageLabelPair, ImageLabelPair, LabelCandidate, PairingError,
    PairingResult, PathWithKey, YoloClass, YoloDataQualityReport, YoloFileParseError,
    YoloFileParseErrorDetails, YoloProject, YoloProjectConfig, YoloProjectData,
};

fn config() -> YoloProjectConfig {
    let mut c = YoloProjectConfig::default();
    c.export.class_map = ClassMap::new();
    c.export.class_map.insert(0, "person".to_string());
    c.export.class_map.insert(1, "car".to_string());
    c.export.duplicate_tolerance = Decimal::parse("0.01").unwrap();
    c
}

fn file(path: &str, key: &str) -> PathWithKey {
    PathWithKey { path: path.to_string(), key: key.to_string() }
}

fn project_with(pairs: Vec<PairingResult>) -> YoloProject {
    YoloProject {
        data: YoloProjectData { stems: vec![], pairs, number_of_classes: 2 },
        config: config(),
    }
}

fn sample_project() -> YoloProject {
    let images = vec![file("i/b.jpg", "b"), file("i/a.jpg", "a"), file("i/c.jpg", "c")];
    let labels = vec![
        LabelCandidate { file: file("l/a.txt", "a"), content: Some("0 0.5 0.5 0.5 0.5".to_string()) },
        LabelCandidate { file: file("l/b.txt", "b"), content: Some("1 0.5 0.5 0.5 0.5".to_string()) },
        LabelCandidate { file: file("l/d.txt", "d"), content: Some("0 0.5 0.5 0.5 0.5".to_string()) },
    ];
    YoloProject::new(config(), &images, &labels)
}

#[test]
fn stems_are_sorted_and_unique() {
    let p = sample_project();
    assert_eq!(p.data.stems, vec!["a", "b", "c", "d"]);
    assert_eq!(p.data.number_of_classes, 2);
}

#[test]
fn valid_and_invalid_pairs_are_split() {
    let p = sample_project();
    let valid = p.get_valid_pairs();
    assert_eq!(valid.iter().map(|v| v.name.clone()).collect::<Vec<_>>(), vec!["a", "b"]);
    let invalid = p.get_invalid_pairs();
    assert_eq!(
        invalid,
        vec![
            PairingError::LabelFileMissingUnableToUnwrapImagePath,
            PairingError::LabelFileMissing("i/c.jpg".to_string()),
            PairingError::ImageFileMissing("l/d.txt".to_string()),
        ]
    );
}

#[test]
fn pairs_are_found_by_stem_and_index() {
    let p = sample_project();
    assert_eq!(p.get_pair("b").unwrap().image_path, Some("i/b.jpg".to_string()));
    assert!(p.get_pair("c").is_none());
    assert_eq!(p.pair_at_index(0).unwrap().name, "a");
    assert!(p.pair_at_index(2).is_none());
}

#[test]
fn default_project_is_empty() {
    let p = YoloProject::default();
    assert!(p.data.stems.is_empty());
    assert!(p.data.pairs.is_empty());
    assert_eq!(p.config.kind, "yolo");
    assert_eq!(p.config.project_name, "default");
}

fn item_for(error: PairingError) -> (String, String) {
    let project = project_with(vec![PairingResult::Invalid(error.clone())]);
    let items = YoloDataQualityReport::collect_items(&project);
    assert_eq!(items.len(), 1);
    assert_eq!(items[0].data, error);
    (items[0].source.clone(), items[0].message.clone())
}

#[test]
fn report_names_both_files_missing() {
    assert_eq!(
        item_for(PairingError::BothFilesMissing),
        ("BothFilesMissing".to_string(), "Both files missing".to_string())
    );
}

#[test]
fn report_names_label_file_missing() {
    assert_eq!(
        item_for(PairingError::LabelFileMissing("label.txt".to_string())),
        ("LabelFileMissing".to_string(), "Label file missing: label.txt".to_string())
    );
}

#[test]
fn report_names_image_file_missing() {
    assert_eq!(
        item_for(PairingError::ImageFileMissing("image.jpg".to_string())),
        ("ImageFileMissing".to_string(), "Image file missing: image.jpg".to_string())
    );
}

#[test]
fn report_names_duplicate() {
    let primary = ImageLabelPair {
        name: "test".to_string(),
        image_path: Some("image.jpg".to_string()),
        label_file: None,
    };
    let duplicate = ImageLabelPair {
        name: "test".to_string(),
        image_path: Some("image2.jpg".to_string()),
        label_file: None,
    };
    let e = PairingError::Duplicate(DuplicateImageLabelPair {
        name: "test".to_string(),
        primary,
        duplicate,
    });
    assert_eq!(
        item_for(e),
        (
            "DuplicateImageLabelPair".to_string(),
            "Duplicate image and label files for 'test'".to_string()
        )
    );
}

#[test]
fn report_names_label_file_error() {
    let details = YoloFileParseErrorDetails {
        path: "label.txt".to_string(),
        class: None,
        row: Some(1),
        other_row: None,
        column: None,
        value: None,
    };
    let e = PairingError::LabelFileError(YoloFileParseError::InvalidFormat(details));
    assert_eq!(
        item_for(e),
        (
            "YoloFileParseError::InvalidFormat".to_string(),
            "Label file error: Invalid format for file 'label.txt'".to_string()
        )
    );
}

#[test]
fn report_skips_valid_outcomes() {
    let p = sample_project();
    let items = YoloDataQualityReport::collect_items(&p);
    assert_eq!(items.len(), 3);
    assert_eq!(items[0].source, "LabelFileMissingUnableToUnwrapImagePath");
    assert_eq!(items[2].message, "Image file missing: l/d.txt");
}

#[test]
fn class_map_lists_each_id_once() {
    let mut m = ClassMap::new();
    m.insert(3, "dog".to_string());
    m.insert(1, "car".to_string());
    m.insert(3, "cat".to_string());
    assert_eq!(m.len(), 2);
    let mut classes = m.classes();
    classes.sort_by_key(|c| c.id);
    assert_eq!(
        classes,
        vec![
            YoloClass { id: 1, name: "car".to_string() },
            YoloClass { id: 3, name: "cat".to_string() },
        ]
    );
    let d = yolo_io::export::descriptor_text(&yolo_io::Paths::default(), &m.classes());
    assert!(d.ends_with("names:
  1: car
  3: cat
"));
}
