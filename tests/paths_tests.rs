use yolo_io::{
    get_file_extension, get_file_stem, get_filepath_as_string, index_entry, Decimal, FileError,
    Paths, SourcePaths, Split, YoloProjectExporter,
};

#[test]
fn export_directories_are_joined() {
    let p = Paths::new(
        "tests/sandbox/export/".to_string(),
        "train/".to_string(),
        "validation/".to_string(),
        "test/".to_string(),
    );
    assert_eq!(p.get_root(), "tests/sandbox/export/");
    assert_eq!(p.get_train_images_path(), "tests/sandbox/export/train/images");
    assert_eq!(p.get_train_label_images_path(), "tests/sandbox/export/train/labels");
    assert_eq!(p.get_validation_images_path(), "tests/sandbox/export/validation/images");
    assert_eq!(p.get_validation_label_images_path(), "tests/sandbox/export/validation/labels");
    assert_eq!(p.get_test_images_path(), "tests/sandbox/export/test/images");
    assert_eq!(p.get_test_label_images_path(), "tests/sandbox/export/test/labels");
    assert_eq!(p.get_train_stem(), "train/");
    assert_eq!(p.get_validation_stem(), "validation/");
    assert_eq!(p.get_test_stem(), "test/");
}

#[test]
fn default_paths() {
    let p = Paths::default();
    assert_eq!(p.get_train_images_path(), "export/train/images");
    assert_eq!(p.all_directories().len(), 7);
    assert_eq!(p.all_directories()[6], "export/test/labels");
    let s = SourcePaths::default();
    assert_eq!((s.images.as_str(), s.labels.as_str()), ("images", "labels"));
}

#[test]
fn stems_and_extensions() {
    assert_eq!(get_file_stem("a/b/test1.txt"), Ok("test1".to_string()));
    assert_eq!(get_file_stem("a/b/archive.tar.gz"), Ok("archive.tar".to_string()));
    assert_eq!(get_file_stem(""), Err(FileError::GetFileStem("".to_string())));
    assert_eq!(get_file_extension("x/y.JpG"), Ok("JpG".to_string()));
    assert_eq!(get_file_extension("x/y"), Err(FileError::ReadFile("x/y".to_string())));
    assert_eq!(get_filepath_as_string("x/y"), Ok("x/y".to_string()));
}

#[test]
fn index_entries_match_extensions_without_case() {
    let wanted = vec!["jpg".to_string(), "png".to_string()];
    let e = index_entry("d/testMiXeD.JpG", &wanted).unwrap();
    assert_eq!(e.key, "testMiXeD");
    assert_eq!(e.path, "d/testMiXeD.JpG");
    assert!(index_entry("d/label.txt", &wanted).is_none());
    assert!(index_entry("d/noext", &wanted).is_none());
    let upper = vec!["JPEG".to_string()];
    assert!(index_entry("d/x.jpeg", &upper).is_some());
}

fn split(train: &str, validation: &str, test: &str) -> Split {
    Split {
        train: Decimal::parse(train).unwrap(),
        validation: Decimal::parse(validation).unwrap(),
        test: Decimal::parse(test).unwrap(),
    }
}

fn pairs(n: usize) -> Vec<yolo_io::ImageLabelPair> {
    (0..n)
        .map(|i| yolo_io::ImageLabelPair {
            name: format!("p{}", i),
            image_path: None,
            label_file: None,
        })
        .collect()
}

#[test]
fn split_counts_round_half_away_from_zero() {
    assert_eq!(yolo_io::export::split_count(Decimal::parse("0.25").unwrap(), 10), 3);
    assert_eq!(yolo_io::export::split_count(Decimal::parse("0.2").unwrap(), 10), 2);
    assert_eq!(yolo_io::export::split_count(Decimal::parse("0.24").unwrap(), 10), 2);
    assert_eq!(yolo_io::export::split_count(Decimal::parse("1.5").unwrap(), 10), 10);
    assert_eq!(yolo_io::export::split_count(Decimal::parse("-0.5").unwrap(), 10), 0);
}

#[test]
fn split_in_order_takes_test_then_validation() {
    let (train, validation, test) =
        YoloProjectExporter::split_in_order(pairs(10), split("0.7", "0.2", "0.1"));
    assert_eq!(test.iter().map(|p| p.name.clone()).collect::<Vec<_>>(), vec!["p0"]);
    assert_eq!(validation.iter().map(|p| p.name.clone()).collect::<Vec<_>>(), vec!["p1", "p2"]);
    assert_eq!(train.len(), 7);
    assert_eq!(train[0].name, "p3");
}

#[test]
fn split_pairs_keeps_every_pair() {
    let (train, validation, test) =
        YoloProjectExporter::split_pairs(pairs(10), split("0.8", "0.2", "0.0"));
    assert_eq!((train.len(), validation.len(), test.len()), (8, 2, 0));
    let mut names: Vec<String> =
        train.iter().chain(validation.iter()).map(|p| p.name.clone()).collect();
    names.sort();
    let mut expected: Vec<String> = (0..10).map(|i| format!("p{}", i)).collect();
    expected.sort();
    assert_eq!(names, expected);
}

#[test]
fn copy_plan_renames_by_pair_name() {
    let pair = yolo_io::ImageLabelPair {
        name: "cat".to_string(),
        image_path: Some("src/images/IMG_1.PNG".to_string()),
        label_file: Some(yolo_io::YoloFile {
            stem: "IMG_1".to_string(),
            path: "src/labels/IMG_1.txt".to_string(),
            entries: vec![],
        }),
    };
    let plan = YoloProjectExporter::copy_plan(
        &"out/train/images".to_string(),
        &"out/train/labels".to_string(),
        &pair,
    )
    .unwrap();
    assert_eq!(plan.image_from, "src/images/IMG_1.PNG");
    assert_eq!(plan.image_to, "out/train/images/cat.PNG");
    assert_eq!(plan.label_from, "src/labels/IMG_1.txt");
    assert_eq!(plan.label_to, "out/train/labels/cat.txt");
    let mut missing = pair.clone();
    missing.label_file = None;
    assert_eq!(
        YoloProjectExporter::copy_plan(&"a".to_string(), &"b".to_string(), &missing),
        Err(yolo_io::ExportError::FailedToUnwrapLabelPath)
    );
}

#[test]
fn descriptor_lists_classes_by_id() {
    let paths = Paths::default();
    let classes = vec![
        yolo_io::YoloClass { id: 1, name: "car".to_string() },
        yolo_io::YoloClass { id: 0, name: "person".to_string() },
        yolo_io::YoloClass { id: -3, name: "none".to_string() },
    ];
    assert_eq!(
        yolo_io::export::descriptor_text(&paths, &classes),
        "# Generate by yolo_io - https://github.com/Ladvien/yolo_io\npath: export\ntrain: train\nval: validation\ntest: test\n\nnames:\n  -3: none\n  0: person\n  1: car\n"
    );
    assert_eq!(
        yolo_io::export::descriptor_text(&paths, &vec![]),
        "# Generate by yolo_io - https://github.com/Ladvien/yolo_io\npath: export\ntrain: train\nval: validation\ntest: test\n\nnames:\n\n"
    );
}

#[test]
fn test_yolo_yaml_created() {
    let paths = Paths::new(
        "tests/sandbox/export_test_yolo_yaml_created".to_string(),
        "train/".to_string(),
        "validation/".to_string(),
        "test/".to_string(),
    );
    let mut classes = yolo_io::ClassMap::new();
    classes.insert(1, "car".to_string());
    classes.insert(0, "person".to_string());
    assert_eq!(
        yolo_io::export::descriptor_text(&paths, &classes.classes()),
        "# Generate by yolo_io - https://github.com/Ladvien/yolo_io\npath: tests/sandbox/export_test_yolo_yaml_created\ntrain: train/\nval: validation/\ntest: test/\n\nnames:\n  0: person\n  1: car\n"
    );
}
