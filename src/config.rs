//! Project configuration: where the sources are, where the export goes, the
//! classes, the duplicate tolerance and the split ratio.
use vstd::prelude::*;
use crate::label::{class_ids, YoloClass};
use crate::number::Decimal;
use crate::text::text;

verus! {

/// What `std::path::Path::join` gives for a base path and a part.
pub uninterp spec fn joined(base: Seq<char>, part: Seq<char>) -> Seq<char>;

/// Relies on `std::path::Path::join`: `part` appended to `base`.
#[verifier::external_body]
pub(crate) fn join_path(base: &str, part: &str) -> (r: String)
    ensures
        r@ == joined(base@, part@),
{
    std::path::Path::new(base).join(part).to_string_lossy().into_owned()
}

/// The classes of a configuration: hashbrown's map from class id to name.
#[verifier::external_body]
#[derive(Debug, PartialEq)]
pub struct ClassMap {
    map: hashbrown::HashMap<isize, String>,
}

/// What a class map holds: each class id with its name.
pub uninterp spec fn class_map_contents(m: ClassMap) -> Map<isize, Seq<char>>;

/// Relies on `hashbrown::HashMap::new`: the map starts empty.
#[verifier::external_body]
fn empty_class_map() -> (r: ClassMap)
    ensures
        class_map_contents(r).dom() == Set::<isize>::empty(),
{
    ClassMap { map: hashbrown::HashMap::new() }
}

/// Relies on `hashbrown::HashMap::insert`: afterwards `id` maps to `name`,
/// and every other id to what it mapped to before.
#[verifier::external_body]
fn insert_class(m: &mut ClassMap, id: isize, name: String)
    ensures
        class_map_contents(*final(m)) == class_map_contents(*old(m)).insert(id, name@),
{
    m.map.insert(id, name);
}

/// Relies on `hashbrown::HashMap::len`: the number of ids in the map.
#[verifier::external_body]
fn class_count(m: &ClassMap) -> (r: usize)
    ensures
        r == class_map_contents(*m).len(),
{
    m.map.len()
}

/// Relies on `hashbrown::HashMap::iter`: every id of the map with its name,
/// each once, in an order that the map decides.
#[verifier::external_body]
fn class_entries(m: &ClassMap) -> (r: Vec<(isize, String)>)
    ensures
        forall|i: int|
            0 <= i < r@.len() ==> class_map_contents(*m).contains_key(#[trigger] r@[i].0)
                && class_map_contents(*m)[r@[i].0] == r@[i].1@,
        forall|k: isize|
            class_map_contents(*m).contains_key(k) ==> exists|i: int|
                0 <= i < r@.len() && #[trigger] r@[i].0 == k,
        forall|i: int, j: int| 0 <= i < j < r@.len() ==> #[trigger] r@[i].0 != #[trigger] r@[j].0,
{
    m.map.iter().map(|(k, v)| (*k, v.clone())).collect()
}

impl ClassMap {
    /// A map without classes.
    pub fn new() -> (r: ClassMap)
        ensures
            class_map_contents(r).dom() == Set::<isize>::empty(),
    {
        empty_class_map()
    }

    /// Maps `id` to `name`, in place of any name it had.
    pub fn insert(&mut self, id: isize, name: String)
        ensures
            class_map_contents(*final(self)) == class_map_contents(*old(self)).insert(id, name@),
    {
        insert_class(self, id, name)
    }

    /// The number of classes.
    pub fn len(&self) -> (r: usize)
        ensures
            r == class_map_contents(*self).len(),
    {
        class_count(self)
    }

    /// The classes, each id once, in no particular order.
    pub fn classes(&self) -> (r: Vec<YoloClass>)
        ensures
            class_ids(r@) == class_map_contents(*self).dom(),
            forall|i: int|
                0 <= i < r@.len() ==> class_map_contents(*self)[(#[trigger] r@[i]).id]
                    == r@[i].name@,
            forall|i: int, j: int| 0 <= i < j < r@.len() ==> #[trigger] r@[i].id != #[trigger] r@[j].id,
    {
        let entries = class_entries(self);
        let ghost m = class_map_contents(*self);
        let mut out: Vec<YoloClass> = Vec::new();
        for i in 0..entries.len()
            invariant
                m == class_map_contents(*self),
                out@.len() == i,
                forall|q: int|
                    0 <= q < i ==> (#[trigger] out@[q]).id == entries@[q].0 && out@[q].name@
                        == entries@[q].1@,
        {
            out.push(YoloClass { id: entries[i].0, name: entries[i].1.clone() });
        }
        let ghost ids = out@.map_values(|c: YoloClass| c.id);
        assert(class_ids(out@) =~= m.dom()) by {
            assert forall|k: isize| m.dom().contains(k) implies #[trigger] ids.to_set().contains(k) by {
                let i = choose|i: int| 0 <= i < entries@.len() && #[trigger] entries@[i].0 == k;
                assert(ids[i] == k);
            }
            assert forall|k: isize| ids.to_set().contains(k) implies #[trigger] m.dom().contains(k) by {
                let i = choose|i: int| 0 <= i < ids.len() && ids[i] == k;
                assert(entries@[i].0 == k);
            }
        }
        assert forall|i: int, j: int| 0 <= i < j < out@.len() implies #[trigger] out@[i].id
            != #[trigger] out@[j].id by {
            assert(entries@[i].0 != entries@[j].0);
        }
        out
    }
}

/// Portion of the pairs for each split, as decimals.
#[derive(Debug, Clone, Copy, PartialEq, Eq, Structural)]
pub struct Split {
    /// Portion of data to use for training.
    pub train: Decimal,
    /// Portion of data to use for validation.
    pub validation: Decimal,
    /// Portion of data to use for testing.
    pub test: Decimal,
}

/// Collection of paths used during export.
#[derive(Debug, Clone, PartialEq)]
pub struct Paths {
    /// Root directory for exported data.
    pub root: String,
    /// Sub directory used for training data.
    pub train: String,
    /// Sub directory used for validation data.
    pub validation: String,
    /// Sub directory used for test data.
    pub test: String,
}

pub open spec fn images_word() -> Seq<char> {
    seq!['i', 'm', 'a', 'g', 'e', 's']
}

pub open spec fn labels_word() -> Seq<char> {
    seq!['l', 'a', 'b', 'e', 'l', 's']
}

/// The directory `kind` (images or labels) of the split directory `split`.
pub open spec fn split_dir(root: Seq<char>, split: Seq<char>, kind: Seq<char>) -> Seq<char> {
    joined(joined(root, split), kind)
}

fn images_text() -> (r: String)
    ensures
        r@ == images_word(),
{
    proof {
        reveal_strlit("images");
    }
    text("images")
}

fn labels_text() -> (r: String)
    ensures
        r@ == labels_word(),
{
    proof {
        reveal_strlit("labels");
    }
    text("labels")
}

fn sub_dir(root: &String, split: &String, images: bool) -> (r: String)
    ensures
        r@ == split_dir(root@, split@, if images { images_word() } else { labels_word() }),
{
    let base = join_path(root.as_str(), split.as_str());
    let kind = if images {
        images_text()
    } else {
        labels_text()
    };
    join_path(base.as_str(), kind.as_str())
}

impl Paths {
    /// Create a new set of export paths.
    pub fn new(root: String, train: String, validation: String, test: String) -> (r: Paths)
        ensures
            r == (Paths { root, train, validation, test }),
    {
        Paths { root, train, validation, test }
    }

    /// Root path used for export.
    pub fn get_root(&self) -> (r: String)
        ensures
            r@ == self.root@,
    {
        self.root.clone()
    }

    /// Path to the training images directory.
    pub fn get_train_images_path(&self) -> (r: String)
        ensures
            r@ == split_dir(self.root@, self.train@, images_word()),
    {
        sub_dir(&self.root, &self.train, true)
    }

    /// Path to the training labels directory.
    pub fn get_train_label_images_path(&self) -> (r: String)
        ensures
            r@ == split_dir(self.root@, self.train@, labels_word()),
    {
        sub_dir(&self.root, &self.train, false)
    }

    /// Path to the validation images directory.
    pub fn get_validation_images_path(&self) -> (r: String)
        ensures
            r@ == split_dir(self.root@, self.validation@, images_word()),
    {
        sub_dir(&self.root, &self.validation, true)
    }

    /// Path to the validation labels directory.
    pub fn get_validation_label_images_path(&self) -> (r: String)
        ensures
            r@ == split_dir(self.root@, self.validation@, labels_word()),
    {
        sub_dir(&self.root, &self.validation, false)
    }

    /// Path to the test images directory.
    pub fn get_test_images_path(&self) -> (r: String)
        ensures
            r@ == split_dir(self.root@, self.test@, images_word()),
    {
        sub_dir(&self.root, &self.test, true)
    }

    /// Path to the test labels directory.
    pub fn get_test_label_images_path(&self) -> (r: String)
        ensures
            r@ == split_dir(self.root@, self.test@, labels_word()),
    {
        sub_dir(&self.root, &self.test, false)
    }

    /// Directory stem used for training data.
    pub fn get_train_stem(&self) -> (r: String)
        ensures
            r@ == self.train@,
    {
        self.train.clone()
    }

    /// Directory stem used for validation data.
    pub fn get_validation_stem(&self) -> (r: String)
        ensures
            r@ == self.validation@,
    {
        self.validation.clone()
    }

    /// Directory stem used for test data.
    pub fn get_test_stem(&self) -> (r: String)
        ensures
            r@ == self.test@,
    {
        self.test.clone()
    }

    /// Every directory the export writes into: the root, then images and
    /// labels of train, validation and test.
    pub fn all_directories(&self) -> (r: Vec<String>)
        ensures
            r@.len() == 7,
            r@[0]@ == self.root@,
            r@[1]@ == split_dir(self.root@, self.train@, images_word()),
            r@[2]@ == split_dir(self.root@, self.train@, labels_word()),
            r@[3]@ == split_dir(self.root@, self.validation@, images_word()),
            r@[4]@ == split_dir(self.root@, self.validation@, labels_word()),
            r@[5]@ == split_dir(self.root@, self.test@, images_word()),
            r@[6]@ == split_dir(self.root@, self.test@, labels_word()),
    {
        let mut v: Vec<String> = Vec::new();
        v.push(self.get_root());
        v.push(self.get_train_images_path());
        v.push(self.get_train_label_images_path());
        v.push(self.get_validation_images_path());
        v.push(self.get_validation_label_images_path());
        v.push(self.get_test_images_path());
        v.push(self.get_test_label_images_path());
        v
    }
}

impl Default for Paths {
    fn default() -> (r: Paths)
        ensures
            r.root@ == "export"@,
            r.train@ == "train"@,
            r.validation@ == "validation"@,
            r.test@ == "test"@,
    {
        Paths {
            root: text("export"),
            train: text("train"),
            validation: text("validation"),
            test: text("test"),
        }
    }
}

/// Where to locate source images and labels when loading a project.
#[derive(Debug, Clone, PartialEq)]
pub struct SourcePaths {
    /// Directory containing image files.
    pub images: String,
    /// Directory containing label files.
    pub labels: String,
}

impl Default for SourcePaths {
    fn default() -> (r: SourcePaths)
        ensures
            r.images@ == "images"@,
            r.labels@ == "labels"@,
    {
        SourcePaths { images: text("images"), labels: text("labels") }
    }
}

/// Settings controlling dataset export.
#[derive(Debug, PartialEq)]
pub struct Export {
    /// Directory layout for the exported dataset.
    pub paths: Paths,
    /// Class ids and names.
    pub class_map: ClassMap,
    /// Bounding box tolerance used for duplicate detection.
    pub duplicate_tolerance: Decimal,
    /// Train/validation/test ratio.
    pub split: Split,
}

/// Top level configuration for a project.
#[derive(Debug, PartialEq)]
pub struct YoloProjectConfig {
    /// Location of images and labels to scan.
    pub source_paths: SourcePaths,
    /// Type of project, currently always "yolo".
    pub kind: String,
    /// Name of the project.
    pub project_name: String,
    /// Export related settings.
    pub export: Export,
}

impl Default for YoloProjectConfig {
    fn default() -> (r: YoloProjectConfig)
        ensures
            r.source_paths.images@ == "images"@,
            r.source_paths.labels@ == "labels"@,
            r.kind@ == "yolo"@,
            r.project_name@ == "default"@,
            r.export.paths.root@ == "export"@,
            r.export.paths.train@ == "train"@,
            r.export.paths.validation@ == "validation"@,
            r.export.paths.test@ == "test"@,
            class_map_contents(r.export.class_map).dom() == Set::<isize>::empty(),
            r.export.duplicate_tolerance.units == 0,
            r.export.split.train.units == 700_000_000_000_000_000,
            r.export.split.validation.units == 200_000_000_000_000_000,
            r.export.split.test.units == 100_000_000_000_000_000,
    {
        YoloProjectConfig {
            source_paths: SourcePaths::default(),
            kind: text("yolo"),
            project_name: text("default"),
            export: Export {
                paths: Paths::default(),
                class_map: ClassMap::new(),
                duplicate_tolerance: Decimal { units: 0 },
                split: Split {
                    train: Decimal { units: 700_000_000_000_000_000 },
                    validation: Decimal { units: 200_000_000_000_000_000 },
                    test: Decimal { units: 100_000_000_000_000_000 },
                },
            },
        }
    }
}

} // verus!
