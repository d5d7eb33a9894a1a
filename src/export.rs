//! Dividing the valid pairs of a project into train, validation and test sets.
use vstd::prelude::*;
use rand::seq::SliceRandom;
use crate::config::{join_path, joined, Paths, Split};
use crate::files::{extension_of, no_separator, path_extension};
use crate::label::YoloClass;
use crate::text::{int_string, int_text, text};
use crate::number::{Decimal, ONE};
use crate::project::YoloProject;
use crate::types::ImageLabelPair;

verus! {

/// Writes a project out as a dataset.
pub struct YoloProjectExporter {
    /// Project to be exported.
    pub project: YoloProject,
}

/// How many of `total` pairs a portion stands for: the product rounded half
/// away from zero, and none for a portion that is not positive.
pub open spec fn portion_count(portion: Decimal, total: nat) -> nat {
    if portion.units <= 0 {
        0
    } else {
        ((portion.units * total + ONE / 2) / (ONE as int)) as nat
    }
}

pub open spec fn at_most(a: nat, b: nat) -> nat {
    if a <= b {
        a
    } else {
        b
    }
}

/// Relies on rand's `SliceRandom::shuffle` with `thread_rng`: the same pairs
/// come back, swapped into an order that chance decides. (`thread_rng` stops
/// the program only where the system gives it no seed.)
#[verifier::external_body]
fn shuffle_pairs(pairs: &mut Vec<ImageLabelPair>)
    ensures
        final(pairs)@.to_multiset() == old(pairs)@.to_multiset(),
{
    pairs.shuffle(&mut rand::thread_rng());
}

/// The number of pairs out of `total` that a portion takes, at most `total`.
pub fn split_count(portion: Decimal, total: usize) -> (r: usize)
    ensures
        r == at_most(portion_count(portion, total as nat), total as nat),
{
    if portion.units <= 0 {
        return 0;
    }
    let t = total as i128;
    if portion.units >= ONE {
        assert((portion.units * t + ONE / 2) / (ONE as int) >= t) by (nonlinear_arith)
            requires
                portion.units >= ONE,
                t >= 0,
                ONE > 0,
        ;
        return total;
    }
    assert(portion.units * t <= ONE * t) by (nonlinear_arith)
        requires
            portion.units < ONE,
            t >= 0,
    ;
    let c = (portion.units * t + ONE / 2) / ONE;
    if c > t {
        total
    } else {
        c as usize
    }
}

impl YoloProjectExporter {
    /// Splits pairs in the order given: the test pairs first, then the
    /// validation pairs, and the train pairs are the rest.
    pub fn split_in_order(pairs: Vec<ImageLabelPair>, split: Split) -> (r: (
        Vec<ImageLabelPair>,
        Vec<ImageLabelPair>,
        Vec<ImageLabelPair>,
    ))
        ensures
            ({
                let n = pairs@.len();
                let nt = at_most(portion_count(split.test, n), n);
                let nv = at_most(portion_count(split.validation, n), (n - nt) as nat);
                &&& r.2@ == pairs@.subrange(0, nt as int)
                &&& r.1@ == pairs@.subrange(nt as int, (nt + nv) as int)
                &&& r.0@ == pairs@.subrange((nt + nv) as int, n as int)
            }),
    {
        let total = pairs.len();
        let mut test = pairs;
        let nt = split_count(split.test, total);
        let mut validation = test.split_off(nt);
        let nv0 = split_count(split.validation, total);
        let nv = if nv0 <= validation.len() {
            nv0
        } else {
            validation.len()
        };
        let train = validation.split_off(nv);
        (train, validation, test)
    }

    /// Shuffles the pairs and splits them into train, validation and test
    /// sets, of the sizes that the split's portions give.
    pub fn split_pairs(pairs: Vec<ImageLabelPair>, split: Split) -> (r: (
        Vec<ImageLabelPair>,
        Vec<ImageLabelPair>,
        Vec<ImageLabelPair>,
    ))
        ensures
            ({
                let n = pairs@.len();
                let nt = at_most(portion_count(split.test, n), n);
                let nv = at_most(portion_count(split.validation, n), (n - nt) as nat);
                &&& (r.2@ + r.1@ + r.0@).to_multiset() == pairs@.to_multiset()
                &&& r.2@.len() == nt
                &&& r.1@.len() == nv
                &&& r.0@.len() == n - nt - nv
            }),
    {
        let mut shuffled = pairs;
        shuffle_pairs(&mut shuffled);
        proof {
            shuffled@.to_multiset_ensures();
            pairs@.to_multiset_ensures();
        }
        let ghost s = shuffled@;
        let r = YoloProjectExporter::split_in_order(shuffled, split);
        assert(r.2@ + r.1@ + r.0@ =~= s);
        r
    }
}

/// Classes in order of their ids.
pub open spec fn ids_sorted(s: Seq<YoloClass>) -> bool {
    forall|i: int, j: int| 0 <= i < j < s.len() ==> #[trigger] s[i].id <= #[trigger] s[j].id
}

/// One class as a line of the descriptor's `names` map.
pub open spec fn class_line(c: YoloClass) -> Seq<char> {
    "  "@ + int_text(c.id as int) + ": "@ + c.name@
}

/// The class lines, one per class, separated by newlines.
pub open spec fn class_lines(s: Seq<YoloClass>) -> Seq<char>
    decreases s.len(),
{
    if s.len() == 0 {
        Seq::empty()
    } else if s.len() == 1 {
        class_line(s[0])
    } else {
        class_lines(s.drop_last()) + "\n"@ + class_line(s.last())
    }
}

/// The dataset descriptor: where the export lies, its three split
/// directories, and the classes in the order given.
pub open spec fn descriptor(paths: Paths, classes: Seq<YoloClass>) -> Seq<char> {
    "# Generate by yolo_io - https://github.com/Ladvien/yolo_io\npath: "@ + paths.root@ + "\ntrain: "@ + paths.train@ + "\nval: "@
        + paths.validation@ + "\ntest: "@ + paths.test@ + "\n\nnames:\n"@ + class_lines(classes)
        + "\n"@
}

/// The classes ordered by id; classes with equal ids keep their order.
pub fn sort_classes(classes: &Vec<YoloClass>) -> (r: Vec<YoloClass>)
    ensures
        ids_sorted(r@),
        r@.to_multiset() == classes@.to_multiset(),
{
    let mut sorted: Vec<YoloClass> = Vec::new();
    proof {
        broadcast use vstd::seq_lib::to_multiset_insert;
        assert(classes@.take(0) =~= Seq::<YoloClass>::empty());
        Seq::<YoloClass>::empty().to_multiset_ensures();
    }
    for i in 0..classes.len()
        invariant
            ids_sorted(sorted@),
            sorted@.to_multiset() == classes@.take(i as int).to_multiset(),
    {
        let c = YoloClass { id: classes[i].id, name: classes[i].name.clone() };
        let mut p: usize = 0;
        while p < sorted.len() && sorted[p].id <= c.id
            invariant
                p <= sorted@.len(),
                forall|q: int| 0 <= q < p ==> (#[trigger] sorted@[q]).id <= c.id,
            decreases sorted@.len() - p,
        {
            p = p + 1;
        }
        let ghost before = sorted@;
        sorted.insert(p, c);
        proof {
            vstd::seq_lib::to_multiset_insert(before, p as int, c);
            let next = classes@.take(i + 1);
            assert(next =~= classes@.take(i as int).push(classes@[i as int]));
            classes@.take(i as int).to_multiset_ensures();
            assert(sorted@ =~= before.insert(p as int, c));
            assert(ids_sorted(sorted@)) by {
                assert forall|a: int, b: int| 0 <= a < b < sorted@.len() implies #[trigger] sorted@[a].id
                    <= #[trigger] sorted@[b].id by {
                    if b < p {
                        assert(sorted@[a] == before[a] && sorted@[b] == before[b]);
                    } else if b == p {
                        assert(sorted@[a] == before[a]);
                    } else if a == p {
                        assert(sorted@[b] == before[b - 1]);
                        assert(before[p as int].id > c.id);
                        if b - 1 > p {
                            assert(before[p as int].id <= before[b - 1].id);
                        }
                    } else if a < p {
                        assert(sorted@[a] == before[a] && sorted@[b] == before[b - 1]);
                    } else {
                        assert(sorted@[a] == before[a - 1] && sorted@[b] == before[b - 1]);
                    }
                }
            }
        }
    }
    assert(classes@.take(classes@.len() as int) =~= classes@);
    sorted
}

fn class_line_text(c: &YoloClass) -> (r: String)
    ensures
        r@ == class_line(*c),
{
    let mut s = text("  ");
    s.append(int_string(c.id as i128).as_str());
    s.append(": ");
    s.append(c.name.as_str());
    s
}

/// The dataset descriptor for the export paths and classes, the classes
/// ordered by id.
pub fn descriptor_text(paths: &Paths, classes: &Vec<YoloClass>) -> (r: String)
    ensures
        exists|s: Seq<YoloClass>|
            ids_sorted(s) && s.to_multiset() == classes@.to_multiset() && r@ == descriptor(
                *paths,
                s,
            ),
{
    let sorted = sort_classes(classes);
    let mut lines = text("");
    proof {
        reveal_strlit("");
    }
    for i in 0..sorted.len()
        invariant
            lines@ == class_lines(sorted@.take(i as int)),
    {
        assert(sorted@.take(i + 1).drop_last() =~= sorted@.take(i as int));
        if i > 0 {
            lines.append("\n");
        }
        lines.append(class_line_text(&sorted[i]).as_str());
        proof {
            if i == 0 {
                assert(lines@ =~= class_lines(sorted@.take(1)));
            }
        }
    }
    assert(sorted@.take(sorted@.len() as int) =~= sorted@);
    let mut s = text("# Generate by yolo_io - https://github.com/Ladvien/yolo_io\npath: ");
    s.append(paths.root.as_str());
    s.append("\ntrain: ");
    s.append(paths.train.as_str());
    s.append("\nval: ");
    s.append(paths.validation.as_str());
    s.append("\ntest: ");
    s.append(paths.test.as_str());
    s.append("\n\nnames:\n");
    s.append(lines.as_str());
    s.append("\n");
    s
}

/// Errors that may occur while exporting a project.
#[derive(Debug, Clone, PartialEq)]
pub enum ExportError {
    UnableToCreateDirectory(String),
    FailedToUnwrapLabelPath,
    FailedToCopyFile(String, String),
    ReadConfig(String),
    ParseConfig(String),
    WriteFile(String),
}

/// What `std::path::Path::with_extension` gives for a path and an extension.
pub uninterp spec fn with_extension_of(path: Seq<char>, ext: Seq<char>) -> Seq<char>;

/// Relies on `std::path::Path::with_extension`: the path with its extension
/// set to `ext`, which may hold no separator (std panics on one).
#[verifier::external_body]
fn path_with_extension(path: &str, ext: &str) -> (r: String)
    requires
        no_separator(ext@),
    ensures
        r@ == with_extension_of(path@, ext@),
{
    std::path::Path::new(path).with_extension(ext).to_string_lossy().into_owned()
}

/// The extension of a path, or nothing where it has none.
pub open spec fn extension_or_empty(path: Seq<char>) -> Seq<char> {
    match extension_of(path) {
        Some(e) => e,
        None => Seq::empty(),
    }
}

/// Where a file of the pair named `name` goes in `dir`: the name with the
/// file's extension.
pub open spec fn export_target(dir: Seq<char>, name: Seq<char>, file: Seq<char>) -> Seq<char> {
    joined(dir, with_extension_of(name, extension_or_empty(file)))
}

/// The two copies that export one pair: the image and the label file, each to
/// its directory under the pair's name.
#[derive(Debug, Clone, PartialEq)]
pub struct CopyPlan {
    pub image_from: String,
    pub image_to: String,
    pub label_from: String,
    pub label_to: String,
}

fn extension_text(path: &String) -> (r: String)
    ensures
        r@ == extension_or_empty(path@),
        no_separator(r@),
{
    proof {
        reveal_strlit("");
    }
    match path_extension(path.as_str()) {
        Some(e) => e,
        None => text(""),
    }
}

impl YoloProjectExporter {
    /// The copies that export a pair into the given image and label
    /// directories; a pair without image or label file cannot be exported.
    pub fn copy_plan(images_dir: &String, labels_dir: &String, pair: &ImageLabelPair) -> (r: Result<
        CopyPlan,
        ExportError,
    >)
        ensures
            match (pair.image_path, pair.label_file) {
                (Some(image), Some(file)) => r matches Ok(plan) && plan.image_from@ == image@
                    && plan.image_to@ == export_target(images_dir@, pair.name@, image@)
                    && plan.label_from@ == file.path@ && plan.label_to@ == export_target(
                    labels_dir@,
                    pair.name@,
                    file.path@,
                ),
                _ => r matches Err(ExportError::FailedToUnwrapLabelPath),
            },
    {
        let image = match &pair.image_path {
            Some(p) => p,
            None => return Err(ExportError::FailedToUnwrapLabelPath),
        };
        let file = match &pair.label_file {
            Some(f) => f,
            None => return Err(ExportError::FailedToUnwrapLabelPath),
        };
        let image_name = path_with_extension(pair.name.as_str(), extension_text(image).as_str());
        let label_name = path_with_extension(pair.name.as_str(), extension_text(&file.path).as_str());
        Ok(CopyPlan {
            image_from: image.clone(),
            image_to: join_path(images_dir.as_str(), image_name.as_str()),
            label_from: file.path.clone(),
            label_to: join_path(labels_dir.as_str(), label_name.as_str()),
        })
    }
}

} // verus!
