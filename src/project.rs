//! A project: the configuration and the outcomes of pairing everything the
//! file index found.
use vstd::prelude::*;
use crate::config::{class_map_contents, YoloProjectConfig};
use crate::files::PathWithKey;
use crate::label::FileMetadata;
use crate::text::text;
use crate::pairing::{comes_before, label_files, pair, pair_outcomes, text_lt, texts_view};
use crate::types::{
    results_view, ImageLabelPair, LabelCandidate, PairView, PairingError, PairingErrorView,
    PairingResult, ResultView,
};

verus! {

/// Results of pairing the files found when a project is loaded.
#[derive(Debug, Clone)]
pub struct YoloProjectData {
    /// File stems found in the source directories, sorted, each once.
    pub stems: Vec<String>,
    /// Pairing and validation results, stem after stem.
    pub pairs: Vec<PairingResult>,
    /// Number of classes defined in the project configuration.
    pub number_of_classes: usize,
}

/// A dataset project: its configuration and what loading it found.
#[derive(Debug)]
pub struct YoloProject {
    /// Data produced when loading the project.
    pub data: YoloProjectData,
    /// Configuration used when loading and exporting the project.
    pub config: YoloProjectConfig,
}

/// Every element is before the next one.
pub open spec fn strictly_sorted(s: Seq<Seq<char>>) -> bool {
    forall|i: int| 0 <= i < s.len() - 1 ==> text_lt(#[trigger] s[i], s[i + 1])
}

/// `s` holds exactly the keys of `files`.
pub open spec fn holds_keys(s: Seq<Seq<char>>, files: Seq<PathWithKey>) -> bool {
    &&& forall|j: int| 0 <= j < files.len() ==> s.contains(#[trigger] files[j].key@)
    &&& forall|i: int|
        0 <= i < s.len() ==> exists|j: int| 0 <= j < files.len() && files[j].key@ == #[trigger] s[i]
}

proof fn lemma_text_lt_total(a: Seq<char>, b: Seq<char>)
    requires
        a != b,
        !text_lt(a, b),
    ensures
        text_lt(b, a),
    decreases a.len(),
{
    if a.len() > 0 && b.len() > 0 && a[0] == b[0] {
        if a.drop_first() == b.drop_first() {
            assert(a =~= seq![a[0]] + a.drop_first());
            assert(b =~= seq![b[0]] + b.drop_first());
        }
        lemma_text_lt_total(a.drop_first(), b.drop_first());
    } else if a.len() == 0 {
        assert(b.len() == 0);
        assert(a =~= b);
    }
}

/// Puts `x` into the strictly sorted `s`, unless it is there already.
fn insert_unique(s: &mut Vec<String>, x: &String)
    requires
        strictly_sorted(texts_view(old(s)@)),
    ensures
        strictly_sorted(texts_view(final(s)@)),
        texts_view(final(s)@).to_set() == texts_view(old(s)@).to_set().insert(x@),
{
    let ghost old_v = texts_view(s@);
    let mut p: usize = 0;
    while p < s.len() && comes_before(&s[p], x)
        invariant
            p <= s@.len(),
            old_v == texts_view(s@),
            strictly_sorted(old_v),
            p > 0 ==> text_lt(old_v[p - 1], x@),
        decreases s@.len() - p,
    {
        p = p + 1;
    }
    if p < s.len() && s[p] == *x {
        assert(old_v.to_set().insert(x@) =~= old_v.to_set()) by {
            assert(old_v[p as int] == x@);
        }
        return;
    }
    if p < s.len() {
        proof {
            lemma_text_lt_total(old_v[p as int], x@);
        }
    }
    s.insert(p, x.clone());
    let ghost new_v = texts_view(s@);
    assert(new_v =~= old_v.insert(p as int, x@));
    assert(strictly_sorted(new_v)) by {
        assert forall|i: int| 0 <= i < new_v.len() - 1 implies text_lt(
            #[trigger] new_v[i],
            new_v[i + 1],
        ) by {
            if i + 1 < p {
                assert(new_v[i] == old_v[i] && new_v[i + 1] == old_v[i + 1]);
            } else if i > p {
                assert(new_v[i] == old_v[i - 1] && new_v[i + 1] == old_v[i]);
            }
        }
    }
    assert(new_v.to_set() =~= old_v.to_set().insert(x@)) by {
        assert forall|t: Seq<char>| new_v.to_set().contains(t) implies old_v.to_set().insert(
            x@,
        ).contains(t) by {
            let i = choose|i: int| 0 <= i < new_v.len() && new_v[i] == t;
            if i < p {
                assert(new_v[i] == old_v[i]);
            } else if i > p {
                assert(new_v[i] == old_v[i - 1]);
            }
        }
        assert forall|t: Seq<char>| old_v.to_set().insert(x@).contains(t) implies new_v.to_set().contains(
            t,
        ) by {
            if t == x@ {
                assert(new_v[p as int] == t);
            } else {
                let i = choose|i: int| 0 <= i < old_v.len() && old_v[i] == t;
                if i < p {
                    assert(new_v[i] == t);
                } else {
                    assert(new_v[i + 1] == t);
                }
            }
        }
    }
}

pub open spec fn keys_set(files: Seq<PathWithKey>) -> Set<Seq<char>> {
    files.map_values(|f: PathWithKey| f.key@).to_set()
}

/// The keys of the files, sorted, each once.
pub fn sorted_stems(images: &Vec<PathWithKey>, labels: &Vec<PathWithKey>) -> (r: Vec<String>)
    ensures
        strictly_sorted(texts_view(r@)),
        texts_view(r@).to_set() == keys_set(images@).union(keys_set(labels@)),
{
    let mut stems: Vec<String> = Vec::new();
    assert(texts_view(stems@).to_set() =~= Set::empty());
    for i in 0..images.len()
        invariant
            strictly_sorted(texts_view(stems@)),
            texts_view(stems@).to_set() == keys_set(images@.take(i as int)),
    {
        insert_unique(&mut stems, &images[i].key);
        assert(keys_set(images@.take(i + 1)) =~= keys_set(images@.take(i as int)).insert(
            images@[i as int].key@,
        )) by {
            let ghost ks = images@.take(i as int).map_values(|f: PathWithKey| f.key@);
            assert(images@.take(i + 1).map_values(|f: PathWithKey| f.key@) =~= ks.push(
                images@[i as int].key@,
            ));
            ks.lemma_push_to_set_commute(images@[i as int].key@);
        }
    }
    assert(images@.take(images@.len() as int) =~= images@);
    for i in 0..labels.len()
        invariant
            strictly_sorted(texts_view(stems@)),
            texts_view(stems@).to_set() == keys_set(images@).union(
                keys_set(labels@.take(i as int)),
            ),
    {
        insert_unique(&mut stems, &labels[i].key);
        assert(keys_set(labels@.take(i + 1)) =~= keys_set(labels@.take(i as int)).insert(
            labels@[i as int].key@,
        )) by {
            let ghost ks = labels@.take(i as int).map_values(|f: PathWithKey| f.key@);
            assert(labels@.take(i + 1).map_values(|f: PathWithKey| f.key@) =~= ks.push(
                labels@[i as int].key@,
            ));
            ks.lemma_push_to_set_commute(labels@[i as int].key@);
        }
        assert(keys_set(images@).union(keys_set(labels@.take(i + 1))) =~= keys_set(images@).union(
            keys_set(labels@.take(i as int)),
        ).insert(labels@[i as int].key@));
    }
    assert(labels@.take(labels@.len() as int) =~= labels@);
    stems
}

/// The pairs of the valid outcomes, in order.
pub open spec fn valid_pairs_of(o: Seq<ResultView>) -> Seq<PairView>
    decreases o.len(),
{
    if o.len() == 0 {
        Seq::empty()
    } else {
        let head = valid_pairs_of(o.drop_last());
        match o.last() {
            ResultView::Valid(p) => head.push(p),
            ResultView::Invalid(_) => head,
        }
    }
}

/// The errors of the invalid outcomes, in order.
pub open spec fn errors_of(o: Seq<ResultView>) -> Seq<PairingErrorView>
    decreases o.len(),
{
    if o.len() == 0 {
        Seq::empty()
    } else {
        let head = errors_of(o.drop_last());
        match o.last() {
            ResultView::Valid(_) => head,
            ResultView::Invalid(e) => head.push(e),
        }
    }
}

pub open spec fn pairs_view(s: Seq<ImageLabelPair>) -> Seq<PairView> {
    s.map_values(|p: ImageLabelPair| p@)
}

pub open spec fn errors_view(s: Seq<PairingError>) -> Seq<PairingErrorView> {
    s.map_values(|e: PairingError| e@)
}

/// `i` is the first position of a pair named `stem`.
pub open spec fn first_named(ps: Seq<PairView>, stem: Seq<char>, i: int) -> bool {
    &&& 0 <= i < ps.len()
    &&& ps[i].name == stem
    &&& forall|j: int| 0 <= j < i ==> ps[j].name != stem
}

impl YoloProject {
    /// Pairs what the file index found for the project: the images, and the
    /// label files with what reading each gave.
    pub fn new(config: YoloProjectConfig, images: &Vec<PathWithKey>, labels: &Vec<LabelCandidate>) -> (r:
        YoloProject)
        ensures
            r.config == config,
            strictly_sorted(texts_view(r.data.stems@)),
            texts_view(r.data.stems@).to_set() == keys_set(images@).union(
                keys_set(label_files(labels@)),
            ),
            results_view(r.data.pairs@) == pair_outcomes(
                class_map_contents(config.export.class_map).dom(),
                config.export.duplicate_tolerance,
                texts_view(r.data.stems@),
                labels@,
                images@,
            ),
            r.data.number_of_classes == class_map_contents(config.export.class_map).len(),
    {
        let mut label_paths: Vec<PathWithKey> = Vec::new();
        for i in 0..labels.len()
            invariant
                label_paths@ == label_files(labels@).take(i as int),
        {
            let f = &labels[i].file;
            label_paths.push(PathWithKey { path: f.path.clone(), key: f.key.clone() });
            assert(label_paths@ =~= label_files(labels@).take(i + 1));
        }
        assert(label_files(labels@).take(labels@.len() as int) =~= label_files(labels@));
        let stems = sorted_stems(images, &label_paths);
        let metadata = FileMetadata {
            classes: config.export.class_map.classes(),
            duplicate_tolerance: config.export.duplicate_tolerance,
        };
        let pairs = pair(&metadata, &stems, labels, images);
        let number_of_classes = config.export.class_map.len();
        YoloProject { data: YoloProjectData { stems, pairs, number_of_classes }, config }
    }

    /// All successfully paired image/label combinations, in order.
    pub fn get_valid_pairs(&self) -> (r: Vec<ImageLabelPair>)
        ensures
            pairs_view(r@) == valid_pairs_of(results_view(self.data.pairs@)),
    {
        let ghost all = results_view(self.data.pairs@);
        let mut out: Vec<ImageLabelPair> = Vec::new();
        for i in 0..self.data.pairs.len()
            invariant
                all == results_view(self.data.pairs@),
                pairs_view(out@) == valid_pairs_of(all.take(i as int)),
        {
            assert(all.take(i + 1).drop_last() =~= all.take(i as int));
            if let PairingResult::Valid(p) = &self.data.pairs[i] {
                let ghost before = out@;
                out.push(p.copy());
                assert(pairs_view(out@) =~= pairs_view(before).push(p@));
            }
        }
        assert(all.take(self.data.pairs@.len() as int) =~= all);
        out
    }

    /// Every error found during pairing or validation, in order.
    pub fn get_invalid_pairs(&self) -> (r: Vec<PairingError>)
        ensures
            errors_view(r@) == errors_of(results_view(self.data.pairs@)),
    {
        let ghost all = results_view(self.data.pairs@);
        let mut out: Vec<PairingError> = Vec::new();
        for i in 0..self.data.pairs.len()
            invariant
                all == results_view(self.data.pairs@),
                errors_view(out@) == errors_of(all.take(i as int)),
        {
            assert(all.take(i + 1).drop_last() =~= all.take(i as int));
            if let PairingResult::Invalid(e) = &self.data.pairs[i] {
                let ghost before = out@;
                out.push(e.copy());
                assert(errors_view(out@) =~= errors_view(before).push(e@));
            }
        }
        assert(all.take(self.data.pairs@.len() as int) =~= all);
        out
    }

    /// The first valid pair for a stem.
    pub fn get_pair(&self, stem: &str) -> (r: Option<ImageLabelPair>)
        ensures
            ({
                let ps = valid_pairs_of(results_view(self.data.pairs@));
                match r {
                    Some(p) => exists|i: int| #[trigger] first_named(ps, stem@, i) && p@ == ps[i],
                    None => forall|i: int| 0 <= i < ps.len() ==> ps[i].name != stem@,
                }
            }),
    {
        let valid = self.get_valid_pairs();
        let wanted = text(stem);
        let ghost ps = valid_pairs_of(results_view(self.data.pairs@));
        let mut i: usize = 0;
        while i < valid.len()
            invariant
                i <= valid@.len(),
                pairs_view(valid@) == ps,
                ps == valid_pairs_of(results_view(self.data.pairs@)),
                wanted@ == stem@,
                forall|j: int| 0 <= j < i ==> ps[j].name != stem@,
            decreases valid@.len() - i,
        {
            assert(valid@[i as int]@ == ps[i as int]);
            if valid[i].name == wanted {
                let found = valid[i].copy();
                assert(found@ == ps[i as int] && first_named(ps, stem@, i as int));
                return Some(found);
            }
            i = i + 1;
        }
        None
    }

    /// The valid pair at `index`, if there are that many.
    pub fn pair_at_index(&self, index: usize) -> (r: Option<ImageLabelPair>)
        ensures
            ({
                let ps = valid_pairs_of(results_view(self.data.pairs@));
                match r {
                    Some(p) => index < ps.len() && p@ == ps[index as int],
                    None => index >= ps.len(),
                }
            }),
    {
        let valid = self.get_valid_pairs();
        if index < valid.len() {
            assert(valid@[index as int]@ == valid_pairs_of(results_view(self.data.pairs@))[index as int]);
            Some(valid[index].copy())
        } else {
            None
        }
    }
}

impl Default for YoloProject {
    fn default() -> (r: YoloProject)
        ensures
            r.data.stems@.len() == 0,
            r.data.pairs@.len() == 0,
            r.data.number_of_classes == 0,
            r.config.source_paths.images@ == "images"@,
            r.config.source_paths.labels@ == "labels"@,
            r.config.kind@ == "yolo"@,
            r.config.project_name@ == "default"@,
            r.config.export.paths.root@ == "export"@,
            r.config.export.paths.train@ == "train"@,
            r.config.export.paths.validation@ == "validation"@,
            r.config.export.paths.test@ == "test"@,
            class_map_contents(r.config.export.class_map).dom() == Set::<isize>::empty(),
            r.config.export.duplicate_tolerance.units == 0,
            r.config.export.split.train.units == 700_000_000_000_000_000,
            r.config.export.split.validation.units == 200_000_000_000_000_000,
            r.config.export.split.test.units == 100_000_000_000_000_000,
    {
        YoloProject {
            data: YoloProjectData { stems: Vec::new(), pairs: Vec::new(), number_of_classes: 0 },
            config: YoloProjectConfig::default(),
        }
    }
}

} // verus!
