//! The pairing engine: for each stem, the image and label candidates that
//! carry it are put in path order, the labels are validated, and the two lists
//! are matched by position; the first matched pair is the stem's primary and
//! every later one is a duplicate of it.
use vstd::prelude::*;
use crate::files::PathWithKey;
use crate::label::{
    blank, class_ids, label_outcome, FileMetadata, FileView, ParseErrorView, YoloClass, YoloEntry, YoloFile,
};
use crate::text::chars_of;
use crate::types::{
    results_view, DuplicateImageLabelPair, DuplicateView, ImageLabelPair, LabelCandidate,
    PairView, PairingError, PairingErrorView, PairingResult, ResultView,
};
use crate::number::Decimal;

verus! {

/// Whether `a` comes before `b` in lexicographic order.
pub open spec fn text_lt(a: Seq<char>, b: Seq<char>) -> bool
    decreases a.len(),
{
    if a.len() == 0 {
        b.len() > 0
    } else if b.len() == 0 {
        false
    } else if a[0] != b[0] {
        a[0] < b[0]
    } else {
        text_lt(a.drop_first(), b.drop_first())
    }
}

/// Where index `i` goes among the path-ordered indices `g`: after every file
/// whose path does not come after its own.
pub open spec fn insert_pos(g: Seq<usize>, files: Seq<PathWithKey>, i: usize) -> nat
    decreases g.len(),
{
    if g.len() == 0 {
        0
    } else if text_lt(files[i as int].path@, files[g[0] as int].path@) {
        0
    } else {
        1 + insert_pos(g.drop_first(), files, i)
    }
}

/// The indices among the first `n` files whose key is `stem`, ordered by
/// path; files with equal paths keep their order.
pub open spec fn stem_group_upto(stem: Seq<char>, files: Seq<PathWithKey>, n: nat) -> Seq<usize>
    decreases n,
{
    if n == 0 {
        Seq::empty()
    } else {
        let g = stem_group_upto(stem, files, (n - 1) as nat);
        let i = (n - 1) as usize;
        if files[i as int].key@ == stem {
            g.insert(insert_pos(g, files, i) as int, i)
        } else {
            g
        }
    }
}

/// The indices of the files whose key is `stem`, ordered by path.
pub open spec fn stem_group(stem: Seq<char>, files: Seq<PathWithKey>) -> Seq<usize> {
    stem_group_upto(stem, files, files.len())
}

pub open spec fn label_files(labels: Seq<LabelCandidate>) -> Seq<PathWithKey> {
    labels.map_values(|c: LabelCandidate| c.file)
}

/// What validating one label candidate gives.
pub open spec fn candidate_outcome(
    ids: Set<isize>,
    tol: Decimal,
    c: LabelCandidate,
) -> Result<FileView, ParseErrorView> {
    match c.content {
        Some(t) => label_outcome(ids, tol, c.file.path@, t@),
        None => Err(ParseErrorView::FailedToReadFile(blank(c.file.path@))),
    }
}

/// The validation errors among `rs`, in order, as outcomes.
pub open spec fn label_errors(rs: Seq<Result<FileView, ParseErrorView>>) -> Seq<ResultView>
    decreases rs.len(),
{
    if rs.len() == 0 {
        Seq::empty()
    } else {
        let head = label_errors(rs.drop_last());
        match rs.last() {
            Err(e) => head.push(ResultView::Invalid(PairingErrorView::LabelFileError(e))),
            Ok(_) => head,
        }
    }
}

/// The validated files among `rs`, in order.
pub open spec fn passed_files(rs: Seq<Result<FileView, ParseErrorView>>) -> Seq<FileView>
    decreases rs.len(),
{
    if rs.len() == 0 {
        Seq::empty()
    } else {
        let head = passed_files(rs.drop_last());
        match rs.last() {
            Ok(f) => head.push(f),
            Err(_) => head,
        }
    }
}

pub open spec fn pair_at(stem: Seq<char>, images: Seq<Seq<char>>, files: Seq<FileView>, k: int) -> PairView {
    PairView { name: stem, image_path: Some(images[k]), label_file: Some(files[k]) }
}

/// The outcome at position `k` of matching images and validated labels by
/// position: the first pair is valid, a later pair is a duplicate of it (with
/// the same entries or with others), and an unmatched file misses its partner.
pub open spec fn zip_outcome(
    stem: Seq<char>,
    images: Seq<Seq<char>>,
    files: Seq<FileView>,
    k: int,
) -> ResultView {
    if k < images.len() && k < files.len() {
        if k == 0 {
            ResultView::Valid(pair_at(stem, images, files, 0))
        } else {
            let d = DuplicateView {
                name: stem,
                primary: pair_at(stem, images, files, 0),
                duplicate: pair_at(stem, images, files, k),
            };
            if files[k].entries == files[0].entries {
                ResultView::Invalid(PairingErrorView::Duplicate(d))
            } else {
                ResultView::Invalid(PairingErrorView::DuplicateLabelMismatch(d))
            }
        }
    } else if k < images.len() {
        ResultView::Invalid(PairingErrorView::LabelFileMissing(images[k]))
    } else {
        ResultView::Invalid(PairingErrorView::ImageFileMissing(files[k].path))
    }
}

pub open spec fn zip_len(images: Seq<Seq<char>>, files: Seq<FileView>) -> nat {
    if images.len() >= files.len() {
        images.len()
    } else {
        files.len()
    }
}

pub open spec fn zip_outcomes(stem: Seq<char>, images: Seq<Seq<char>>, files: Seq<FileView>) -> Seq<
    ResultView,
> {
    Seq::new(zip_len(images, files), |k: int| zip_outcome(stem, images, files, k))
}

/// The outcome that a stem without any label candidate starts with.
pub open spec fn no_label_outcome(n_labels: nat) -> Seq<ResultView> {
    if n_labels == 0 {
        seq![ResultView::Invalid(PairingErrorView::LabelFileMissingUnableToUnwrapImagePath)]
    } else {
        Seq::empty()
    }
}

/// Validation outcomes of the stem's label candidates, in path order.
pub open spec fn stem_label_outcomes(
    ids: Set<isize>,
    tol: Decimal,
    stem: Seq<char>,
    labels: Seq<LabelCandidate>,
) -> Seq<Result<FileView, ParseErrorView>> {
    stem_group(stem, label_files(labels)).map_values(
        |i: usize| candidate_outcome(ids, tol, labels[i as int]),
    )
}

/// Paths of the stem's images, in path order.
pub open spec fn stem_image_paths(stem: Seq<char>, images: Seq<PathWithKey>) -> Seq<Seq<char>> {
    stem_group(stem, images).map_values(|i: usize| images[i as int].path@)
}

/// Everything the engine reports for one stem: a missing-label outcome where
/// the stem has no label candidate, then the validation errors, then the
/// outcomes of matching images with validated labels.
pub open spec fn stem_outcomes(
    ids: Set<isize>,
    tol: Decimal,
    stem: Seq<char>,
    labels: Seq<LabelCandidate>,
    images: Seq<PathWithKey>,
) -> Seq<ResultView> {
    let rs = stem_label_outcomes(ids, tol, stem, labels);
    no_label_outcome(rs.len()) + label_errors(rs) + zip_outcomes(
        stem,
        stem_image_paths(stem, images),
        passed_files(rs),
    )
}

/// The outcomes of all stems, stem after stem.
pub open spec fn pair_outcomes(
    ids: Set<isize>,
    tol: Decimal,
    stems: Seq<Seq<char>>,
    labels: Seq<LabelCandidate>,
    images: Seq<PathWithKey>,
) -> Seq<ResultView>
    decreases stems.len(),
{
    if stems.len() == 0 {
        Seq::empty()
    } else {
        pair_outcomes(ids, tol, stems.drop_last(), labels, images) + stem_outcomes(
            ids,
            tol,
            stems.last(),
            labels,
            images,
        )
    }
}

/// Whether text `a` comes before text `b`.
pub fn comes_before(a: &String, b: &String) -> (r: bool)
    ensures
        r == text_lt(a@, b@),
{
    let ca = chars_of(a.as_str());
    let cb = chars_of(b.as_str());
    let mut k: usize = 0;
    assert(ca@.skip(0) =~= ca@);
    assert(cb@.skip(0) =~= cb@);
    while k < ca.len() && k < cb.len() && ca[k] == cb[k]
        invariant
            k <= ca@.len(),
            k <= cb@.len(),
            text_lt(a@, b@) == text_lt(ca@.skip(k as int), cb@.skip(k as int)),
        decreases ca@.len() - k,
    {
        assert(ca@.skip(k as int).drop_first() =~= ca@.skip(k + 1));
        assert(cb@.skip(k as int).drop_first() =~= cb@.skip(k + 1));
        k = k + 1;
    }
    if k == ca.len() {
        k < cb.len()
    } else if k == cb.len() {
        false
    } else {
        assert(ca@.skip(k as int)[0] == ca@[k as int]);
        assert(cb@.skip(k as int)[0] == cb@[k as int]);
        ca[k] < cb[k]
    }
}

/// The indices of the files whose key is `stem`, ordered by path.
pub fn stem_indices(stem: &String, files: &Vec<PathWithKey>) -> (r: Vec<usize>)
    ensures
        r@ == stem_group(stem@, files@),
        forall|q: int| 0 <= q < r@.len() ==> r@[q] < files@.len(),
{
    let mut g: Vec<usize> = Vec::new();
    let n = files.len();
    for i in 0..n
        invariant
            n == files@.len(),
            g@ == stem_group_upto(stem@, files@, i as nat),
            forall|q: int| 0 <= q < g@.len() ==> g@[q] < i,
    {
        if files[i].key == *stem {
            let mut p: usize = 0;
            assert(g@.skip(0) =~= g@);
            while p < g.len() && !comes_before(&files[i].path, &files[g[p]].path)
                invariant
                    p <= g@.len(),
                    i < n,
                    n == files@.len(),
                    forall|q: int| 0 <= q < g@.len() ==> g@[q] < i,
                    insert_pos(g@, files@, i) == p + insert_pos(g@.skip(p as int), files@, i),
                decreases g@.len() - p,
            {
                assert(g@.skip(p as int).drop_first() =~= g@.skip(p + 1));
                p = p + 1;
            }
            assert(insert_pos(g@, files@, i) == p);
            let ghost old_g = g@;
            g.insert(p, i);
            assert(forall|q: int| 0 <= q < g@.len() ==> g@[q] < i + 1) by {
                assert forall|q: int| 0 <= q < g@.len() implies g@[q] < i + 1 by {
                    if q < p {
                        assert(g@[q] == old_g[q]);
                    } else if q > p {
                        assert(g@[q] == old_g[q - 1]);
                    }
                }
            }
        }
    }
    g
}

pub open spec fn files_view(s: Seq<YoloFile>) -> Seq<FileView> {
    s.map_values(|f: YoloFile| f@)
}

/// Whether two files hold the same entries.
pub fn same_entries(a: &Vec<YoloEntry>, b: &Vec<YoloEntry>) -> (r: bool)
    ensures
        r == (a@ == b@),
{
    if a.len() != b.len() {
        return false;
    }
    let mut i: usize = 0;
    while i < a.len()
        invariant
            i <= a@.len(),
            a@.len() == b@.len(),
            forall|j: int| 0 <= j < i ==> a@[j] == b@[j],
        decreases a@.len() - i,
    {
        if a[i] != b[i] {
            return false;
        }
        i = i + 1;
    }
    assert(a@ =~= b@);
    true
}

fn make_pair(stem: &String, image: &String, file: &YoloFile) -> (r: ImageLabelPair)
    ensures
        r@ == (PairView { name: stem@, image_path: Some(image@), label_file: Some(file@) }),
{
    ImageLabelPair {
        name: stem.clone(),
        image_path: Some(image.clone()),
        label_file: Some(file.copy()),
    }
}

/// The outcome at position `k` of matching the stem's images with its
/// validated label files.
fn zip_step(stem: &String, image_paths: &Vec<String>, passed: &Vec<YoloFile>, k: usize) -> (r:
    PairingResult)
    requires
        k < image_paths@.len() || k < passed@.len(),
    ensures
        r@ == zip_outcome(
            stem@,
            image_paths@.map_values(|p: String| p@),
            files_view(passed@),
            k as int,
        ),
{
    let ghost images = image_paths@.map_values(|p: String| p@);
    let ghost files = files_view(passed@);
    if k < image_paths.len() && k < passed.len() {
        let p = make_pair(stem, &image_paths[k], &passed[k]);
        if k == 0 {
            PairingResult::Valid(p)
        } else {
            let primary = make_pair(stem, &image_paths[0], &passed[0]);
            let d = DuplicateImageLabelPair { name: stem.clone(), primary, duplicate: p };
            if same_entries(&passed[k].entries, &passed[0].entries) {
                PairingResult::Invalid(PairingError::Duplicate(d))
            } else {
                PairingResult::Invalid(PairingError::DuplicateLabelMismatch(d))
            }
        }
    } else if k < image_paths.len() {
        PairingResult::Invalid(PairingError::LabelFileMissing(image_paths[k].clone()))
    } else {
        PairingResult::Invalid(PairingError::ImageFileMissing(passed[k].path.clone()))
    }
}

/// The label candidates' files.
fn candidate_files(labels: &Vec<LabelCandidate>) -> (r: Vec<PathWithKey>)
    ensures
        r@ == label_files(labels@),
{
    let mut files: Vec<PathWithKey> = Vec::new();
    for i in 0..labels.len()
        invariant
            files@ == label_files(labels@).take(i as int),
    {
        let f = &labels[i].file;
        files.push(PathWithKey { path: f.path.clone(), key: f.key.clone() });
        assert(files@ =~= label_files(labels@).take(i + 1));
    }
    assert(label_files(labels@).take(labels@.len() as int) =~= label_files(labels@));
    files
}

/// Everything the engine reports for one stem.
fn pair_stem(
    metadata: &FileMetadata,
    stem: &String,
    labels: &Vec<LabelCandidate>,
    label_paths: &Vec<PathWithKey>,
    images: &Vec<PathWithKey>,
) -> (r: Vec<PairingResult>)
    requires
        label_paths@ == label_files(labels@),
    ensures
        results_view(r@) == stem_outcomes(
            class_ids(metadata.classes@),
            metadata.duplicate_tolerance,
            stem@,
            labels@,
            images@,
        ),
{
    let ghost ids = class_ids(metadata.classes@);
    let ghost tol = metadata.duplicate_tolerance;
    let gl = stem_indices(stem, label_paths);
    let gi = stem_indices(stem, images);
    let ghost rs = stem_label_outcomes(ids, tol, stem@, labels@);
    let mut out: Vec<PairingResult> = Vec::new();
    if gl.len() == 0 {
        out.push(PairingResult::Invalid(PairingError::LabelFileMissingUnableToUnwrapImagePath));
    }
    let ghost base = no_label_outcome(rs.len());
    assert(results_view(out@) =~= base);
    let mut passed: Vec<YoloFile> = Vec::new();
    let nl = gl.len();
    for j in 0..nl
        invariant
            nl == gl@.len(),
            gl@ == stem_group(stem@, label_files(labels@)),
            forall|q: int| 0 <= q < gl@.len() ==> gl@[q] < labels@.len(),
            rs == stem_label_outcomes(ids, tol, stem@, labels@),
            ids == class_ids(metadata.classes@),
            tol == metadata.duplicate_tolerance,
            base == no_label_outcome(rs.len()),
            results_view(out@) == base + label_errors(rs.take(j as int)),
            files_view(passed@) == passed_files(rs.take(j as int)),
    {
        let c = &labels[gl[j]];
        assert(rs.take(j + 1).drop_last() =~= rs.take(j as int));
        assert(rs[j as int] == candidate_outcome(ids, tol, labels@[gl@[j as int] as int]));
        match YoloFile::new(metadata, &c.file.path, &c.content) {
            Ok(f) => {
                let ghost before = passed@;
                passed.push(f);
                assert(files_view(passed@) =~= files_view(before).push(f@));
            },
            Err(e) => {
                let ghost before = out@;
                out.push(PairingResult::Invalid(PairingError::LabelFileError(e)));
                assert(results_view(out@) =~= results_view(before).push(
                    ResultView::Invalid(PairingErrorView::LabelFileError(e@)),
                ));
            },
        }
    }
    assert(rs.take(nl as int) =~= rs);
    let mut image_paths: Vec<String> = Vec::new();
    let ni = gi.len();
    for k in 0..ni
        invariant
            ni == gi@.len(),
            gi@ == stem_group(stem@, images@),
            forall|q: int| 0 <= q < gi@.len() ==> gi@[q] < images@.len(),
            image_paths@.map_values(|p: String| p@) == stem_image_paths(stem@, images@).take(
                k as int,
            ),
    {
        let ghost before = image_paths@;
        image_paths.push(images[gi[k]].path.clone());
        assert(image_paths@.map_values(|p: String| p@) =~= before.map_values(|p: String| p@).push(
            images@[gi@[k as int] as int].path@,
        ));
        assert(image_paths@.map_values(|p: String| p@) =~= stem_image_paths(stem@, images@).take(
            k + 1,
        ));
    }
    assert(stem_image_paths(stem@, images@).take(ni as int) =~= stem_image_paths(stem@, images@));
    let ghost ips = stem_image_paths(stem@, images@);
    let ghost fs = passed_files(rs);
    let ghost head = base + label_errors(rs);
    let n = if image_paths.len() >= passed.len() {
        image_paths.len()
    } else {
        passed.len()
    };
    assert(n == zip_len(ips, fs));
    for k in 0..n
        invariant
            n == zip_len(ips, fs),
            ips == image_paths@.map_values(|p: String| p@),
            fs == files_view(passed@),
            results_view(out@) == head + zip_outcomes(stem@, ips, fs).take(k as int),
    {
        let o = zip_step(stem, &image_paths, &passed, k);
        let ghost before = out@;
        out.push(o);
        assert(results_view(out@) =~= results_view(before).push(o@));
        assert(zip_outcomes(stem@, ips, fs).take(k + 1) =~= zip_outcomes(stem@, ips, fs).take(
            k as int,
        ).push(zip_outcome(stem@, ips, fs, k as int)));
        assert(results_view(out@) =~= head + zip_outcomes(stem@, ips, fs).take(k + 1));
    }
    assert(zip_outcomes(stem@, ips, fs).take(n as int) =~= zip_outcomes(stem@, ips, fs));
    out
}

pub open spec fn texts_view(s: Seq<String>) -> Seq<Seq<char>> {
    s.map_values(|t: String| t@)
}

/// Pairs the candidates of every stem, stem after stem.
pub fn pair(
    metadata: &FileMetadata,
    stems: &Vec<String>,
    labels: &Vec<LabelCandidate>,
    images: &Vec<PathWithKey>,
) -> (r: Vec<PairingResult>)
    ensures
        results_view(r@) == pair_outcomes(
            class_ids(metadata.classes@),
            metadata.duplicate_tolerance,
            texts_view(stems@),
            labels@,
            images@,
        ),
{
    let ghost ids = class_ids(metadata.classes@);
    let ghost tol = metadata.duplicate_tolerance;
    let ghost all = texts_view(stems@);
    let label_paths = candidate_files(labels);
    let mut out: Vec<PairingResult> = Vec::new();
    let n = stems.len();
    for i in 0..n
        invariant
            n == stems@.len(),
            all == texts_view(stems@),
            ids == class_ids(metadata.classes@),
            tol == metadata.duplicate_tolerance,
            label_paths@ == label_files(labels@),
            results_view(out@) == pair_outcomes(ids, tol, all.take(i as int), labels@, images@),
    {
        assert(all.take(i + 1).drop_last() =~= all.take(i as int));
        let mut part = pair_stem(metadata, &stems[i], labels, &label_paths, images);
        let ghost before = out@;
        let ghost added = part@;
        out.append(&mut part);
        assert(results_view(out@) =~= results_view(before) + results_view(added));
    }
    assert(all.take(n as int) =~= all);
    out
}

/// How many of the outcomes are valid.
pub open spec fn valid_count(o: Seq<ResultView>) -> nat
    decreases o.len(),
{
    if o.len() == 0 {
        0
    } else {
        valid_count(o.drop_last()) + if o.last() is Valid {
            1nat
        } else {
            0nat
        }
    }
}

pub open spec fn is_duplicate(r: ResultView) -> bool {
    r matches ResultView::Invalid(PairingErrorView::Duplicate(_))
}

/// How many of the outcomes are duplicates with the same entries.
pub open spec fn duplicate_count(o: Seq<ResultView>) -> nat
    decreases o.len(),
{
    if o.len() == 0 {
        0
    } else {
        duplicate_count(o.drop_last()) + if is_duplicate(o.last()) {
            1nat
        } else {
            0nat
        }
    }
}

pub open spec fn is_label_missing(r: ResultView) -> bool {
    r matches ResultView::Invalid(PairingErrorView::LabelFileMissing(_)) || r
        == ResultView::Invalid(PairingErrorView::LabelFileMissingUnableToUnwrapImagePath)
}

/// The number of image/label pairs that matching by position forms.
pub open spec fn matched_len(images: Seq<Seq<char>>, files: Seq<FileView>) -> nat {
    if images.len() <= files.len() {
        images.len()
    } else {
        files.len()
    }
}

proof fn lemma_count_add(a: Seq<ResultView>, b: Seq<ResultView>)
    ensures
        valid_count(a + b) == valid_count(a) + valid_count(b),
        duplicate_count(a + b) == duplicate_count(a) + duplicate_count(b),
    decreases b.len(),
{
    if b.len() > 0 {
        assert((a + b).drop_last() =~= a + b.drop_last());
        lemma_count_add(a, b.drop_last());
    } else {
        assert(a + b =~= a);
    }
}

proof fn lemma_label_errors_are_errors(rs: Seq<Result<FileView, ParseErrorView>>)
    ensures
        valid_count(label_errors(rs)) == 0,
        duplicate_count(label_errors(rs)) == 0,
        forall|j: int|
            0 <= j < label_errors(rs).len() ==> (#[trigger] label_errors(rs)[j]) matches ResultView::Invalid(
                PairingErrorView::LabelFileError(_),
            ),
    decreases rs.len(),
{
    if rs.len() > 0 {
        lemma_label_errors_are_errors(rs.drop_last());
        let head = label_errors(rs.drop_last());
        if rs.last() is Err {
            assert(label_errors(rs).drop_last() =~= head);
        }
    }
}

proof fn lemma_label_errors_empty(rs: Seq<Result<FileView, ParseErrorView>>)
    requires
        forall|j: int| 0 <= j < rs.len() ==> rs[j] is Ok,
    ensures
        label_errors(rs) == Seq::<ResultView>::empty(),
        passed_files(rs).len() == rs.len(),
        forall|j: int| 0 <= j < rs.len() ==> passed_files(rs)[j] == rs[j]->Ok_0,
    decreases rs.len(),
{
    if rs.len() > 0 {
        lemma_label_errors_empty(rs.drop_last());
    }
}

proof fn lemma_zip_counts(
    stem: Seq<char>,
    images: Seq<Seq<char>>,
    files: Seq<FileView>,
    k: int,
)
    requires
        0 <= k <= zip_len(images, files),
        matched_len(images, files) >= 1,
        forall|q: int|
            0 <= q < matched_len(images, files) ==> (#[trigger] files[q]).entries == files[0].entries,
    ensures
        valid_count(zip_outcomes(stem, images, files).take(k)) == if k
            >= 1 {
            1nat
        } else {
            0nat
        },
        duplicate_count(zip_outcomes(stem, images, files).take(k)) == if k <= 1 {
            0
        } else if k <= matched_len(images, files) {
            (k - 1) as nat
        } else {
            (matched_len(images, files) - 1) as nat
        },
    decreases k,
{
    let z = zip_outcomes(stem, images, files);
    if k > 0 {
        assert(z.take(k).drop_last() =~= z.take(k - 1));
        lemma_zip_counts(stem, images, files, k - 1);
    } else {
        assert(z.take(k) =~= Seq::<ResultView>::empty());
    }
}

/// A stem with exactly one image and one label candidate, and that label
/// valid, gets exactly one outcome, and it is valid.
pub proof fn law_single_pair_is_valid(
    ids: Set<isize>,
    tol: Decimal,
    stem: Seq<char>,
    labels: Seq<LabelCandidate>,
    images: Seq<PathWithKey>,
)
    requires
        stem_group(stem, images).len() == 1,
        stem_label_outcomes(ids, tol, stem, labels).len() == 1,
        stem_label_outcomes(ids, tol, stem, labels)[0] is Ok,
    ensures
        stem_outcomes(ids, tol, stem, labels, images).len() == 1,
        stem_outcomes(ids, tol, stem, labels, images)[0] is Valid,
{
    let rs = stem_label_outcomes(ids, tol, stem, labels);
    lemma_label_errors_empty(rs);
    assert(no_label_outcome(rs.len()) =~= Seq::<ResultView>::empty());
    let o = stem_outcomes(ids, tol, stem, labels, images);
    let z = zip_outcomes(stem, stem_image_paths(stem, images), passed_files(rs));
    assert(o =~= z);
}

/// A stem with images but no label candidate gets no valid outcome; it gets a
/// missing-label outcome first and one for every image after it.
pub proof fn law_image_without_label(
    ids: Set<isize>,
    tol: Decimal,
    stem: Seq<char>,
    labels: Seq<LabelCandidate>,
    images: Seq<PathWithKey>,
)
    requires
        stem_group(stem, images).len() >= 1,
        stem_group(stem, label_files(labels)).len() == 0,
    ensures
        stem_outcomes(ids, tol, stem, labels, images).len() == 1 + stem_group(
            stem,
            images,
        ).len(),
        forall|j: int|
            0 <= j < stem_outcomes(ids, tol, stem, labels, images).len() ==> is_label_missing(
                #[trigger] stem_outcomes(ids, tol, stem, labels, images)[j],
            ),
        valid_count(stem_outcomes(ids, tol, stem, labels, images)) == 0,
{
    let rs = stem_label_outcomes(ids, tol, stem, labels);
    assert(rs.len() == 0);
    assert(label_errors(rs) =~= Seq::<ResultView>::empty());
    assert(passed_files(rs) =~= Seq::<FileView>::empty());
    let o = stem_outcomes(ids, tol, stem, labels, images);
    let ips = stem_image_paths(stem, images);
    let z = zip_outcomes(stem, ips, passed_files(rs));
    assert(o =~= no_label_outcome(0) + z);
    assert forall|j: int| 0 <= j < o.len() implies is_label_missing(#[trigger] o[j]) by {
        if j > 0 {
            assert(o[j] == z[j - 1]);
        }
    }
    lemma_no_valid(o);
}

proof fn lemma_no_valid(o: Seq<ResultView>)
    requires
        forall|j: int| 0 <= j < o.len() ==> is_label_missing(#[trigger] o[j]),
    ensures
        valid_count(o) == 0,
    decreases o.len(),
{
    if o.len() > 0 {
        assert(is_label_missing(o[o.len() - 1]));
        lemma_no_valid(o.drop_last());
    }
}

/// A stem whose `n >= 2` matched pairs all carry the same entries gets one
/// valid outcome and `n - 1` duplicate outcomes.
pub proof fn law_identical_duplicates(
    ids: Set<isize>,
    tol: Decimal,
    stem: Seq<char>,
    labels: Seq<LabelCandidate>,
    images: Seq<PathWithKey>,
)
    requires
        ({
            let fs = passed_files(stem_label_outcomes(ids, tol, stem, labels));
            let ips = stem_image_paths(stem, images);
            &&& matched_len(ips, fs) >= 2
            &&& forall|q: int|
                0 <= q < matched_len(ips, fs) ==> (#[trigger] fs[q]).entries == fs[0].entries
        }),
    ensures
        ({
            let fs = passed_files(stem_label_outcomes(ids, tol, stem, labels));
            let ips = stem_image_paths(stem, images);
            let o = stem_outcomes(ids, tol, stem, labels, images);
            &&& valid_count(o) == 1
            &&& duplicate_count(o) == matched_len(ips, fs) - 1
        }),
{
    let rs = stem_label_outcomes(ids, tol, stem, labels);
    let fs = passed_files(rs);
    let ips = stem_image_paths(stem, images);
    let z = zip_outcomes(stem, ips, fs);
    let head = no_label_outcome(rs.len()) + label_errors(rs);
    lemma_label_errors_are_errors(rs);
    lemma_count_add(no_label_outcome(rs.len()), label_errors(rs));
    lemma_count_add(head, z);
    if rs.len() == 0 {
        assert(no_label_outcome(rs.len()).drop_last() =~= Seq::<ResultView>::empty());
    } else {
        assert(no_label_outcome(rs.len()) =~= Seq::<ResultView>::empty());
    }
    lemma_zip_counts(stem, ips, fs, z.len() as int);
    assert(z.take(z.len() as int) =~= z);
}

/// A stem with two images and two valid labels whose entries differ reports the
/// second pair as a mismatched duplicate of the first.
pub proof fn law_mismatched_duplicate(
    ids: Set<isize>,
    tol: Decimal,
    stem: Seq<char>,
    labels: Seq<LabelCandidate>,
    images: Seq<PathWithKey>,
)
    requires
        ({
            let fs = passed_files(stem_label_outcomes(ids, tol, stem, labels));
            let ips = stem_image_paths(stem, images);
            &&& ips.len() == 2
            &&& fs.len() == 2
            &&& fs[1].entries != fs[0].entries
        }),
    ensures
        ({
            let fs = passed_files(stem_label_outcomes(ids, tol, stem, labels));
            let ips = stem_image_paths(stem, images);
            stem_outcomes(ids, tol, stem, labels, images).last() == ResultView::Invalid(
                PairingErrorView::DuplicateLabelMismatch(
                    DuplicateView {
                        name: stem,
                        primary: pair_at(stem, ips, fs, 0),
                        duplicate: pair_at(stem, ips, fs, 1),
                    },
                ),
            )
        }),
{
}

proof fn lemma_text_lt_irreflexive(a: Seq<char>)
    ensures
        !text_lt(a, a),
    decreases a.len(),
{
    if a.len() > 0 {
        lemma_text_lt_irreflexive(a.drop_first());
    }
}

proof fn lemma_text_lt_transitive(a: Seq<char>, b: Seq<char>, c: Seq<char>)
    requires
        text_lt(a, b),
        text_lt(b, c),
    ensures
        text_lt(a, c),
    decreases a.len(),
{
    if a.len() > 0 && b.len() > 0 && c.len() > 0 && a[0] == b[0] && b[0] == c[0] {
        lemma_text_lt_transitive(a.drop_first(), b.drop_first(), c.drop_first());
    }
}

/// No file of `g` has a path before that of a file ahead of it.
pub open spec fn path_sorted(g: Seq<usize>, files: Seq<PathWithKey>) -> bool {
    forall|a: int, b: int|
        0 <= a < b < g.len() ==> !text_lt(
            #[trigger] files[g[b] as int].path@,
            #[trigger] files[g[a] as int].path@,
        )
}

proof fn lemma_insert_pos(g: Seq<usize>, files: Seq<PathWithKey>, i: usize)
    ensures
        insert_pos(g, files, i) <= g.len(),
        forall|q: int|
            0 <= q < insert_pos(g, files, i) ==> !text_lt(
                files[i as int].path@,
                files[#[trigger] g[q] as int].path@,
            ),
        insert_pos(g, files, i) < g.len() ==> text_lt(
            files[i as int].path@,
            files[g[insert_pos(g, files, i) as int] as int].path@,
        ),
    decreases g.len(),
{
    if g.len() > 0 && !text_lt(files[i as int].path@, files[g[0] as int].path@) {
        lemma_insert_pos(g.drop_first(), files, i);
        assert forall|q: int| 0 <= q < insert_pos(g, files, i) implies !text_lt(
            files[i as int].path@,
            files[#[trigger] g[q] as int].path@,
        ) by {
            if q > 0 {
                assert(g[q] == g.drop_first()[q - 1]);
            }
        }
    }
}

proof fn lemma_stem_group_upto(stem: Seq<char>, files: Seq<PathWithKey>, n: nat)
    requires
        n <= files.len(),
    ensures
        path_sorted(stem_group_upto(stem, files, n), files),
        forall|k: usize|
            stem_group_upto(stem, files, n).contains(k) <==> (k < n && files[k as int].key@
                == stem),
        forall|q: int|
            0 <= q < stem_group_upto(stem, files, n).len() ==> #[trigger] stem_group_upto(
                stem,
                files,
                n,
            )[q] < n,
    decreases n,
{
    if n > 0 {
        let g = stem_group_upto(stem, files, (n - 1) as nat);
        lemma_stem_group_upto(stem, files, (n - 1) as nat);
        let i = (n - 1) as usize;
        if files[i as int].key@ == stem {
            let p = insert_pos(g, files, i) as int;
            lemma_insert_pos(g, files, i);
            let h = g.insert(p, i);
            let x = files[i as int].path@;
            assert forall|a: int, b: int| 0 <= a < b < h.len() implies !text_lt(
                #[trigger] files[h[b] as int].path@,
                #[trigger] files[h[a] as int].path@,
            ) by {
                if b < p {
                    assert(h[a] == g[a] && h[b] == g[b]);
                } else if b == p {
                    assert(h[a] == g[a] && h[b] == i);
                } else if a == p {
                    assert(h[a] == i && h[b] == g[b - 1]);
                    let y = files[g[b - 1] as int].path@;
                    let z = files[g[p] as int].path@;
                    if text_lt(y, x) {
                        if b - 1 == p {
                            lemma_text_lt_transitive(y, x, y);
                            lemma_text_lt_irreflexive(y);
                        } else {
                            lemma_text_lt_transitive(y, x, z);
                        }
                    }
                } else if a < p {
                    assert(h[a] == g[a] && h[b] == g[b - 1]);
                    let y = files[g[b - 1] as int].path@;
                    let w = files[g[a] as int].path@;
                    let z = files[g[p] as int].path@;
                    if text_lt(y, w) {
                        if b - 1 == p {
                            lemma_text_lt_transitive(y, w, x);
                            lemma_text_lt_transitive(y, x, y);
                            lemma_text_lt_irreflexive(y);
                        } else {
                            lemma_text_lt_transitive(y, w, x);
                            lemma_text_lt_transitive(y, x, z);
                        }
                    }
                } else {
                    assert(h[a] == g[a - 1] && h[b] == g[b - 1]);
                }
            }
            assert forall|k: usize| h.contains(k) <==> (k < n && files[k as int].key@ == stem) by {
                if h.contains(k) {
                    let q = choose|q: int| 0 <= q < h.len() && h[q] == k;
                    if q < p {
                        assert(g[q] == k);
                        assert(g.contains(k));
                    } else if q > p {
                        assert(g[q - 1] == k);
                        assert(g.contains(k));
                    }
                }
                if k < n && files[k as int].key@ == stem {
                    if k == i {
                        assert(h[p] == k);
                    } else {
                        assert(k < n - 1);
                        assert(g.contains(k));
                        let q = choose|q: int| 0 <= q < g.len() && g[q] == k;
                        if q < p {
                            assert(h[q] == k);
                        } else {
                            assert(h[q + 1] == k);
                        }
                    }
                }
            }
            assert forall|q: int| 0 <= q < h.len() implies #[trigger] h[q] < n by {
                if q < p {
                    assert(h[q] == g[q]);
                } else if q > p {
                    assert(h[q] == g[q - 1]);
                }
            }
        }
    }
}

/// A stem's group holds exactly the files that carry the stem, in path order,
/// whatever order the files came in: its first file is the one whose path
/// comes first.
pub proof fn law_stem_group_in_path_order(stem: Seq<char>, files: Seq<PathWithKey>)
    ensures
        path_sorted(stem_group(stem, files), files),
        forall|k: usize|
            stem_group(stem, files).contains(k) <==> (k < files.len() && files[k as int].key@
                == stem),
{
    lemma_stem_group_upto(stem, files, files.len());
}

proof fn lemma_pair_outcomes_add(
    ids: Set<isize>,
    tol: Decimal,
    a: Seq<Seq<char>>,
    b: Seq<Seq<char>>,
    labels: Seq<LabelCandidate>,
    images: Seq<PathWithKey>,
)
    ensures
        pair_outcomes(ids, tol, a + b, labels, images) == pair_outcomes(ids, tol, a, labels, images)
            + pair_outcomes(ids, tol, b, labels, images),
    decreases b.len(),
{
    if b.len() == 0 {
        assert(a + b =~= a);
        assert(pair_outcomes(ids, tol, a, labels, images) + Seq::<ResultView>::empty()
            =~= pair_outcomes(ids, tol, a, labels, images));
    } else {
        assert((a + b).drop_last() =~= a + b.drop_last());
        assert((a + b).last() == b.last());
        lemma_pair_outcomes_add(ids, tol, a, b.drop_last(), labels, images);
        let pa = pair_outcomes(ids, tol, a, labels, images);
        let pb = pair_outcomes(ids, tol, b.drop_last(), labels, images);
        let so = stem_outcomes(ids, tol, b.last(), labels, images);
        assert(pa + pb + so =~= pa + (pb + so));
    }
}

/// Each stem's outcomes stand as one block among the outcomes of all stems:
/// after those of the stems before it and ahead of those of the stems after
/// it. So what holds of one stem's outcomes holds of its block in a
/// project's pairs.
pub proof fn law_outcomes_by_stem(
    ids: Set<isize>,
    tol: Decimal,
    stems: Seq<Seq<char>>,
    labels: Seq<LabelCandidate>,
    images: Seq<PathWithKey>,
    i: int,
)
    requires
        0 <= i < stems.len(),
    ensures
        pair_outcomes(ids, tol, stems, labels, images) == pair_outcomes(
            ids,
            tol,
            stems.take(i),
            labels,
            images,
        ) + stem_outcomes(ids, tol, stems[i], labels, images) + pair_outcomes(
            ids,
            tol,
            stems.skip(i + 1),
            labels,
            images,
        ),
{
    let one = seq![stems[i]];
    assert(stems =~= stems.take(i) + one + stems.skip(i + 1));
    lemma_pair_outcomes_add(ids, tol, stems.take(i) + one, stems.skip(i + 1), labels, images);
    lemma_pair_outcomes_add(ids, tol, stems.take(i), one, labels, images);
    assert(one.drop_last() =~= Seq::<Seq<char>>::empty());
    assert(one.last() == stems[i]);
    assert(pair_outcomes(ids, tol, Seq::<Seq<char>>::empty(), labels, images)
        == Seq::<ResultView>::empty());
    assert(Seq::<ResultView>::empty() + stem_outcomes(ids, tol, stems[i], labels, images)
        =~= stem_outcomes(ids, tol, stems[i], labels, images));
    assert(pair_outcomes(ids, tol, one, labels, images) =~= stem_outcomes(
        ids,
        tol,
        stems[i],
        labels,
        images,
    ));
}

} // verus!
