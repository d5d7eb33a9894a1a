//! Label files: one bounding box per line, written as
//! `<class> <x_center> <y_center> <width> <height>`, the four coordinates
//! normalized to [0, 1]. Parsing stops at the first fault.
use vstd::prelude::*;
use crate::files::{file_stem_of, get_file_stem};
use crate::number::{
    decimal_of, decimal_parts, isize_value, parse_isize_chars, sign_split, Decimal, ONE,
};
use crate::text::{
    all_digits, chars_of, digits_value, fields_of, int_string, is_digit, int_text, lines_of, split_chars, split_lines, split_on, string_of,
    text, views_of,
};

verus! {

/// Class definition used when validating label files.
#[derive(Debug, Clone, PartialEq, Eq)]
pub struct YoloClass {
    /// Numeric class identifier.
    pub id: isize,
    /// Human readable class name.
    pub name: String,
}

/// Parameters used when validating label files.
pub struct FileMetadata {
    /// Allowed classes for labels.
    pub classes: Vec<YoloClass>,
    /// Largest difference of box edges under which two boxes are the same;
    /// zero turns the check off.
    pub duplicate_tolerance: Decimal,
}

/// A single label entry in a label file.
#[derive(Clone, Copy, Debug, PartialEq, Eq, Structural)]
pub struct YoloEntry {
    /// Class identifier.
    pub class: isize,
    /// Normalized x coordinate of the bounding box centre.
    pub x_center: Decimal,
    /// Normalized y coordinate of the bounding box centre.
    pub y_center: Decimal,
    /// Normalized bounding box width.
    pub width: Decimal,
    /// Normalized bounding box height.
    pub height: Decimal,
}

/// A validated label file.
#[derive(Debug, Clone, PartialEq)]
pub struct YoloFile {
    /// File stem without extension.
    pub stem: String,
    /// Full path to the label file.
    pub path: String,
    /// Parsed label entries, one per line.
    pub entries: Vec<YoloEntry>,
}

pub struct FileView {
    pub stem: Seq<char>,
    pub path: Seq<char>,
    pub entries: Seq<YoloEntry>,
}

impl View for YoloFile {
    type V = FileView;

    open spec fn view(&self) -> FileView {
        FileView { stem: self.stem@, path: self.path@, entries: self.entries@ }
    }
}

/// Additional information associated with a [`YoloFileParseError`].
#[derive(Debug, Clone, PartialEq)]
pub struct YoloFileParseErrorDetails {
    /// Path of the file that failed.
    pub path: String,
    /// Class value being parsed when the error occurred.
    pub class: Option<String>,
    /// Line number of the offending entry.
    pub row: Option<usize>,
    /// Line number of a duplicate entry if relevant.
    pub other_row: Option<usize>,
    /// Column name associated with the error.
    pub column: Option<String>,
    /// The offending numeric value if available.
    pub value: Option<Decimal>,
}

pub struct DetailsView {
    pub path: Seq<char>,
    pub class: Option<Seq<char>>,
    pub row: Option<usize>,
    pub other_row: Option<usize>,
    pub column: Option<Seq<char>>,
    pub value: Option<Decimal>,
}

pub open spec fn opt_view(o: Option<String>) -> Option<Seq<char>> {
    match o {
        Some(s) => Some(s@),
        None => None,
    }
}

impl View for YoloFileParseErrorDetails {
    type V = DetailsView;

    open spec fn view(&self) -> DetailsView {
        DetailsView {
            path: self.path@,
            class: opt_view(self.class),
            row: self.row,
            other_row: self.other_row,
            column: opt_view(self.column),
            value: self.value,
        }
    }
}

/// Detailed reasons a label file failed to parse.
#[derive(Debug, Clone, PartialEq)]
pub enum YoloFileParseError {
    InvalidFormat(YoloFileParseErrorDetails),
    EmptyFile(YoloFileParseErrorDetails),
    DuplicateEntries(YoloFileParseErrorDetails),
    FailedToParseClassId(YoloFileParseErrorDetails),
    ClassIdNotFound(YoloFileParseErrorDetails),
    LabelDataOutOfRange(YoloFileParseErrorDetails),
    FailedToParseColumn(YoloFileParseErrorDetails),
    FailedToGetFileStem(YoloFileParseErrorDetails),
    FailedToReadFile(YoloFileParseErrorDetails),
}

pub enum ParseErrorView {
    InvalidFormat(DetailsView),
    EmptyFile(DetailsView),
    DuplicateEntries(DetailsView),
    FailedToParseClassId(DetailsView),
    ClassIdNotFound(DetailsView),
    LabelDataOutOfRange(DetailsView),
    FailedToParseColumn(DetailsView),
    FailedToGetFileStem(DetailsView),
    FailedToReadFile(DetailsView),
}

impl View for YoloFileParseError {
    type V = ParseErrorView;

    open spec fn view(&self) -> ParseErrorView {
        match self {
            YoloFileParseError::InvalidFormat(d) => ParseErrorView::InvalidFormat(d@),
            YoloFileParseError::EmptyFile(d) => ParseErrorView::EmptyFile(d@),
            YoloFileParseError::DuplicateEntries(d) => ParseErrorView::DuplicateEntries(d@),
            YoloFileParseError::FailedToParseClassId(d) => ParseErrorView::FailedToParseClassId(d@),
            YoloFileParseError::ClassIdNotFound(d) => ParseErrorView::ClassIdNotFound(d@),
            YoloFileParseError::LabelDataOutOfRange(d) => ParseErrorView::LabelDataOutOfRange(d@),
            YoloFileParseError::FailedToParseColumn(d) => ParseErrorView::FailedToParseColumn(d@),
            YoloFileParseError::FailedToGetFileStem(d) => ParseErrorView::FailedToGetFileStem(d@),
            YoloFileParseError::FailedToReadFile(d) => ParseErrorView::FailedToReadFile(d@),
        }
    }
}

/// Why one line is not a label entry.
pub enum RowFault {
    /// The line does not hold exactly five fields.
    Format,
    /// The class field is no integer.
    ClassToken(Seq<char>),
    /// The class is not among the known classes.
    UnknownClass(isize),
    /// Coordinate column 1 to 4 (x, y, w, h) is no number in decimal
    /// notation (`decimal_of`).
    Unreadable(isize, nat),
    /// Coordinate column 1 to 4 lies outside [0, 1].
    OutOfRange(isize, nat, Decimal),
}

/// The first fault of a file: a line that is no entry, or two lines with the
/// same box (the earlier line first).
pub enum LineFault {
    Row(nat, RowFault),
    Duplicate(nat, nat),
}

/// The ids of the classes.
pub open spec fn class_ids(classes: Seq<YoloClass>) -> Set<isize> {
    classes.map_values(|c: YoloClass| c.id).to_set()
}

pub open spec fn known_class(ids: Set<isize>, id: isize) -> bool {
    ids.contains(id)
}

pub open spec fn column_name(k: nat) -> Seq<char> {
    if k == 1 {
        seq!['x']
    } else if k == 2 {
        seq!['y']
    } else if k == 3 {
        seq!['w']
    } else {
        seq!['h']
    }
}

pub open spec fn class_word() -> Seq<char> {
    seq!['c', 'l', 'a', 's', 's']
}

pub open spec fn unit_value(d: Decimal) -> bool {
    0 <= d.units <= ONE
}

pub open spec fn unit_entry(e: YoloEntry) -> bool {
    unit_value(e.x_center) && unit_value(e.y_center) && unit_value(e.width) && unit_value(
        e.height,
    )
}

/// What one line holds: its entry, or the first check it fails, checked from
/// left to right (all four coordinates are read before any range is checked).
/// A coordinate is a number in decimal notation with an optional exponent, as
/// `str::parse::<f32>` reads one, held to 18 fraction digits (rounded half up).
pub open spec fn row_outcome(ids: Set<isize>, line: Seq<char>) -> Result<
    YoloEntry,
    RowFault,
> {
    let f = fields_of(line);
    if f.len() != 5 {
        Err(RowFault::Format)
    } else if isize_value(f[0]) is None {
        Err(RowFault::ClassToken(f[0]))
    } else {
        let c = isize_value(f[0])->0;
        if !known_class(ids, c) {
            Err(RowFault::UnknownClass(c))
        } else if decimal_of(f[1]) is None {
            Err(RowFault::Unreadable(c, 1))
        } else if decimal_of(f[2]) is None {
            Err(RowFault::Unreadable(c, 2))
        } else if decimal_of(f[3]) is None {
            Err(RowFault::Unreadable(c, 3))
        } else if decimal_of(f[4]) is None {
            Err(RowFault::Unreadable(c, 4))
        } else {
            let x = decimal_of(f[1])->0;
            let y = decimal_of(f[2])->0;
            let w = decimal_of(f[3])->0;
            let h = decimal_of(f[4])->0;
            if !unit_value(x) {
                Err(RowFault::OutOfRange(c, 1, x))
            } else if !unit_value(y) {
                Err(RowFault::OutOfRange(c, 2, y))
            } else if !unit_value(w) {
                Err(RowFault::OutOfRange(c, 3, w))
            } else if !unit_value(h) {
                Err(RowFault::OutOfRange(c, 4, h))
            } else {
                Ok(YoloEntry { class: c, x_center: x, y_center: y, width: w, height: h })
            }
        }
    }
}

/// The box edges of an entry, doubled so that they stay whole numbers:
/// left, right, top, bottom.
pub open spec fn doubled_edges(e: YoloEntry) -> (int, int, int, int) {
    (
        2 * e.x_center.units - e.width.units,
        2 * e.x_center.units + e.width.units,
        2 * e.y_center.units - e.height.units,
        2 * e.y_center.units + e.height.units,
    )
}

/// Two doubled edges that differ by at most the tolerance.
pub open spec fn within(a: int, b: int, tol: Decimal) -> bool {
    -2 * tol.units <= a - b <= 2 * tol.units
}

/// Two entries whose four box edges each differ by at most a positive tolerance.
pub open spec fn same_box(a: YoloEntry, b: YoloEntry, tol: Decimal) -> bool {
    let ea = doubled_edges(a);
    let eb = doubled_edges(b);
    tol.units > 0 && within(ea.0, eb.0, tol) && within(ea.1, eb.1, tol) && within(
        ea.2,
        eb.2,
        tol,
    ) && within(ea.3, eb.3, tol)
}

/// The first earlier entry with the same box as `e`.
pub open spec fn first_same_box(prev: Seq<YoloEntry>, e: YoloEntry, tol: Decimal) -> Option<nat>
    decreases prev.len(),
{
    if prev.len() == 0 {
        None
    } else {
        match first_same_box(prev.drop_last(), e, tol) {
            Some(j) => Some(j),
            None => if same_box(prev.last(), e, tol) {
                Some((prev.len() - 1) as nat)
            } else {
                None
            },
        }
    }
}

/// The entries of a sequence of lines, or the first fault among them.
pub open spec fn scan_lines(ids: Set<isize>, tol: Decimal, lines: Seq<Seq<char>>) -> Result<
    Seq<YoloEntry>,
    LineFault,
>
    decreases lines.len(),
{
    if lines.len() == 0 {
        Ok(Seq::empty())
    } else {
        match scan_lines(ids, tol, lines.drop_last()) {
            Err(f) => Err(f),
            Ok(es) => {
                let i = (lines.len() - 1) as nat;
                match row_outcome(ids, lines.last()) {
                    Err(f) => Err(LineFault::Row(i, f)),
                    Ok(e) => match first_same_box(es, e, tol) {
                        Some(j) => Err(LineFault::Duplicate(j, i)),
                        None => Ok(es.push(e)),
                    },
                }
            },
        }
    }
}

pub open spec fn details(
    path: Seq<char>,
    class: Option<Seq<char>>,
    row: Option<usize>,
    other_row: Option<usize>,
    column: Option<Seq<char>>,
    value: Option<Decimal>,
) -> DetailsView {
    DetailsView { path, class, row, other_row, column, value }
}

pub open spec fn blank(path: Seq<char>) -> DetailsView {
    details(path, None, None, None, None, None)
}

/// The error reported for a fault of the file at `path`.
pub open spec fn fault_error(path: Seq<char>, fault: LineFault) -> ParseErrorView {
    match fault {
        LineFault::Duplicate(j, i) => ParseErrorView::DuplicateEntries(
            details(path, None, Some(j as usize), Some(i as usize), None, None),
        ),
        LineFault::Row(i, f) => match f {
            RowFault::Format => ParseErrorView::InvalidFormat(blank(path)),
            RowFault::ClassToken(t) => ParseErrorView::FailedToParseClassId(
                details(path, Some(t), Some(i as usize), None, Some(class_word()), None),
            ),
            RowFault::UnknownClass(c) => ParseErrorView::ClassIdNotFound(
                details(
                    path,
                    Some(int_text(c as int)),
                    Some(i as usize),
                    None,
                    Some(class_word()),
                    None,
                ),
            ),
            RowFault::Unreadable(c, k) => ParseErrorView::FailedToParseColumn(
                details(
                    path,
                    Some(int_text(c as int)),
                    Some(i as usize),
                    None,
                    Some(column_name(k)),
                    None,
                ),
            ),
            RowFault::OutOfRange(c, k, v) => ParseErrorView::LabelDataOutOfRange(
                details(
                    path,
                    Some(int_text(c as int)),
                    Some(i as usize),
                    None,
                    Some(column_name(k)),
                    Some(v),
                ),
            ),
        },
    }
}

/// What validating the text `content` of the label file at `path` gives.
pub open spec fn label_outcome(
    ids: Set<isize>,
    tol: Decimal,
    path: Seq<char>,
    content: Seq<char>,
) -> Result<FileView, ParseErrorView> {
    if content.len() == 0 {
        Err(ParseErrorView::EmptyFile(blank(path)))
    } else {
        match scan_lines(ids, tol, lines_of(content)) {
            Err(f) => Err(fault_error(path, f)),
            Ok(es) => match file_stem_of(path) {
                None => Err(ParseErrorView::FailedToGetFileStem(blank(path))),
                Some(stem) => Ok(FileView { stem, path, entries: es }),
            },
        }
    }
}

pub open spec fn outcome_view(r: Result<YoloFile, YoloFileParseError>) -> Result<
    FileView,
    ParseErrorView,
> {
    match r {
        Ok(f) => Ok(f@),
        Err(e) => Err(e@),
    }
}

fn blank_details(path: &String) -> (r: YoloFileParseErrorDetails)
    ensures
        r@ == blank(path@),
{
    YoloFileParseErrorDetails {
        path: path.clone(),
        class: None,
        row: None,
        other_row: None,
        column: None,
        value: None,
    }
}

fn column_text(k: usize) -> (r: String)
    requires
        1 <= k <= 4,
    ensures
        r@ == column_name(k as nat),
{
    if k == 1 {
        proof {
            reveal_strlit("x");
        }
        text("x")
    } else if k == 2 {
        proof {
            reveal_strlit("y");
        }
        text("y")
    } else if k == 3 {
        proof {
            reveal_strlit("w");
        }
        text("w")
    } else {
        proof {
            reveal_strlit("h");
        }
        text("h")
    }
}

fn class_text() -> (r: String)
    ensures
        r@ == class_word(),
{
    proof {
        reveal_strlit("class");
    }
    text("class")
}

/// Details naming the class and row of a fault in coordinate column `k`.
fn column_details(path: &String, class: isize, row: usize, k: usize, value: Option<Decimal>) -> (r:
    YoloFileParseErrorDetails)
    requires
        1 <= k <= 4,
    ensures
        r@ == details(
            path@,
            Some(int_text(class as int)),
            Some(row),
            None,
            Some(column_name(k as nat)),
            value,
        ),
{
    YoloFileParseErrorDetails {
        path: path.clone(),
        class: Some(int_string(class as i128)),
        row: Some(row),
        other_row: None,
        column: Some(column_text(k)),
        value,
    }
}

/// Whether `id` is one of the classes.
pub fn has_class(classes: &Vec<YoloClass>, id: isize) -> (r: bool)
    ensures
        r == class_ids(classes@).contains(id),
{
    let ghost ids = classes@.map_values(|c: YoloClass| c.id);
    let mut i: usize = 0;
    while i < classes.len()
        invariant
            i <= classes@.len(),
            ids == classes@.map_values(|c: YoloClass| c.id),
            forall|j: int| 0 <= j < i ==> classes@[j].id != id,
        decreases classes@.len() - i,
    {
        if classes[i].id == id {
            assert(ids[i as int] == id);
            return true;
        }
        i = i + 1;
    }
    assert(!ids.contains(id));
    false
}

/// Reads one line of a label file, `row` being its index.
fn parse_row(metadata: &FileMetadata, path: &String, row: usize, line: &Vec<char>) -> (r: Result<
    YoloEntry,
    YoloFileParseError,
>)
    ensures
        match row_outcome(class_ids(metadata.classes@), line@) {
            Ok(e) => r == Ok::<YoloEntry, YoloFileParseError>(e),
            Err(f) => r matches Err(err) && err@ == fault_error(path@, LineFault::Row(row as nat, f)),
        },
{
    let f = split_chars(line, ' ');
    let ghost fv = fields_of(line@);
    if f.len() != 5 {
        return Err(YoloFileParseError::InvalidFormat(blank_details(path)));
    }
    assert(f@[0]@ == fv[0] && f@[1]@ == fv[1] && f@[2]@ == fv[2] && f@[3]@ == fv[3] && f@[4]@
        == fv[4]);
    let class = match parse_isize_chars(&f[0]) {
        Some(c) => c,
        None => {
            return Err(
                YoloFileParseError::FailedToParseClassId(
                    YoloFileParseErrorDetails {
                        path: path.clone(),
                        class: Some(string_of(&f[0])),
                        row: Some(row),
                        other_row: None,
                        column: Some(class_text()),
                        value: None,
                    },
                ),
            );
        },
    };
    if !has_class(&metadata.classes, class) {
        return Err(
            YoloFileParseError::ClassIdNotFound(
                YoloFileParseErrorDetails {
                    path: path.clone(),
                    class: Some(int_string(class as i128)),
                    row: Some(row),
                    other_row: None,
                    column: Some(class_text()),
                    value: None,
                },
            ),
        );
    }
    let x = match Decimal::parse_chars(&f[1]) {
        Some(v) => v,
        None => {
            return Err(
                YoloFileParseError::FailedToParseColumn(column_details(path, class, row, 1, None)),
            )
        },
    };
    let y = match Decimal::parse_chars(&f[2]) {
        Some(v) => v,
        None => {
            return Err(
                YoloFileParseError::FailedToParseColumn(column_details(path, class, row, 2, None)),
            )
        },
    };
    let w = match Decimal::parse_chars(&f[3]) {
        Some(v) => v,
        None => {
            return Err(
                YoloFileParseError::FailedToParseColumn(column_details(path, class, row, 3, None)),
            )
        },
    };
    let h = match Decimal::parse_chars(&f[4]) {
        Some(v) => v,
        None => {
            return Err(
                YoloFileParseError::FailedToParseColumn(column_details(path, class, row, 4, None)),
            )
        },
    };
    if !x.in_unit_interval() {
        return Err(
            YoloFileParseError::LabelDataOutOfRange(column_details(path, class, row, 1, Some(x))),
        );
    }
    if !y.in_unit_interval() {
        return Err(
            YoloFileParseError::LabelDataOutOfRange(column_details(path, class, row, 2, Some(y))),
        );
    }
    if !w.in_unit_interval() {
        return Err(
            YoloFileParseError::LabelDataOutOfRange(column_details(path, class, row, 3, Some(w))),
        );
    }
    if !h.in_unit_interval() {
        return Err(
            YoloFileParseError::LabelDataOutOfRange(column_details(path, class, row, 4, Some(h))),
        );
    }
    Ok(YoloEntry { class, x_center: x, y_center: y, width: w, height: h })
}

/// Whether two doubled edges differ by at most the tolerance.
fn edges_within(a: i128, b: i128, tol: Decimal) -> (r: bool)
    requires
        -ONE <= a <= 3 * ONE,
        -ONE <= b <= 3 * ONE,
    ensures
        r == within(a as int, b as int, tol),
{
    if tol.units >= 3 * ONE {
        true
    } else if tol.units < 0 {
        false
    } else {
        let d = a - b;
        -2 * tol.units <= d && d <= 2 * tol.units
    }
}

fn is_same_box(a: &YoloEntry, b: &YoloEntry, tol: Decimal) -> (r: bool)
    requires
        unit_entry(*a),
        unit_entry(*b),
    ensures
        r == same_box(*a, *b, tol),
{
    let ax = a.x_center.units;
    let aw = a.width.units;
    let ay = a.y_center.units;
    let ah = a.height.units;
    let bx = b.x_center.units;
    let bw = b.width.units;
    let by = b.y_center.units;
    let bh = b.height.units;
    tol.units > 0 && edges_within(2 * ax - aw, 2 * bx - bw, tol) && edges_within(
        2 * ax + aw,
        2 * bx + bw,
        tol,
    ) && edges_within(2 * ay - ah, 2 * by - bh, tol) && edges_within(2 * ay + ah, 2 * by + bh, tol)
}

proof fn lemma_first_same_box_prefix(prev: Seq<YoloEntry>, e: YoloEntry, tol: Decimal, k: int)
    requires
        0 <= k <= prev.len(),
        first_same_box(prev.take(k), e, tol) is Some,
    ensures
        first_same_box(prev, e, tol) == first_same_box(prev.take(k), e, tol),
    decreases prev.len(),
{
    if k == prev.len() {
        assert(prev.take(k) =~= prev);
    } else {
        assert(prev.drop_last().take(k) =~= prev.take(k));
        lemma_first_same_box_prefix(prev.drop_last(), e, tol, k);
    }
}

/// The first of `prev` with the same box as `e`.
fn find_same_box(prev: &Vec<YoloEntry>, e: &YoloEntry, tol: Decimal) -> (r: Option<usize>)
    requires
        unit_entry(*e),
        forall|j: int| 0 <= j < prev@.len() ==> unit_entry(#[trigger] prev@[j]),
    ensures
        match r {
            Some(j) => first_same_box(prev@, *e, tol) == Some(j as nat),
            None => first_same_box(prev@, *e, tol) is None,
        },
{
    let mut j: usize = 0;
    while j < prev.len()
        invariant
            j <= prev@.len(),
            unit_entry(*e),
            forall|i: int| 0 <= i < prev@.len() ==> unit_entry(#[trigger] prev@[i]),
            first_same_box(prev@.take(j as int), *e, tol) is None,
        decreases prev@.len() - j,
    {
        assert(prev@.take(j + 1).drop_last() =~= prev@.take(j as int));
        if is_same_box(&prev[j], e, tol) {
            proof {
                lemma_first_same_box_prefix(prev@, *e, tol, j + 1);
            }
            return Some(j);
        }
        j = j + 1;
    }
    assert(prev@.take(j as int) =~= prev@);
    None
}

proof fn lemma_scan_fault_prefix(
    ids: Set<isize>,
    tol: Decimal,
    lines: Seq<Seq<char>>,
    k: int,
)
    requires
        0 <= k <= lines.len(),
        scan_lines(ids, tol, lines.take(k)) is Err,
    ensures
        scan_lines(ids, tol, lines) == scan_lines(ids, tol, lines.take(k)),
    decreases lines.len(),
{
    if k == lines.len() {
        assert(lines.take(k) =~= lines);
    } else {
        assert(lines.drop_last().take(k) =~= lines.take(k));
        lemma_scan_fault_prefix(ids, tol, lines.drop_last(), k);
    }
}

/// Every entry that a scan gives lies in the unit square, one per line.
pub proof fn lemma_scan_entries(ids: Set<isize>, tol: Decimal, lines: Seq<Seq<char>>)
    requires
        scan_lines(ids, tol, lines) is Ok,
    ensures
        scan_lines(ids, tol, lines)->Ok_0.len() == lines.len(),
        forall|j: int|
            0 <= j < lines.len() ==> unit_entry(#[trigger] scan_lines(ids, tol, lines)->Ok_0[j]),
    decreases lines.len(),
{
    if lines.len() > 0 {
        lemma_scan_entries(ids, tol, lines.drop_last());
    }
}

/// The entries of the lines, or the error for their first fault.
fn scan(metadata: &FileMetadata, path: &String, lines: &Vec<Vec<char>>) -> (r: Result<
    Vec<YoloEntry>,
    YoloFileParseError,
>)
    ensures
        match scan_lines(class_ids(metadata.classes@), metadata.duplicate_tolerance, views_of(lines@)) {
            Ok(es) => r matches Ok(v) && v@ == es,
            Err(f) => r matches Err(e) && e@ == fault_error(path@, f),
        },
{
    let ghost ids = class_ids(metadata.classes@);
    let tol = metadata.duplicate_tolerance;
    let ghost all = views_of(lines@);
    let mut entries: Vec<YoloEntry> = Vec::new();
    let n = lines.len();
    for i in 0..n
        invariant
            n == lines@.len(),
            all == views_of(lines@),
            tol == metadata.duplicate_tolerance,
            ids == class_ids(metadata.classes@),
            scan_lines(ids, tol, all.take(i as int)) == Ok::<Seq<YoloEntry>, LineFault>(
                entries@,
            ),
    {
        let ghost pre = all.take(i as int);
        let ghost next = all.take(i + 1);
        assert(next.drop_last() =~= pre);
        assert(next.last() == lines@[i as int]@);
        proof {
            lemma_scan_entries(ids, tol, pre);
        }
        match parse_row(metadata, path, i, &lines[i]) {
            Err(e) => {
                proof {
                    lemma_scan_fault_prefix(ids, tol, all, i + 1);
                }
                return Err(e);
            },
            Ok(entry) => {
                match find_same_box(&entries, &entry, tol) {
                    Some(j) => {
                        proof {
                            lemma_scan_fault_prefix(ids, tol, all, i + 1);
                        }
                        return Err(
                            YoloFileParseError::DuplicateEntries(
                                YoloFileParseErrorDetails {
                                    path: path.clone(),
                                    class: None,
                                    row: Some(j),
                                    other_row: Some(i),
                                    column: None,
                                    value: None,
                                },
                            ),
                        );
                    },
                    None => {
                        entries.push(entry);
                    },
                }
            },
        }
    }
    assert(all.take(n as int) =~= all);
    Ok(entries)
}

impl YoloFile {
    /// Validates the text of the label file at `path`.
    pub fn from_text(metadata: &FileMetadata, path: &String, content: &String) -> (r: Result<
        YoloFile,
        YoloFileParseError,
    >)
        ensures
            outcome_view(r) == label_outcome(
                class_ids(metadata.classes@),
                metadata.duplicate_tolerance,
                path@,
                content@,
            ),
    {
        if content.as_str().is_empty() {
            return Err(YoloFileParseError::EmptyFile(blank_details(path)));
        }
        let chars = chars_of(content.as_str());
        let lines = split_lines(&chars);
        let entries = match scan(metadata, path, &lines) {
            Ok(es) => es,
            Err(e) => return Err(e),
        };
        let stem = match get_file_stem(path.as_str()) {
            Ok(s) => s,
            Err(_) => return Err(YoloFileParseError::FailedToGetFileStem(blank_details(path))),
        };
        Ok(YoloFile { stem, path: path.clone(), entries })
    }

    /// Validates a label file from what reading it gave: its text, or nothing
    /// where it could not be read.
    pub fn new(metadata: &FileMetadata, path: &String, content: &Option<String>) -> (r: Result<
        YoloFile,
        YoloFileParseError,
    >)
        ensures
            match content {
                Some(c) => outcome_view(r) == label_outcome(
                    class_ids(metadata.classes@),
                    metadata.duplicate_tolerance,
                    path@,
                    c@,
                ),
                None => outcome_view(r) == Err::<FileView, ParseErrorView>(
                    ParseErrorView::FailedToReadFile(blank(path@)),
                ),
            },
    {
        match content {
            Some(c) => YoloFile::from_text(metadata, path, c),
            None => Err(YoloFileParseError::FailedToReadFile(blank_details(path))),
        }
    }
}

/// The number of lines that hold at least one character.
pub open spec fn nonempty_count(lines: Seq<Seq<char>>) -> nat
    decreases lines.len(),
{
    if lines.len() == 0 {
        0
    } else {
        nonempty_count(lines.drop_last()) + if lines.last().len() > 0 {
            1nat
        } else {
            0nat
        }
    }
}

proof fn lemma_scan_lines_nonempty(ids: Set<isize>, tol: Decimal, lines: Seq<Seq<char>>)
    requires
        scan_lines(ids, tol, lines) is Ok,
    ensures
        nonempty_count(lines) == lines.len(),
    decreases lines.len(),
{
    if lines.len() > 0 {
        lemma_scan_lines_nonempty(ids, tol, lines.drop_last());
        let l = lines.last();
        if l.len() == 0 {
            assert(fields_of(l) =~= seq![Seq::<char>::empty()]);
        }
    }
}

/// Validating the same text of the same path with the same classes and
/// tolerance gives the same file or the same error every time.
pub proof fn law_validation_repeats(
    metadata: &FileMetadata,
    path: &String,
    content: &String,
    first: Result<YoloFile, YoloFileParseError>,
    second: Result<YoloFile, YoloFileParseError>,
)
    requires
        outcome_view(first) == label_outcome(
            class_ids(metadata.classes@),
            metadata.duplicate_tolerance,
            path@,
            content@,
        ),
        outcome_view(second) == label_outcome(
            class_ids(metadata.classes@),
            metadata.duplicate_tolerance,
            path@,
            content@,
        ),
    ensures
        outcome_view(first) == outcome_view(second),
{
}

/// A validated file has one entry for each non-empty line of its text.
pub proof fn law_entries_count_lines(
    ids: Set<isize>,
    tol: Decimal,
    path: Seq<char>,
    content: Seq<char>,
)
    requires
        label_outcome(ids, tol, path, content) is Ok,
    ensures
        label_outcome(ids, tol, path, content)->Ok_0.entries.len() == nonempty_count(
            lines_of(content),
        ),
{
    let lines = lines_of(content);
    lemma_scan_entries(ids, tol, lines);
    lemma_scan_lines_nonempty(ids, tol, lines);
}

pub fn copy_text(o: &Option<String>) -> (r: Option<String>)
    ensures
        opt_view(r) == opt_view(*o),
{
    match o {
        Some(s) => Some(s.clone()),
        None => None,
    }
}

impl YoloFileParseErrorDetails {
    /// A copy of these details.
    pub fn copy(&self) -> (r: YoloFileParseErrorDetails)
        ensures
            r@ == self@,
    {
        YoloFileParseErrorDetails {
            path: self.path.clone(),
            class: copy_text(&self.class),
            row: self.row,
            other_row: self.other_row,
            column: copy_text(&self.column),
            value: self.value,
        }
    }
}

impl YoloFileParseError {
    /// A copy of this error.
    pub fn copy(&self) -> (r: YoloFileParseError)
        ensures
            r@ == self@,
    {
        match self {
            YoloFileParseError::InvalidFormat(d) => YoloFileParseError::InvalidFormat(d.copy()),
            YoloFileParseError::EmptyFile(d) => YoloFileParseError::EmptyFile(d.copy()),
            YoloFileParseError::DuplicateEntries(d) => YoloFileParseError::DuplicateEntries(d.copy()),
            YoloFileParseError::FailedToParseClassId(d) => YoloFileParseError::FailedToParseClassId(
                d.copy(),
            ),
            YoloFileParseError::ClassIdNotFound(d) => YoloFileParseError::ClassIdNotFound(d.copy()),
            YoloFileParseError::LabelDataOutOfRange(d) => YoloFileParseError::LabelDataOutOfRange(
                d.copy(),
            ),
            YoloFileParseError::FailedToParseColumn(d) => YoloFileParseError::FailedToParseColumn(
                d.copy(),
            ),
            YoloFileParseError::FailedToGetFileStem(d) => YoloFileParseError::FailedToGetFileStem(
                d.copy(),
            ),
            YoloFileParseError::FailedToReadFile(d) => YoloFileParseError::FailedToReadFile(d.copy()),
        }
    }
}

impl YoloFile {
    /// A copy of this file.
    pub fn copy(&self) -> (r: YoloFile)
        ensures
            r@ == self@,
    {
        let mut entries: Vec<YoloEntry> = Vec::new();
        for i in 0..self.entries.len()
            invariant
                entries@ == self.entries@.take(i as int),
        {
            entries.push(self.entries[i]);
            assert(entries@ =~= self.entries@.take(i + 1));
        }
        assert(self.entries@.take(self.entries@.len() as int) =~= self.entries@);
        YoloFile { stem: self.stem.clone(), path: self.path.clone(), entries }
    }
}

proof fn lemma_lines_of_nonempty(content: Seq<char>)
    requires
        content.len() > 0,
    ensures
        lines_of(content).len() >= 1,
{
    let p = split_on(content, '\n');
    crate::text::lemma_split_on_nonempty(content.drop_last(), '\n');
    crate::text::lemma_split_on_nonempty(content, '\n');
    if content.last() != '\n' {
        assert(p.last().len() > 0);
    }
}

/// A validated file holds at least one entry: an empty text is refused, and
/// any other text has a line.
pub proof fn law_entries_never_empty(
    ids: Set<isize>,
    tol: Decimal,
    path: Seq<char>,
    content: Seq<char>,
)
    requires
        label_outcome(ids, tol, path, content) is Ok,
    ensures
        label_outcome(ids, tol, path, content)->Ok_0.entries.len() >= 1,
{
    lemma_lines_of_nonempty(content);
    lemma_scan_entries(ids, tol, lines_of(content));
}

/// A token of digits, a point and digits reads as those digits over a power of ten.
proof fn lemma_point_token(whole: Seq<char>, frac: Seq<char>)
    requires
        all_digits(whole),
        all_digits(frac),
        whole.len() >= 1,
    ensures
        decimal_parts(whole + seq!['.'] + frac) == Some(
            (false, digits_value(whole + frac), -(frac.len() as int)),
        ),
{
    let t = whole + seq!['.'] + frac;
    assert(is_digit(whole[0]));
    assert(sign_split(t) == (false, t));
    assert forall|j: int| 0 <= j < t.len() implies t[j] != 'e' && t[j] != 'E' by {
        if j < whole.len() {
            assert(t[j] == whole[j] && is_digit(whole[j]));
        } else if j > whole.len() {
            assert(t[j] == frac[j - whole.len() - 1] && is_digit(frac[j - whole.len() - 1]));
        }
    }
    crate::number::lemma_exponent_index(t, t.len() as int);
    assert(t.take(t.len() as int) =~= t);
    assert forall|j: int| 0 <= j < whole.len() implies t[j] != '.' by {
        assert(t[j] == whole[j] && is_digit(whole[j]));
    }
    crate::number::lemma_first_index_of(t, '.', whole.len() as int);
    assert(t.take(whole.len() as int) =~= whole);
    assert(t.skip(whole.len() + 1int) =~= frac);
}

proof fn lemma_pow10_values()
    ensures
        crate::text::pow10(14) == 100_000_000_000_000,
        crate::text::pow10(17) == 100_000_000_000_000_000,
        crate::text::pow10(38) == 100_000_000_000_000_000_000_000_000_000_000_000_000,
{
    reveal_with_fuel(crate::text::pow10, 39);
}

proof fn lemma_digit_runs()
    ensures
        digits_value(seq!['0', '0']) == 0,
        digits_value(seq!['1', '0']) == 10,
        digits_value(seq!['0', '0', '0', '0', '1']) == 1,
        digits_value(seq!['1', '0', '0', '0', '1']) == 10001,
        all_digits(seq!['0']),
        all_digits(seq!['1']),
        all_digits(seq!['0', '0', '0', '1']),
{
    reveal_with_fuel(digits_value, 6);
    assert(seq!['0', '0'].drop_last() =~= seq!['0']);
    assert(seq!['0'].drop_last() =~= Seq::<char>::empty());
    assert(seq!['1', '0'].drop_last() =~= seq!['1']);
    assert(seq!['1'].drop_last() =~= Seq::<char>::empty());
    assert(seq!['0', '0', '0', '0', '1'].drop_last() =~= seq!['0', '0', '0', '0']);
    assert(seq!['0', '0', '0', '0'].drop_last() =~= seq!['0', '0', '0']);
    assert(seq!['0', '0', '0'].drop_last() =~= seq!['0', '0']);
    assert(seq!['1', '0', '0', '0', '1'].drop_last() =~= seq!['1', '0', '0', '0']);
    assert(seq!['1', '0', '0', '0'].drop_last() =~= seq!['1', '0', '0']);
    assert(seq!['1', '0', '0'].drop_last() =~= seq!['1', '0']);
}

proof fn lemma_reads_zero()
    ensures
        decimal_of("0.0"@) == Some(Decimal { units: 0 }),
{
    reveal_strlit("0.0");
    lemma_digit_runs();
    lemma_pow10_values();
    lemma_point_token(seq!['0'], seq!['0']);
    assert("0.0"@ =~= seq!['0'] + seq!['.'] + seq!['0']);
    assert(seq!['0'] + seq!['0'] =~= seq!['0', '0']);
    assert(0nat * crate::text::pow10(17) == 0);
}

proof fn lemma_reads_one()
    ensures
        decimal_of("1.0"@) == Some(Decimal { units: ONE }),
{
    reveal_strlit("1.0");
    lemma_digit_runs();
    lemma_pow10_values();
    lemma_point_token(seq!['1'], seq!['0']);
    assert("1.0"@ =~= seq!['1'] + seq!['.'] + seq!['0']);
    assert(seq!['1'] + seq!['0'] =~= seq!['1', '0']);
}

proof fn lemma_reads_below_zero()
    ensures
        decimal_of("-0.0001"@) == Some(Decimal { units: -100_000_000_000_000i128 }),
{
    reveal_strlit("-0.0001");
    lemma_digit_runs();
    lemma_pow10_values();
    let small = seq!['0'] + seq!['.'] + seq!['0', '0', '0', '1'];
    lemma_point_token(seq!['0'], seq!['0', '0', '0', '1']);
    assert("-0.0001"@ =~= seq!['-'] + small);
    assert(("-0.0001"@).drop_first() =~= small);
    assert(seq!['0'] + seq!['0', '0', '0', '1'] =~= seq!['0', '0', '0', '0', '1']);
    assert(decimal_parts("-0.0001"@) == Some((true, 1nat, -4int)));
    assert(1nat * crate::text::pow10(14) == 100_000_000_000_000);
    assert(crate::number::rounded_units(1, -4) == 100_000_000_000_000);
}

proof fn lemma_reads_above_one()
    ensures
        decimal_of("1.0001"@) == Some(Decimal { units: 1_000_100_000_000_000_000 }),
{
    reveal_strlit("1.0001");
    lemma_digit_runs();
    lemma_pow10_values();
    lemma_point_token(seq!['1'], seq!['0', '0', '0', '1']);
    assert("1.0001"@ =~= seq!['1'] + seq!['.'] + seq!['0', '0', '0', '1']);
    assert(seq!['1'] + seq!['0', '0', '0', '1'] =~= seq!['1', '0', '0', '0', '1']);
}

/// The ends of the unit interval are coordinates and the numbers just outside
/// them are not: `0.0` and `1.0` read as 0 and 1, while `-0.0001` and
/// `1.0001` read as numbers outside [0, 1].
pub proof fn law_unit_interval_bounds()
    ensures
        decimal_of("0.0"@) matches Some(d) && unit_value(d) && d.units == 0,
        decimal_of("1.0"@) matches Some(d) && unit_value(d) && d.units == ONE,
        decimal_of("-0.0001"@) matches Some(d) && !unit_value(d),
        decimal_of("1.0001"@) matches Some(d) && !unit_value(d),
{
    lemma_reads_zero();
    lemma_reads_one();
    lemma_reads_below_zero();
    lemma_reads_above_one();
}

} // verus!
