//! Data-quality reporting: what each pairing error is called and how it reads.
use vstd::prelude::*;
use crate::label::{ParseErrorView, YoloFileParseError};
use crate::number::{Decimal, ONE};
use crate::project::{errors_of, YoloProject};
use crate::text::{digit_char, int_string, nat_text, string_of, text};
use crate::types::{results_view, PairingError, PairingErrorView, PairingResult};

verus! {

/// Entry describing a single data quality issue.
#[derive(Clone, PartialEq, Debug)]
pub struct DataQualityItem {
    /// Source of the issue (error type).
    pub source: String,
    /// Human readable error message.
    pub message: String,
    /// Structured data backing the error.
    pub data: PairingError,
}

/// Turns pairing results into data-quality items.
pub struct YoloDataQualityReport;

/// The `n` lowest decimal digits of `f`, zero-padded.
pub open spec fn padded_digits(f: nat, n: nat) -> Seq<char>
    decreases n,
{
    if n == 0 {
        Seq::empty()
    } else {
        padded_digits(f / 10, (n - 1) as nat).push(digit_char(f % 10))
    }
}

/// `s` without its trailing zeros.
pub open spec fn trim_zeros(s: Seq<char>) -> Seq<char>
    decreases s.len(),
{
    if s.len() > 0 && s.last() == '0' {
        trim_zeros(s.drop_last())
    } else {
        s
    }
}

/// A decimal written out: sign, whole part, and the fraction digits after a
/// point when there are any.
pub open spec fn decimal_text(d: Decimal) -> Seq<char> {
    let m = if d.units < 0 { -d.units } else { d.units as int };
    let whole = nat_text((m / ONE as int) as nat);
    let frac = trim_zeros(padded_digits((m % ONE as int) as nat, 18));
    let sign = if d.units < 0 { seq!['-'] } else { Seq::empty() };
    if frac.len() == 0 {
        sign + whole
    } else {
        sign + whole + seq!['.'] + frac
    }
}

pub open spec fn opt_text(o: Option<Seq<char>>) -> Seq<char> {
    match o {
        Some(s) => s,
        None => Seq::empty(),
    }
}

pub open spec fn opt_count_text(o: Option<usize>) -> Seq<char> {
    match o {
        Some(n) => nat_text(n as nat),
        None => Seq::empty(),
    }
}

pub open spec fn opt_decimal_text(o: Option<Decimal>) -> Seq<char> {
    match o {
        Some(d) => decimal_text(d),
        None => Seq::empty(),
    }
}

/// How a label file error reads.
pub open spec fn parse_error_message(e: ParseErrorView) -> Seq<char> {
    match e {
        ParseErrorView::InvalidFormat(d) => "Invalid format for file '"@ + d.path + "'"@,
        ParseErrorView::EmptyFile(d) => "File '"@ + d.path + "' is empty"@,
        ParseErrorView::DuplicateEntries(d) => "Duplicate entries found in file '"@ + d.path
            + "' on row "@ + opt_count_text(d.row) + " and row "@ + opt_count_text(d.other_row),
        ParseErrorView::FailedToParseClassId(d) => "Unable to parse value '"@ + opt_text(d.class)
            + "' in file '"@ + d.path + "' on line "@ + opt_count_text(d.row),
        ParseErrorView::ClassIdNotFound(d) => "Invalid class id '"@ + opt_text(d.class)
            + "' in file '"@ + d.path + "'"@,
        ParseErrorView::LabelDataOutOfRange(d) => "Invalid data value for '"@ + opt_text(d.column)
            + "' in file '"@ + d.path + "' on line "@ + opt_count_text(d.row) + ".  Value is '"@
            + opt_decimal_text(d.value) + "'"@,
        ParseErrorView::FailedToParseColumn(d) => "Failed to parse '"@ + opt_text(d.column)
            + "' column with value of '"@ + opt_text(d.class) + "' on line "@ + opt_count_text(
            d.row,
        ) + " in file '"@ + d.path + "'"@,
        ParseErrorView::FailedToGetFileStem(d) => "Failed to get file stem for file '"@ + d.path
            + "'"@,
        ParseErrorView::FailedToReadFile(d) => "Failed to read file '"@ + d.path + "'"@,
    }
}

/// How a pairing error reads.
pub open spec fn pairing_error_message(e: PairingErrorView) -> Seq<char> {
    match e {
        PairingErrorView::LabelFileError(p) => "Label file error: "@ + parse_error_message(p),
        PairingErrorView::BothFilesMissing => "Both files missing"@,
        PairingErrorView::LabelFileMissing(p) => "Label file missing: "@ + p,
        PairingErrorView::LabelFileMissingUnableToUnwrapImagePath => {
            "Label file missing; unable to unwrap image path"@
        },
        PairingErrorView::ImageFileMissing(p) => "Image file missing: "@ + p,
        PairingErrorView::ImageFileMissingUnableToUnwrapLabelPath => {
            "Image file missing; unable to unwrap label path"@
        },
        PairingErrorView::Duplicate(d) => "Duplicate image and label files for '"@ + d.name
            + "'"@,
        PairingErrorView::DuplicateLabelMismatch(_) => "Duplicate image with differing label files"@,
    }
}

/// The name under which a report lists a pairing error.
pub open spec fn source_name(e: PairingErrorView) -> Seq<char> {
    match e {
        PairingErrorView::LabelFileError(p) => match p {
            ParseErrorView::InvalidFormat(_) => "YoloFileParseError::InvalidFormat"@,
            ParseErrorView::EmptyFile(_) => "YoloFileParseError::EmptyFile"@,
            ParseErrorView::DuplicateEntries(_) => "YoloFileParseError::DuplicateEntries"@,
            ParseErrorView::FailedToParseClassId(_) => "YoloFileParseError::FailedToParseClassId"@,
            ParseErrorView::ClassIdNotFound(_) => "YoloFileParseError::ClassIdNotFound"@,
            ParseErrorView::LabelDataOutOfRange(_) => "YoloFileParseError::LabelDataOutOfRange"@,
            ParseErrorView::FailedToParseColumn(_) => "YoloFileParseError::FailedToParseColumn"@,
            ParseErrorView::FailedToGetFileStem(_) => "YoloFileParseError::FailedToGetFileStem"@,
            ParseErrorView::FailedToReadFile(_) => "YoloFileParseError::FailedToReadFile"@,
        },
        PairingErrorView::BothFilesMissing => "BothFilesMissing"@,
        PairingErrorView::LabelFileMissing(_) => "LabelFileMissing"@,
        PairingErrorView::LabelFileMissingUnableToUnwrapImagePath => {
            "LabelFileMissingUnableToUnwrapImagePath"@
        },
        PairingErrorView::ImageFileMissing(_) => "ImageFileMissing"@,
        PairingErrorView::ImageFileMissingUnableToUnwrapLabelPath => {
            "ImageFileMissingUnableToUnwrapLabelPath"@
        },
        PairingErrorView::Duplicate(_) => "DuplicateImageLabelPair"@,
        PairingErrorView::DuplicateLabelMismatch(_) => "DuplicateImageLabelMismatch"@,
    }
}

fn push_padded(f: u128, n: usize, out: &mut Vec<char>)
    ensures
        final(out)@ == old(out)@ + padded_digits(f as nat, n as nat),
    decreases n,
{
    if n > 0 {
        push_padded(f / 10, n - 1, out);
        let digits: [char; 10] = ['0', '1', '2', '3', '4', '5', '6', '7', '8', '9'];
        assert(digits@ =~= seq!['0', '1', '2', '3', '4', '5', '6', '7', '8', '9']);
        out.push(digits[(f % 10) as usize]);
        assert(final(out)@ =~= old(out)@ + padded_digits(f as nat, n as nat));
    } else {
        assert(final(out)@ =~= old(out)@ + padded_digits(f as nat, n as nat));
    }
}

impl Decimal {
    /// The number written out in decimal, without trailing zeros.
    pub fn to_text(&self) -> (r: String)
        ensures
            r@ == decimal_text(*self),
    {
        let m: u128 = if self.units < 0 {
            (-(self.units + 1)) as u128 + 1
        } else {
            self.units as u128
        };
        let whole = int_string((m / (ONE as u128)) as i128);
        let mut digits: Vec<char> = Vec::new();
        push_padded(m % (ONE as u128), 18, &mut digits);
        assert(digits@ =~= padded_digits((m % (ONE as u128)) as nat, 18));
        while digits.len() > 0 && digits[digits.len() - 1] == '0'
            invariant
                trim_zeros(digits@) == trim_zeros(padded_digits((m % (ONE as u128)) as nat, 18)),
            decreases digits@.len(),
        {
            digits.pop();
        }
        let mut out = if self.units < 0 {
            text("-")
        } else {
            text("")
        };
        proof {
            reveal_strlit("-");
            reveal_strlit("");
        }
        out.append(whole.as_str());
        if digits.len() > 0 {
            out.append(".");
            out.append(string_of(&digits).as_str());
            proof {
                reveal_strlit(".");
            }
        }
        out
    }
}

fn count_text(o: Option<usize>) -> (r: String)
    ensures
        r@ == opt_count_text(o),
{
    proof {
        reveal_strlit("");
    }
    match o {
        Some(n) => int_string(n as i128),
        None => text(""),
    }
}

fn some_text(o: &Option<String>) -> (r: String)
    ensures
        r@ == opt_text(crate::label::opt_view(*o)),
{
    proof {
        reveal_strlit("");
    }
    match o {
        Some(s) => s.clone(),
        None => text(""),
    }
}

fn value_text(o: Option<Decimal>) -> (r: String)
    ensures
        r@ == opt_decimal_text(o),
{
    proof {
        reveal_strlit("");
    }
    match o {
        Some(d) => d.to_text(),
        None => text(""),
    }
}

impl YoloFileParseError {
    /// How this error reads.
    pub fn message(&self) -> (r: String)
        ensures
            r@ == parse_error_message(self@),
    {
        match self {
            YoloFileParseError::InvalidFormat(d) => {
                let mut s = text("Invalid format for file '");
                s.append(d.path.as_str());
                s.append("'");
                s
            },
            YoloFileParseError::EmptyFile(d) => {
                let mut s = text("File '");
                s.append(d.path.as_str());
                s.append("' is empty");
                s
            },
            YoloFileParseError::DuplicateEntries(d) => {
                let mut s = text("Duplicate entries found in file '");
                s.append(d.path.as_str());
                s.append("' on row ");
                s.append(count_text(d.row).as_str());
                s.append(" and row ");
                s.append(count_text(d.other_row).as_str());
                s
            },
            YoloFileParseError::FailedToParseClassId(d) => {
                let mut s = text("Unable to parse value '");
                s.append(some_text(&d.class).as_str());
                s.append("' in file '");
                s.append(d.path.as_str());
                s.append("' on line ");
                s.append(count_text(d.row).as_str());
                s
            },
            YoloFileParseError::ClassIdNotFound(d) => {
                let mut s = text("Invalid class id '");
                s.append(some_text(&d.class).as_str());
                s.append("' in file '");
                s.append(d.path.as_str());
                s.append("'");
                s
            },
            YoloFileParseError::LabelDataOutOfRange(d) => {
                let mut s = text("Invalid data value for '");
                s.append(some_text(&d.column).as_str());
                s.append("' in file '");
                s.append(d.path.as_str());
                s.append("' on line ");
                s.append(count_text(d.row).as_str());
                s.append(".  Value is '");
                s.append(value_text(d.value).as_str());
                s.append("'");
                s
            },
            YoloFileParseError::FailedToParseColumn(d) => {
                let mut s = text("Failed to parse '");
                s.append(some_text(&d.column).as_str());
                s.append("' column with value of '");
                s.append(some_text(&d.class).as_str());
                s.append("' on line ");
                s.append(count_text(d.row).as_str());
                s.append(" in file '");
                s.append(d.path.as_str());
                s.append("'");
                s
            },
            YoloFileParseError::FailedToGetFileStem(d) => {
                let mut s = text("Failed to get file stem for file '");
                s.append(d.path.as_str());
                s.append("'");
                s
            },
            YoloFileParseError::FailedToReadFile(d) => {
                let mut s = text("Failed to read file '");
                s.append(d.path.as_str());
                s.append("'");
                s
            },
        }
    }
}

impl PairingError {
    /// How this error reads.
    pub fn message(&self) -> (r: String)
        ensures
            r@ == pairing_error_message(self@),
    {
        match self {
            PairingError::LabelFileError(e) => {
                let mut s = text("Label file error: ");
                s.append(e.message().as_str());
                s
            },
            PairingError::BothFilesMissing => text("Both files missing"),
            PairingError::LabelFileMissing(p) => {
                let mut s = text("Label file missing: ");
                s.append(p.as_str());
                s
            },
            PairingError::LabelFileMissingUnableToUnwrapImagePath => text(
                "Label file missing; unable to unwrap image path",
            ),
            PairingError::ImageFileMissing(p) => {
                let mut s = text("Image file missing: ");
                s.append(p.as_str());
                s
            },
            PairingError::ImageFileMissingUnableToUnwrapLabelPath => text(
                "Image file missing; unable to unwrap label path",
            ),
            PairingError::Duplicate(d) => {
                let mut s = text("Duplicate image and label files for '");
                s.append(d.name.as_str());
                s.append("'");
                s
            },
            PairingError::DuplicateLabelMismatch(_) => text(
                "Duplicate image with differing label files",
            ),
        }
    }
}

impl YoloDataQualityReport {
    /// The name under which a report lists a pairing error.
    pub fn get_source_name(pairing_error: &PairingError) -> (r: String)
        ensures
            r@ == source_name(pairing_error@),
    {
        match pairing_error {
            PairingError::LabelFileError(e) => match e {
                YoloFileParseError::InvalidFormat(_) => text("YoloFileParseError::InvalidFormat"),
                YoloFileParseError::EmptyFile(_) => text("YoloFileParseError::EmptyFile"),
                YoloFileParseError::DuplicateEntries(_) => text(
                    "YoloFileParseError::DuplicateEntries",
                ),
                YoloFileParseError::FailedToParseClassId(_) => text(
                    "YoloFileParseError::FailedToParseClassId",
                ),
                YoloFileParseError::ClassIdNotFound(_) => text(
                    "YoloFileParseError::ClassIdNotFound",
                ),
                YoloFileParseError::LabelDataOutOfRange(_) => text(
                    "YoloFileParseError::LabelDataOutOfRange",
                ),
                YoloFileParseError::FailedToParseColumn(_) => text(
                    "YoloFileParseError::FailedToParseColumn",
                ),
                YoloFileParseError::FailedToGetFileStem(_) => text(
                    "YoloFileParseError::FailedToGetFileStem",
                ),
                YoloFileParseError::FailedToReadFile(_) => text(
                    "YoloFileParseError::FailedToReadFile",
                ),
            },
            PairingError::BothFilesMissing => text("BothFilesMissing"),
            PairingError::LabelFileMissing(_) => text("LabelFileMissing"),
            PairingError::LabelFileMissingUnableToUnwrapImagePath => text(
                "LabelFileMissingUnableToUnwrapImagePath",
            ),
            PairingError::ImageFileMissing(_) => text("ImageFileMissing"),
            PairingError::ImageFileMissingUnableToUnwrapLabelPath => text(
                "ImageFileMissingUnableToUnwrapLabelPath",
            ),
            PairingError::Duplicate(_) => text("DuplicateImageLabelPair"),
            PairingError::DuplicateLabelMismatch(_) => text("DuplicateImageLabelMismatch"),
        }
    }

    /// One item for each error of the project, in order.
    pub fn collect_items(project: &YoloProject) -> (r: Vec<DataQualityItem>)
        ensures
            ({
                let errs = errors_of(results_view(project.data.pairs@));
                &&& r@.len() == errs.len()
                &&& forall|i: int|
                    0 <= i < errs.len() ==> {
                        &&& (#[trigger] r@[i]).source@ == source_name(errs[i])
                        &&& r@[i].message@ == pairing_error_message(errs[i])
                        &&& r@[i].data@ == errs[i]
                    }
            }),
    {
        let ghost all = results_view(project.data.pairs@);
        let mut items: Vec<DataQualityItem> = Vec::new();
        for i in 0..project.data.pairs.len()
            invariant
                all == results_view(project.data.pairs@),
                items@.len() == errors_of(all.take(i as int)).len(),
                forall|k: int|
                    0 <= k < items@.len() ==> {
                        &&& (#[trigger] items@[k]).source@ == source_name(
                            errors_of(all.take(i as int))[k],
                        )
                        &&& items@[k].message@ == pairing_error_message(
                            errors_of(all.take(i as int))[k],
                        )
                        &&& items@[k].data@ == errors_of(all.take(i as int))[k]
                    },
        {
            assert(all.take(i + 1).drop_last() =~= all.take(i as int));
            if let PairingResult::Invalid(e) = &project.data.pairs[i] {
                let item = DataQualityItem {
                    source: YoloDataQualityReport::get_source_name(e),
                    message: e.message(),
                    data: e.copy(),
                };
                items.push(item);
            }
        }
        assert(all.take(project.data.pairs@.len() as int) =~= all);
        items
    }
}

} // verus!
