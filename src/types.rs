//! What the pairing engine hands out: pairs, pairing errors and outcomes.
use vstd::prelude::*;
use crate::files::PathWithKey;
use crate::label::{FileView, ParseErrorView, YoloFile, YoloFileParseError};

verus! {

/// An image and label pair discovered in the project.
#[derive(Debug, Clone, PartialEq)]
pub struct ImageLabelPair {
    /// File stem shared by the image and label.
    pub name: String,
    /// Path to the image file if it exists.
    pub image_path: Option<String>,
    /// Parsed label file if it exists.
    pub label_file: Option<YoloFile>,
}

pub struct PairView {
    pub name: Seq<char>,
    pub image_path: Option<Seq<char>>,
    pub label_file: Option<FileView>,
}

impl View for ImageLabelPair {
    type V = PairView;

    open spec fn view(&self) -> PairView {
        PairView {
            name: self.name@,
            image_path: match self.image_path {
                Some(p) => Some(p@),
                None => None,
            },
            label_file: match self.label_file {
                Some(f) => Some(f@),
                None => None,
            },
        }
    }
}

/// Used when several files with the same stem are found.
#[derive(Debug, Clone, PartialEq)]
pub struct DuplicateImageLabelPair {
    /// The shared file stem.
    pub name: String,
    /// First pair for the stem, in path order.
    pub primary: ImageLabelPair,
    /// Additional pair for the same stem.
    pub duplicate: ImageLabelPair,
}

pub struct DuplicateView {
    pub name: Seq<char>,
    pub primary: PairView,
    pub duplicate: PairView,
}

impl View for DuplicateImageLabelPair {
    type V = DuplicateView;

    open spec fn view(&self) -> DuplicateView {
        DuplicateView { name: self.name@, primary: self.primary@, duplicate: self.duplicate@ }
    }
}

/// Reasons why a stem could not be paired.
#[derive(Debug, Clone, PartialEq)]
pub enum PairingError {
    LabelFileError(YoloFileParseError),
    BothFilesMissing,
    LabelFileMissing(String),
    LabelFileMissingUnableToUnwrapImagePath,
    ImageFileMissing(String),
    ImageFileMissingUnableToUnwrapLabelPath,
    Duplicate(DuplicateImageLabelPair),
    DuplicateLabelMismatch(DuplicateImageLabelPair),
}

pub enum PairingErrorView {
    LabelFileError(ParseErrorView),
    BothFilesMissing,
    LabelFileMissing(Seq<char>),
    LabelFileMissingUnableToUnwrapImagePath,
    ImageFileMissing(Seq<char>),
    ImageFileMissingUnableToUnwrapLabelPath,
    Duplicate(DuplicateView),
    DuplicateLabelMismatch(DuplicateView),
}

impl View for PairingError {
    type V = PairingErrorView;

    open spec fn view(&self) -> PairingErrorView {
        match self {
            PairingError::LabelFileError(e) => PairingErrorView::LabelFileError(e@),
            PairingError::BothFilesMissing => PairingErrorView::BothFilesMissing,
            PairingError::LabelFileMissing(p) => PairingErrorView::LabelFileMissing(p@),
            PairingError::LabelFileMissingUnableToUnwrapImagePath => {
                PairingErrorView::LabelFileMissingUnableToUnwrapImagePath
            },
            PairingError::ImageFileMissing(p) => PairingErrorView::ImageFileMissing(p@),
            PairingError::ImageFileMissingUnableToUnwrapLabelPath => {
                PairingErrorView::ImageFileMissingUnableToUnwrapLabelPath
            },
            PairingError::Duplicate(d) => PairingErrorView::Duplicate(d@),
            PairingError::DuplicateLabelMismatch(d) => PairingErrorView::DuplicateLabelMismatch(d@),
        }
    }
}

/// Result of attempting to pair an image and label file.
#[derive(Debug, Clone, PartialEq)]
pub enum PairingResult {
    Valid(ImageLabelPair),
    Invalid(PairingError),
}

pub enum ResultView {
    Valid(PairView),
    Invalid(PairingErrorView),
}

impl View for PairingResult {
    type V = ResultView;

    open spec fn view(&self) -> ResultView {
        match self {
            PairingResult::Valid(p) => ResultView::Valid(p@),
            PairingResult::Invalid(e) => ResultView::Invalid(e@),
        }
    }
}

pub open spec fn results_view(s: Seq<PairingResult>) -> Seq<ResultView> {
    s.map_values(|r: PairingResult| r@)
}

/// A label file found by the index, with what reading it gave: its text, or
/// nothing where it could not be read.
#[derive(Debug, Clone, PartialEq)]
pub struct LabelCandidate {
    pub file: PathWithKey,
    pub content: Option<String>,
}

impl ImageLabelPair {
    /// A copy of this pair.
    pub fn copy(&self) -> (r: ImageLabelPair)
        ensures
            r@ == self@,
    {
        ImageLabelPair {
            name: self.name.clone(),
            image_path: match &self.image_path {
                Some(p) => Some(p.clone()),
                None => None,
            },
            label_file: match &self.label_file {
                Some(f) => Some(f.copy()),
                None => None,
            },
        }
    }
}

impl DuplicateImageLabelPair {
    /// A copy of this duplicate.
    pub fn copy(&self) -> (r: DuplicateImageLabelPair)
        ensures
            r@ == self@,
    {
        DuplicateImageLabelPair {
            name: self.name.clone(),
            primary: self.primary.copy(),
            duplicate: self.duplicate.copy(),
        }
    }
}

impl PairingError {
    /// A copy of this error.
    pub fn copy(&self) -> (r: PairingError)
        ensures
            r@ == self@,
    {
        match self {
            PairingError::LabelFileError(e) => PairingError::LabelFileError(e.copy()),
            PairingError::BothFilesMissing => PairingError::BothFilesMissing,
            PairingError::LabelFileMissing(p) => PairingError::LabelFileMissing(p.clone()),
            PairingError::LabelFileMissingUnableToUnwrapImagePath => {
                PairingError::LabelFileMissingUnableToUnwrapImagePath
            },
            PairingError::ImageFileMissing(p) => PairingError::ImageFileMissing(p.clone()),
            PairingError::ImageFileMissingUnableToUnwrapLabelPath => {
                PairingError::ImageFileMissingUnableToUnwrapLabelPath
            },
            PairingError::Duplicate(d) => PairingError::Duplicate(d.copy()),
            PairingError::DuplicateLabelMismatch(d) => PairingError::DuplicateLabelMismatch(d.copy()),
        }
    }
}

} // verus!
