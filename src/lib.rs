//! Preparation of object-detection datasets whose labels follow the YOLO
//! convention: label files are validated line by line, images and labels are
//! matched by file stem, and duplicate or conflicting pairs are reported.
//!
//! Coordinates and tolerances are decimals held to 18 fraction digits
//! ([`Decimal`]), read from decimal notation with an optional exponent; file system
//! access stays with the caller, who hands in what the file index found and
//! what reading each label file gave.
pub mod cli;
pub mod config;
pub mod export;
pub mod files;
pub mod label;
pub mod number;
pub mod pairing;
pub mod project;
pub mod report;
pub mod text;
pub mod types;

pub use cli::{Cli, CliError, Format};
pub use config::{ClassMap, Export, Paths, SourcePaths, Split, YoloProjectConfig};
pub use export::{CopyPlan, ExportError, YoloProjectExporter};
pub use files::{
    get_file_extension, get_file_stem, get_filepath_as_string, index_entry, FileError,
    PathWithKey,
};
pub use label::{
    FileMetadata, YoloClass, YoloEntry, YoloFile, YoloFileParseError, YoloFileParseErrorDetails,
};
pub use number::Decimal;
pub use pairing::pair;
pub use project::{YoloProject, YoloProjectData};
pub use report::{DataQualityItem, YoloDataQualityReport};
pub use types::{
    DuplicateImageLabelPair, ImageLabelPair, LabelCandidate, PairingError, PairingResult,
};
