//! Extraction of the text strings of a packed script container (PSB), in the
//! order in which its bytecode refers to them.
pub mod error;
pub mod bytes;
pub mod walker;
pub mod reconcile;
pub mod container;
pub mod str_man;
pub mod analyzer;

pub use analyzer::PSBAnalyzer;
pub use container::PackageStatus;
pub use error::PsbError;
pub use str_man::PSBStrMan;
