//! Slow-pattern diagnostics, PHP detection and scan profiling for a YARA
//! compiler and scanner.
//!
//! * [`hir_analysis`] finds the parts of a pattern that hurt atom extraction
//!   ([`culprit`]), in what [`hir`] reads of the pattern.
//! * [`diagnostics`] decides from its atoms whether a pattern is slow, and
//!   keeps the records.
//! * [`report`] and [`json_report`] turn the records into a report, with the
//!   help of [`text`], [`paint`] and [`json`].
//! * [`php`] detects PHP code in scanned data.
//! * [`profiling`] keeps the inputs that took longest to scan.
//!
//! The modules whose names end in `_laws` state what holds of these as a
//! whole.

pub mod culprit;
pub mod culprit_laws;
pub mod diagnostics;
pub mod diagnostics_laws;
pub mod finding_laws;
pub mod hir;
pub mod hir_analysis;
pub mod json;
pub mod json_report;
pub mod layout_laws;
pub mod paint;
pub mod php;
pub mod php_laws;
pub mod profiling;
pub mod profiling_laws;
pub mod report;
pub mod report_laws;
pub mod text;
pub mod text_laws;
pub mod view_laws;
pub mod wording_laws;
