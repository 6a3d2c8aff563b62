//! Requirement-to-code traceability.
//!
//! The crate extracts rule *definitions* from specification documents and
//! rule *references* from source-code comments, and cross-references the
//! two into a coverage report. A small engine keeps such a report up to
//! date, versioned, over an in-memory overlay of unsaved editor buffers.

pub mod config;
pub mod coverage;
pub mod engine;
pub mod laws;
pub mod lexer;
pub mod manifest;
pub mod overlay;
pub mod pass_model;
pub mod rule_id;
pub mod scan_model;
pub mod scanner;
pub mod spec_doc;
pub mod spec_doc_model;
pub mod strutil;
pub mod utf8_span;
pub mod verb;

pub use config::{Config, SpecConfig};
pub use coverage::CoverageReport;
pub use engine::{ConfigOutcome, DashboardData, EngineState, SpecJob, SpecResult};
pub use lexer::{Extraction, ParseWarning, RuleReference, WarningKind, extract_rule_references,
    extract_with_warnings};
pub use manifest::{ManifestRule, RuleInfo, SpecManifest};
pub use overlay::{Doc, FileOverlay};
pub use spec_doc::{RuleDefinition, RuleMetadata, SpecError, parse_spec_document};
pub use verb::RefVerb;
