//! A collaborative bilingual (Hebrew / Russian) glossary of technical terms,
//! with change tracking, versioned snapshots, advisory edit locks, activity
//! tracking and a review workflow, plus the small language utilities around it.

pub mod text;
pub mod strings;
pub mod clock;
pub mod error;
pub mod dictionary;
pub mod versions;
pub mod collaboration;
pub mod knowledge;
pub mod morphology;
pub mod vocabulary;
pub mod standards;
pub mod fonts;
pub mod learning;
pub mod files;
pub mod metadata;
pub mod technical_terms;
pub mod security;
