//! Phone specification pipeline: text utilities, the specification data model,
//! page parsers for vendor sites, slugs, Markdown rendering and the planning
//! logic of the upload, ingest, cleanup and transcription tools.

pub mod text;
pub mod rawmap;
pub mod specs;
pub mod slug;
pub mod camera;
pub mod html;
pub mod sites;
pub mod oppo;
pub mod xiaomi;
pub mod samsung;
pub mod scrub;
pub mod markdown;
pub mod bucket;
pub mod transcribe;
pub mod ingest;
pub mod cleaner;
pub mod optimizer;
