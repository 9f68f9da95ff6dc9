//! Build pipeline for a static comic anthology site: it turns a declared
//! anthology (title, standalone pages, comics with image folders) into an
//! ordered plan of copies and renders, and keeps the diagnostics of a run.
pub mod discovery;
pub mod log;
pub mod model;
pub mod paths;
pub mod plan;
pub mod publish;
pub mod text;
