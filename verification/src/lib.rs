//! Reporting logic of ribbot: reading GitHub pagination headers, choosing which pull
//! requests and issues fall in a reporting window, counting them per repository and
//! rendering the markdown summary of a project.

pub mod text;
pub mod link;
pub mod api;
pub mod dates;
pub mod activity;
pub mod project;
pub mod stats;
pub mod pulls;
pub mod report;
