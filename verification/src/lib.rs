//! Verified core of a screenshot archive: text formatting, timeline export,
//! scheduling decisions and storage helpers.

pub mod capture;
pub mod commands;
pub mod schedule;
pub mod storage;
pub mod template;
pub mod text;
pub mod timeline;
