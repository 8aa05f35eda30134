//! Time reports over Jira worklogs: the rules that turn fetched issues and
//! worklogs into the four tabs of the report, the Jira request and paging
//! decisions, the date handling, and the life cycle of a report job.

pub mod text;
pub mod date;
pub mod jira;
pub mod report;
pub mod hierarchy;
pub mod job;
