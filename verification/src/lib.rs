pub mod aggregate;
pub mod digits;
pub mod extract;
pub mod json;
pub mod query;
pub mod report;
