pub mod report;
pub mod scan;
pub mod orphans;
pub mod activity;
pub mod trend;
pub mod search;
pub mod list;
pub mod export;
pub mod deps;
pub mod inspect;
