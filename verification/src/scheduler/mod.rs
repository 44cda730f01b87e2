//! Background work: statistics, their relay between instances, replay of the
//! workload, and schema jobs.

pub mod batch;
pub mod collector;
pub mod corpus;
pub mod evaluation;
pub mod evidence;
pub mod histogram;
pub mod identity;
pub mod job_map;
pub mod learning;
pub mod model;
pub mod physical;
pub mod planner;
pub mod plans;
pub mod records;
pub mod registry;
pub mod relay;
pub mod replay;
pub mod retention;
pub mod runner;
pub mod schema_jobs;
pub mod scoring;
pub mod sketches;
pub mod sorting;
pub mod storage;
pub mod synopsis;
