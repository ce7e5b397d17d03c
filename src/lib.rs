//! A store of weekly question records, partitioned by user and week.
//!
//! The library decides everything about the store that does not touch the
//! disk: which records a write may carry, where a partition lives, the text a
//! partition file holds, which directory entries are partitions, and how the
//! results of reading the tree are put together. The program around it does
//! the reading and writing and hands the library what it found.
mod codec;
mod db;
mod error;
pub mod laws;
mod question;
mod week;

pub use codec::{encode_questions, frame_partition, frame_question};
pub use db::{Listed, Partition, PartitionWrite, QuestionDB, Walked};
pub use error::DQError;
pub use question::{Question, QuestionView};
pub use week::{parse_week, week_name};
