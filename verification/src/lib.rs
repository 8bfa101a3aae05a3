//! Reading and writing the files of the legacy MarkBook gradebook, and the
//! pure rules of the gradebook's request handlers.
pub mod text;
pub mod assoc;
pub mod num;
pub mod csv;
pub mod lines;
pub mod legacy;
pub mod bnk;
pub mod marks;
pub mod ipc;
pub mod keys;
pub mod integrations;
pub mod seating;
pub mod setup;
pub mod students;
pub mod params;
pub mod folder;
pub mod exchange;
pub mod planner;
pub mod course;
pub mod merge;
pub mod pairing;
pub mod marksets;
pub mod reorder;
pub mod lessons;
pub mod package;
