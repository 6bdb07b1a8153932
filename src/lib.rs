//! A bounded hackathon: producers emit ideas and packages, students assemble
//! them, and order-independent checksums tell whether every item produced was
//! consumed exactly once.
pub mod checksum;
pub mod distribution;
pub mod event;
pub mod idea;
pub mod package;
pub mod run;
pub mod student;

pub use event::Event;
