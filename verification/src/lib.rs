//! Arranges a flat archive of downloaded videos into a show / season / episode
//! tree: a catalogue of video records is grouped by channel, each channel is
//! split into seasons by year of upload, and every season is laid out as a list
//! of directory and link operations for the caller to carry out.

pub mod catalogue;
pub mod date;
pub mod error;
pub mod ordering;
pub mod partition;
pub mod projector;
pub mod record;
pub mod seasons;
pub mod seqs;
pub mod text;
