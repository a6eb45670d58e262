//! Decision engine for trimming and re-encoding Matroska files in bulk:
//! which tracks of a probed file are kept, whether its video is re-encoded,
//! the encoder's argument list, and the bookkeeping of one encode and of a
//! whole batch.

pub mod args;
pub mod command;
pub mod cruncher;
pub mod executor;
pub mod ffprobe;
pub mod finalize;
pub mod plan;
pub mod policy;
pub mod select;
pub mod seqs;
pub mod text;
