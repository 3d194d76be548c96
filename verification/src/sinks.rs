//! Nodes at the end of a graph.

pub mod text_file_writer;
pub mod tgck_laws;
pub mod tgck_recorder;
