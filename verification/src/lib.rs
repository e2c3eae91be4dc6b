//! A matrix transposition service: typed square matrices are reserved under a
//! memory admission rule, filled, transposed in place by a group of workers
//! that share the cell pairs between them, and handed out exactly once.

pub mod clock;
pub mod connection;
pub mod grid;
pub mod job;
pub mod matrix_text;
pub mod matrix_type;
pub mod memory;
pub mod request;
pub mod response;
pub mod status;
pub mod task;
pub mod text;
pub mod transpose;
pub mod wire;
