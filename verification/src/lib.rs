//! Side-by-side comparison of two binary files: loading state, byte
//! differences, offset suggestions and the hex view they are shown in.

pub mod app;
pub mod candidates;
pub mod error;
pub mod file;
pub mod hexview;
pub mod laws;
pub mod ranking;
pub mod score;
pub mod score_laws;
pub mod search_laws;
pub mod state;
pub mod state_laws;
pub mod text;
pub mod text_laws;
pub mod view;
pub mod view_laws;
