//! Builds scripts for a matrix-oriented interpreter: typed values are
//! substituted into statement templates and the statements are rendered as
//! one script text.
pub mod literal;
pub mod matrix;
pub mod octave;
pub mod template;
