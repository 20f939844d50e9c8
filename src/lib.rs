//! Classification of media files from their names: cleaning, extraction of
//! series name, season and episode, and the movie verdict.
pub mod text;
pub mod clean;
pub mod extract;
pub mod episode;
pub mod result;
