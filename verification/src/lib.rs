//! The logic of a lyrics tool: it cleans up file names into artist and title, renders timed
//! lyrics as LRC or word-by-word eLRC, chooses where lyrics come from and where they go, and
//! edits the tags of an audio file that is held in memory.

pub mod commands;
pub mod file_laws;
pub mod files;
pub mod job_laws;
pub mod jobs;
pub mod log;
pub mod lyric_laws;
pub mod lyrics;
pub mod matching;
pub mod tag_laws;
pub mod tag_store;
pub mod tags;
pub mod text;
pub mod text_laws;
pub mod timestamps;
pub mod title_laws;
pub mod titles;
pub mod walk;
pub mod walk_laws;
