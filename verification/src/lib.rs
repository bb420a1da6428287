//! Appending ignore patterns to the pattern files of a synchronised folder.
//!
//! A synchronised folder is a directory that holds the marker directory
//! `.stfolder`. At its root it keeps its ignore patterns in the file
//! `.stignore`, which may name a second file, `.stignore_sync`, in a directive
//! line. This library finds the folder that holds the working directory,
//! rewrites the patterns that the user typed so that they lie below the
//! working directory, chooses the file that receives them, and appends them
//! to it on a line of their own.
//!
//! The library reads no file and writes none. It works on what its caller
//! hands in, and says what its caller has to do:
//!
//! - `locator` finds the root of the folder among the directories above the
//!   working directory;
//! - `grammar` tells the parts of a pattern apart and knows a directive line;
//! - `path` reads a path as names and writes names as a path;
//! - `pattern` rewrites the patterns into the text to append;
//! - `target` chooses between the two pattern files;
//! - `appender` says what to write at the end of a file;
//! - `handle` keeps a file that is opened when it is first needed;
//! - `run` leads through one run, step by step;
//! - `platform` and `text` hold the conventions and the handling of
//!   characters that the others share.

pub mod appender;
pub mod grammar;
pub mod handle;
pub mod locator;
pub mod path;
pub mod pattern;
pub mod platform;
pub mod run;
pub mod target;
pub mod text;
