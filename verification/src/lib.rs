//! Batch optimisation of images: the rules of a tool that takes the files and
//! directories a user selected, finds the images among them, and writes a
//! smaller version of each into a fresh output directory.
//!
//! The library decides and computes; it touches no file and starts no
//! thread. Whoever uses it walks the directories, runs the encoders and
//! hands the library what was found and what came of it.
//!
//! - `scan` tells which files are images and lists the images of a
//!   selection.
//! - `dist_dir` names the output directory of a batch.
//! - `pipeline` plans the transforms of one image and steers them, action by
//!   action, to the image's outcome; `pipeline_laws` states what follows.
//! - `batch` turns the outcomes of all images into the report of the batch;
//!   `batch_laws` states that the report forgets the order of arrival.
//! - `sorting` orders listings and reports by path, without regard to case.
//! - `path` reads and writes slash-separated paths; `path_laws` states what
//!   reading and writing preserve.
//! - `text`, `options` and `outcome` hold the plain values that the others
//!   work with.

pub mod batch;
pub mod batch_laws;
pub mod dist_dir;
pub mod options;
pub mod outcome;
pub mod path;
pub mod path_laws;
pub mod pipeline;
pub mod pipeline_laws;
pub mod scan;
pub mod sorting;
pub mod text;
