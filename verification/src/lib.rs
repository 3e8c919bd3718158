//! Live photos: images that have a short video, in a file beside the image or inside it.
//!
//! The library finds the video of an image, serves both over HTTP, and says what the outside
//! programs that take pictures out of a video and describe it are to be told. It reads no files and
//! starts no programs: where a task alternates work of that kind with decisions, a function of the
//! library takes what happened and gives what is to be done next.
//!
//! - Finding: `motion` and `xmp` look for a video inside a JPEG file, `photos`, `walk` and
//!   `listing` collect images and pair each with its video, `order` sorts the list, `cache` keeps
//!   what was extracted.
//! - Showing: `http`, `percent`, `mime` and `stream` answer requests for files, `frames` and
//!   `thumbnail` make previews, `media` reads descriptions, `tools` holds the commands.
//! - Common ground: `text`, `lowercase`, `number`, `json`.

pub mod text;
pub mod lowercase;
pub mod number;
pub mod json;

pub mod xmp;
pub mod motion;
pub mod photos;
pub mod walk;
pub mod listing;
pub mod order;
pub mod cache;

pub mod percent;
pub mod mime;
pub mod http;
pub mod stream;

pub mod tools;
pub mod frames;
pub mod thumbnail;
pub mod media;
