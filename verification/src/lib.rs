//! ASCII art conversion core: palettes and the text/HTML output, the
//! webcam pipeline, fitting frames for virtual cameras, the script bridge
//! and script store rules, video and ffmpeg plumbing decisions, update
//! checks and the installer's texts.

pub mod text;
pub mod ascii;
pub mod store;
pub mod version;
pub mod vcam;
pub mod webcam;
pub mod scripting;
pub mod mjpeg;
pub mod video;
pub mod ffmpeg;
pub mod installer;
pub mod messages;
pub mod camera;
