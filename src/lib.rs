//! Size-targeted two-pass video encoding: the bitrate plan for a size budget,
//! the run that retries at a lower bitrate until the output fits, and the
//! reading and display of the encoder's progress stream.
pub mod bitrate;
pub mod converge;
pub mod probe;
pub mod progress;
pub mod render;
pub mod text;
