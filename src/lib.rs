// Colors piped text by CPU load: readings are stretched or compressed to the
// length of each line, and each character takes the color of its reading.
pub mod colorize;
pub mod resample;
pub mod sampler;
