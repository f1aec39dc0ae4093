//! The decision logic of a speech-recognition stage that listens for spoken
//! commands: word lists, grammar swaps, session and credit bookkeeping, and
//! transcripts. The recognizer itself, the pipe and the clock stay outside.

pub mod args;
pub mod conduct;
pub mod events;
pub mod grammar;
pub mod handshake;
pub mod json;
pub mod laws;
pub mod locate;
pub mod machine;
pub mod pcm;
pub mod program;
pub mod recognition;
pub mod single;
pub mod stage;
pub mod swap;
pub mod text;
pub mod timing;
