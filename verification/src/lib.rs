//! Bytebeat: tiny reverse-Polish programs of `t` that produce 8-bit audio,
//! together with the pieces that turn a beat into a scrolling waveform video.
//!
//! The verified library covers the language (tokens, the stack-depth analysis,
//! the evaluator), the random beat generator and the arithmetic of the video
//! renderer. Floating-point arithmetic is not part of it: the evaluator hands
//! every float operation to a caller-supplied float unit, the parser hands
//! float literals to a caller-supplied reader, and the printer hands doubles
//! to a caller-supplied printer.
pub mod cmd;
pub mod color;
pub mod compile;
pub mod crash;
pub mod eval;
pub mod format;
pub mod numbers;
pub mod operators;
pub mod parse;
pub mod report;
pub mod roundtrip;
pub mod text;
pub mod unit;

pub mod classic;
pub mod encode;
pub mod random;
pub mod video;

pub use cmd::Cmd;
pub use color::Color;
pub use compile::{compile, CompileError, ErrorKind, Program};
pub use eval::{eval_beat, FloatOp, Val};
pub use format::format_beat;
pub use parse::{parse_beat, ParseError};
