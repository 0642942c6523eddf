//! Batch compression and conversion of images: the decisions of the tool, verified.
//!
//! The library reads the option strings of the command line, works out the size
//! that a resize directive asks for an image, derives the path of each output
//! file, encodes the data of an image with the encoders of `caesium`, and says
//! how a run over a file or a directory goes on from one step to the next. It
//! touches no file: the program around it reads, writes and deletes, and hands
//! back what that gave. It also makes no call from which an encoder is not
//! known to come back: such a call is a step for the program as well.

pub mod codec;
pub mod error;
pub mod number;
pub mod options;
pub mod paths;
pub mod resize;
pub mod runner;
pub mod settings;
pub mod single;
pub mod text;
