//! The two error types of the tool. Each carries one line of text.

use vstd::prelude::*;
use vstd::string::StringExecFns;
use crate::number::{bool_error_text, int_error_text, IntParseError};

verus! {

/// A failure while one image file is processed: reading, probing, encoding, writing.
#[derive(Debug)]
pub struct ImageProcessError {
    msg: String,
}

impl View for ImageProcessError {
    type V = Seq<char>;

    /// The text that the error was made with.
    closed spec fn view(&self) -> Seq<char> {
        self.msg@
    }
}

impl ImageProcessError {
    pub fn new(msg: String) -> (e: Self)
        ensures
            e@ == msg@,
    {
        Self { msg }
    }

    /// The text with which the error is shown to the user.
    pub fn to_string(&self) -> (s: String)
        ensures
            s@ == "IOError: "@ + self@,
    {
        let mut s = "IOError: ".to_owned();
        s.append(self.msg.as_str());
        s
    }
}

/// A command-line value that could not be read.
#[derive(Debug)]
pub struct ValueParseError {
    msg: String,
}

impl View for ValueParseError {
    type V = Seq<char>;

    /// The text that the error was made with.
    closed spec fn view(&self) -> Seq<char> {
        self.msg@
    }
}

impl ValueParseError {
    pub fn new(msg: String) -> (e: Self)
        ensures
            e@ == msg@,
    {
        Self { msg }
    }

    /// The text with which the error is shown to the user.
    pub fn to_string(&self) -> (s: String)
        ensures
            s@ == "ValueParseErr: "@ + self@,
    {
        let mut s = "ValueParseErr: ".to_owned();
        s.append(self.msg.as_str());
        s
    }

    /// An error that says `msg`.
    pub fn from_text(msg: &str) -> (e: Self)
        ensures
            e@ == msg@,
    {
        Self { msg: msg.to_owned() }
    }

    /// The error for a string that is no unsigned number.
    pub fn from_int_error(err: IntParseError) -> (e: Self)
        ensures
            e@ == "ParseIntErr: "@ + int_error_text(err),
    {
        let mut msg = "ParseIntErr: ".to_owned();
        let text = err.text();
        msg.append(text.as_str());
        Self { msg }
    }

    /// The error for a string that is no truth value.
    pub fn from_bool_error() -> (e: Self)
        ensures
            e@ == "ParseBoolErr: "@ + bool_error_text(),
    {
        let mut msg = "ParseBoolErr: ".to_owned();
        msg.append("provided string was not `true` or `false`");
        Self { msg }
    }

    /// The error for a string that is no number with a fraction; `text` says why.
    pub fn from_float_error(text: &str) -> (e: Self)
        ensures
            e@ == "ParseFloatErr: "@ + text@,
    {
        let mut msg = "ParseFloatErr: ".to_owned();
        msg.append(text);
        Self { msg }
    }
}

} // verus!
