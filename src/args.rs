use vstd::prelude::*;

verus! {

/// A command on a PNG file, with the paths as text.
#[derive(Clone, Debug)]
pub enum Args {
    /// Hide `message` in a new chunk of type `ctype`; write to `output` if given, else to `file`.
    Encode { file: String, ctype: String, message: String, output: Option<String> },
    /// Show the text of the first chunk of type `ctype`, or of every one with `all`.
    Decode { file: String, ctype: String, all: bool },
    /// Take out the first chunk of type `ctype`, or every one with `all`.
    Remove { file: String, ctype: String, all: bool },
    /// Show every payload that is text.
    Print { file: String },
}

} // verus!
