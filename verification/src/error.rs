use vstd::prelude::*;

verus! {

/// What can be wrong with a command line.
#[derive(Debug)]
pub enum ArgParseError {
    MissingInputFile,
    MissingWords,
    MissingOutputFile,
    UnknownOption(String),
}

impl ArgParseError {
    /// The text shown to the user for this error.
    pub open spec fn message(&self) -> Seq<char> {
        match self {
            ArgParseError::MissingInputFile => "Missing input file"@,
            ArgParseError::MissingWords => "Missing words after --add-words"@,
            ArgParseError::MissingOutputFile => "Missing file path after -o"@,
            ArgParseError::UnknownOption(option) => "Unknown option: "@ + option@,
        }
    }

    /// Renders the error as the text shown to the user.
    pub fn to_string(&self) -> (text: String)
        ensures
            text@ == self.message(),
    {
        match self {
            ArgParseError::MissingInputFile => String::from_str("Missing input file"),
            ArgParseError::MissingWords => String::from_str("Missing words after --add-words"),
            ArgParseError::MissingOutputFile => String::from_str("Missing file path after -o"),
            ArgParseError::UnknownOption(option) => {
                String::from_str("Unknown option: ").concat(option.as_str())
            },
        }
    }
}

} // verus!
