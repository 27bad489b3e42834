//! The library's error kinds.

use vstd::prelude::*;
use vstd::string::StringExecFns;

verus! {

/// What can go wrong while preparing or running a prompt.
#[derive(Debug, Clone, PartialEq, Eq)]
pub enum Error {
    ParseConfig,
    MissingField(String),
    UnknownModelHost(String),
    ParseTemplate,
    TemplateNotFound,
    TemplateContentsNotFound,
    EmptyTemplate,
    ArgParseFailure,
    PreparePrompt,
    RunPrompt,
    /// The model's context, after the space reserved for output, leaves no room for a prompt.
    ContextLimit,
    Io,
    Cache,
    /// The tokenizer failed, or gave offsets that do not fit the text.
    Tokenizer(String),
    /// The bytes hold no image of a known format.
    Image,
}

impl Error {
    /// A one-line description of the error.
    pub fn message(&self) -> String {
        match self {
            Error::ParseConfig => "Error reading configuration file".to_string(),
            Error::MissingField(f) => {
                let mut s = "Missing field ".to_string();
                s.append(f.as_str());
                s
            },
            Error::UnknownModelHost(h) => {
                let mut s = "Unknown model host ".to_string();
                s.append(h.as_str());
                s
            },
            Error::ParseTemplate => "Error reading template".to_string(),
            Error::TemplateNotFound => "Template not found".to_string(),
            Error::TemplateContentsNotFound => "Template contents not found".to_string(),
            Error::EmptyTemplate => "This template is missing template and template_path".to_string(),
            Error::ArgParseFailure => "Failed to parse arguments".to_string(),
            Error::PreparePrompt => "Encountered an error preparing the prompt".to_string(),
            Error::RunPrompt => "Encountered an error running the prompt".to_string(),
            Error::ContextLimit => "Failed to calculate context limit".to_string(),
            Error::Io => "Failed reading input".to_string(),
            Error::Cache => "Failed to access local cache".to_string(),
            Error::Tokenizer(_) => "Failed to encode tokens".to_string(),
            Error::Image => "Failed to read image".to_string(),
        }
    }
}

} // verus!
