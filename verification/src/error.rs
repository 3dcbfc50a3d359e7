//! Errors that may occur while loading translations, and their messages.

use vstd::prelude::*;

verus! {

/// Errors that may occur during initialization.
///
/// Paths are carried as text; the cause of an I/O or YAML error is carried as
/// the text that it displays.
#[derive(Debug)]
pub enum Error {
    /// File system errors.
    ///
    /// Occurs if the process has no permissions to open a file or a read
    /// operation was interrupted.
    Io { path: String, source: String },
    /// YAML syntax errors.
    ///
    /// Occurs if a file has broken indentation or is not a valid YAML.
    ParseYaml { path: String, source: String },
    /// Unexpected value type.
    ///
    /// Translation files must only have string values.
    InvalidYaml { path: String, message: String },
    /// Error during template compilation.
    ///
    /// Occurs if a translation string has unclosed or invalid placeholders.
    InvalidTemplate { path: String, key: String, message: String },
    /// Occurs if initialization is attempted after a successful one.
    AlreadyInitialized,
    /// Occurs if the fallback locale can't be found in the locales directory.
    FallbackLocaleNotFound { name: String, path: String },
}

/// What an error holds.
pub enum ErrorModel {
    Io { path: Seq<char>, source: Seq<char> },
    ParseYaml { path: Seq<char>, source: Seq<char> },
    InvalidYaml { path: Seq<char>, message: Seq<char> },
    InvalidTemplate { path: Seq<char>, key: Seq<char>, message: Seq<char> },
    AlreadyInitialized,
    FallbackLocaleNotFound { name: Seq<char>, path: Seq<char> },
}

impl View for Error {
    type V = ErrorModel;

    open spec fn view(&self) -> ErrorModel {
        match self {
            Error::Io { path, source } => ErrorModel::Io { path: path@, source: source@ },
            Error::ParseYaml { path, source } => ErrorModel::ParseYaml {
                path: path@,
                source: source@,
            },
            Error::InvalidYaml { path, message } => ErrorModel::InvalidYaml {
                path: path@,
                message: message@,
            },
            Error::InvalidTemplate { path, key, message } => ErrorModel::InvalidTemplate {
                path: path@,
                key: key@,
                message: message@,
            },
            Error::AlreadyInitialized => ErrorModel::AlreadyInitialized,
            Error::FallbackLocaleNotFound { name, path } => ErrorModel::FallbackLocaleNotFound {
                name: name@,
                path: path@,
            },
        }
    }
}

/// The message that describes an error.
pub open spec fn error_message(e: ErrorModel) -> Seq<char> {
    match e {
        ErrorModel::Io { path, source } => "failed to read "@ + path + ": "@ + source,
        ErrorModel::ParseYaml { path, source } => "failed to parse "@ + path + ": "@ + source,
        ErrorModel::InvalidYaml { path, message } => "invalid YAML in "@ + path + ": "@ + message,
        ErrorModel::InvalidTemplate { path, key, message } => "invalid template '"@ + key
            + "' in "@ + path + ": "@ + message,
        ErrorModel::AlreadyInitialized =>
            "ezlz::init() can't be called again after a successful initialization"@,
        ErrorModel::FallbackLocaleNotFound { name, path } => "fallback locale '"@ + name
            + "' not found in "@ + path,
    }
}

impl Error {
    /// The message that describes the error.
    pub fn message(&self) -> (m: String)
        ensures
            m@ == error_message(self@),
    {
        match self {
            Error::Io { path, source } => {
                let mut m = "failed to read ".to_owned();
                m.append(path.as_str());
                m.append(": ");
                m.append(source.as_str());
                m
            },
            Error::ParseYaml { path, source } => {
                let mut m = "failed to parse ".to_owned();
                m.append(path.as_str());
                m.append(": ");
                m.append(source.as_str());
                m
            },
            Error::InvalidYaml { path, message } => {
                let mut m = "invalid YAML in ".to_owned();
                m.append(path.as_str());
                m.append(": ");
                m.append(message.as_str());
                m
            },
            Error::InvalidTemplate { path, key, message } => {
                let mut m = "invalid template '".to_owned();
                m.append(key.as_str());
                m.append("' in ");
                m.append(path.as_str());
                m.append(": ");
                m.append(message.as_str());
                m
            },
            Error::AlreadyInitialized => {
                "ezlz::init() can't be called again after a successful initialization".to_owned()
            },
            Error::FallbackLocaleNotFound { name, path } => {
                let mut m = "fallback locale '".to_owned();
                m.append(name.as_str());
                m.append("' not found in ");
                m.append(path.as_str());
                m
            },
        }
    }
}

} // verus!
