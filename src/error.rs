use vstd::prelude::*;
use vstd::string::*;

verus! {

/// The ways an operation of this library can fail.
#[derive(Debug, PartialEq, Eq)]
pub enum DriftersError {
    Config(String),
    FileNotFound(String),
    MergeConflict(String),
    MachineNotRegistered(String),
    AppNotFound(String),
    RepoNotInitialized,
    EmptyFile(String),
    UserCancelled,
    InvalidSyncMode(String),
}

pub type Result<T> = core::result::Result<T, DriftersError>;

impl DriftersError {
    /// A configuration error carrying the literal text `msg`.
    pub fn config(msg: &str) -> (r: DriftersError)
        ensures
            r matches DriftersError::Config(m) && m@ == msg@,
    {
        DriftersError::Config(String::from_str(msg))
    }

    /// The message that describes the error to a user.
    pub fn to_string(&self) -> (r: String)
        ensures
            r@ == match self {
                DriftersError::Config(m) => "Configuration error: "@ + m@,
                DriftersError::FileNotFound(p) => "File not found: "@ + p@,
                DriftersError::MergeConflict(p) => "Merge conflict in file: "@ + p@,
                DriftersError::MachineNotRegistered(m) => "Machine not registered: "@ + m@,
                DriftersError::AppNotFound(a) => "App not found: "@ + a@,
                DriftersError::RepoNotInitialized => "Repository not initialized. Run 'drifters init <repo-url>' first"@,
                DriftersError::EmptyFile(p) => "Empty file detected: "@ + p@
                    + ". This might overwrite existing configs."@,
                DriftersError::UserCancelled => "User cancelled operation"@,
                DriftersError::InvalidSyncMode(m) => "Invalid sync mode: "@ + m@,
            },
    {
        match self {
            DriftersError::Config(m) => String::from_str("Configuration error: ").concat(m.as_str()),
            DriftersError::FileNotFound(p) => String::from_str("File not found: ").concat(p.as_str()),
            DriftersError::MergeConflict(p) => String::from_str("Merge conflict in file: ").concat(
                p.as_str(),
            ),
            DriftersError::MachineNotRegistered(m) => String::from_str(
                "Machine not registered: ",
            ).concat(m.as_str()),
            DriftersError::AppNotFound(a) => String::from_str("App not found: ").concat(a.as_str()),
            DriftersError::RepoNotInitialized => String::from_str(
                "Repository not initialized. Run 'drifters init <repo-url>' first",
            ),
            DriftersError::EmptyFile(p) => String::from_str("Empty file detected: ").concat(
                p.as_str(),
            ).concat(". This might overwrite existing configs."),
            DriftersError::UserCancelled => String::from_str("User cancelled operation"),
            DriftersError::InvalidSyncMode(m) => String::from_str("Invalid sync mode: ").concat(
                m.as_str(),
            ),
        }
    }
}

} // verus!
