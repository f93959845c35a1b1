use vstd::prelude::*;

verus! {

/// Why a graft was refused before any write took place.
#[derive(Debug)]
pub enum CliError {
    /// The destination directory (named by its display form) holds entries.
    DstDirNotEmpty(String),
    /// The path does not name a directory that can be listed.
    NotDir(String),
    /// The command line did not name exactly one source directory.
    WrongArgs,
}

/// The text shown to a user for each error.
pub open spec fn message_of(e: &CliError) -> Seq<char> {
    match e {
        CliError::DstDirNotEmpty(s) => "Destination directory ("@ + s@ + ") is not empty"@,
        CliError::NotDir(s) => "Not a Directory: "@ + s@,
        CliError::WrongArgs => "Wrong number of args"@,
    }
}

impl CliError {
    /// The user-facing description of the error.
    pub fn to_string(&self) -> (r: String)
        ensures
            r@ == message_of(self),
    {
        match self {
            CliError::DstDirNotEmpty(s) => {
                let mut r = String::from_str("Destination directory (");
                r.append(s.as_str());
                r.append(") is not empty");
                r
            },
            CliError::NotDir(s) => {
                let mut r = String::from_str("Not a Directory: ");
                r.append(s.as_str());
                r
            },
            CliError::WrongArgs => String::from_str("Wrong number of args"),
        }
    }
}

} // verus!
