//! Errors that abort a whole read of the mounts.

use vstd::prelude::*;

use crate::mountinfo::ParseMountInfoError;

verus! {

/// lfs error type
#[derive(Debug, Clone)]
pub enum Error {
    /// a file could not be read
    CantReadFile { path: String },
    /// a directory could not be read
    CantReadDir { path: String },
    /// a line of the mount table is malformed
    ParseMountInfo { source: ParseMountInfoError },
    UnexpectedFormat,
    ParseDeviceId,
}

impl Error {
    /// A description of the error, for humans.
    pub fn message(&self) -> (r: String)
        ensures
            r@ == match self {
                Error::CantReadFile { path } => "Could not read file "@ + path@,
                Error::CantReadDir { path } => "Could not read dir "@ + path@,
                Error::ParseMountInfo { source } => "Could not parse mountinfo line: "@
                    + source.line@,
                Error::UnexpectedFormat => "Unexpected format"@,
                Error::ParseDeviceId => "Error parsing device id"@,
            },
    {
        match self {
            Error::CantReadFile { path } => {
                let mut s = "Could not read file ".to_owned();
                s.append(path.as_str());
                s
            },
            Error::CantReadDir { path } => {
                let mut s = "Could not read dir ".to_owned();
                s.append(path.as_str());
                s
            },
            Error::ParseMountInfo { source } => {
                let mut s = "Could not parse mountinfo line: ".to_owned();
                s.append(source.line.as_str());
                s
            },
            Error::UnexpectedFormat => "Unexpected format".to_owned(),
            Error::ParseDeviceId => "Error parsing device id".to_owned(),
        }
    }
}

} // verus!
