//! Failure conditions surfaced by the library.

use vstd::prelude::*;

verus! {

/// Every failure the library (or the application around it) can report
/// for one backup cycle.
#[derive(Debug, PartialEq, Eq)]
pub enum Error {
    /// A value could not be converted to an `ArchiveStrategy`.
    InvalidBackupType,
    /// A value could not be converted to an `ArchiveCompression`.
    InvalidCompressionType,
    /// A value could not be converted to an `ArchivePermission`.
    InvalidPermission,
    /// A required directory does not exist; carries the path.
    NoVolumeMounted(String),
    /// No running instance of the agent's own container was found.
    NoSalvageContainer,
    /// A container runtime call failed; carries the runtime's message.
    DockerApi(String),
    /// An I/O or compression failure; carries the underlying message.
    Io(String),
    /// The local UTC offset could not be determined.
    TimeOffset,
}

impl Error {
    /// A human-readable description of the failure.
    pub fn message(&self) -> (r: String)
        ensures
            r@ == self.message_chars(),
    {
        match self {
            Error::InvalidBackupType => String::from_str(
                "Provided value cannot be converted to ArchiveStrategy enum",
            ),
            Error::InvalidCompressionType => String::from_str(
                "Provided value cannot be converted to ArchiveCompression enum",
            ),
            Error::InvalidPermission => String::from_str(
                "Provided value cannot be converted to ArchivePermission enum",
            ),
            Error::NoVolumeMounted(path) => {
                let mut s = String::from_str("No volume mounted at: ");
                s.append(path.as_str());
                s
            },
            Error::NoSalvageContainer => String::from_str(
                "No running salvage container was found",
            ),
            Error::DockerApi(msg) => {
                let mut s = String::from_str("container runtime error: ");
                s.append(msg.as_str());
                s
            },
            Error::Io(msg) => {
                let mut s = String::from_str("io error: ");
                s.append(msg.as_str());
                s
            },
            Error::TimeOffset => String::from_str(
                "The local UTC offset could not be determined",
            ),
        }
    }

    /// What `message` returns, as a sequence of characters.
    pub open spec fn message_chars(&self) -> Seq<char> {
        match self {
            Error::InvalidBackupType => "Provided value cannot be converted to ArchiveStrategy enum"@,
            Error::InvalidCompressionType => "Provided value cannot be converted to ArchiveCompression enum"@,
            Error::InvalidPermission => "Provided value cannot be converted to ArchivePermission enum"@,
            Error::NoVolumeMounted(path) => "No volume mounted at: "@ + path@,
            Error::NoSalvageContainer => "No running salvage container was found"@,
            Error::DockerApi(msg) => "container runtime error: "@ + msg@,
            Error::Io(msg) => "io error: "@ + msg@,
            Error::TimeOffset => "The local UTC offset could not be determined"@,
        }
    }
}

} // verus!
