use vstd::prelude::*;

verus! {

/// The errors the configuration engine can report.
///
/// `ConfigNotFound` names a configuration that does not exist;
/// `ConfigAlreadyExists` one that does and may not be overwritten.
/// `InvalidConfig` reports a record that fails validation,
/// `IoError` a read, write, or delete failure, `SerializationError`
/// a stored record that does not decode, `StorageUnavailable` a
/// configuration root that cannot be resolved, and `ExecutionFailed`
/// carries the exit code of a child process that did not succeed
/// (`-1` when no code was observed).
#[derive(Debug)]
pub enum VexError {
    ConfigNotFound(String),
    ConfigAlreadyExists(String),
    InvalidConfig(String),
    IoError(String),
    SerializationError(String),
    StorageUnavailable(String),
    ExecutionFailed(i32),
}


impl VexError {
    /// The human-readable report of this error.
    pub fn message(&self) -> (m: String)
        ensures
            match *self {
                VexError::ConfigNotFound(n) => m@ == "Configuration '"@ + n@ + "' not found"@,
                VexError::ConfigAlreadyExists(n) => m@ == "Configuration '"@ + n@
                    + "' already exists"@,
                VexError::InvalidConfig(t) => m@ == "Invalid configuration: "@ + t@,
                VexError::IoError(t) => m@ == "IO error: "@ + t@,
                VexError::SerializationError(t) => m@ == "Serialization error: "@ + t@,
                VexError::StorageUnavailable(t) => m@ == "Storage unavailable: "@ + t@,
                VexError::ExecutionFailed(_) => m@
                    == "QEMU execution failed with a non-zero exit code"@,
            },
    {
        match self {
            VexError::ConfigNotFound(n) => {
                let mut m = "Configuration '".to_owned();
                m.append(n.as_str());
                m.append("' not found");
                m
            },
            VexError::ConfigAlreadyExists(n) => {
                let mut m = "Configuration '".to_owned();
                m.append(n.as_str());
                m.append("' already exists");
                m
            },
            VexError::InvalidConfig(t) => {
                let mut m = "Invalid configuration: ".to_owned();
                m.append(t.as_str());
                m
            },
            VexError::IoError(t) => {
                let mut m = "IO error: ".to_owned();
                m.append(t.as_str());
                m
            },
            VexError::SerializationError(t) => {
                let mut m = "Serialization error: ".to_owned();
                m.append(t.as_str());
                m
            },
            VexError::StorageUnavailable(t) => {
                let mut m = "Storage unavailable: ".to_owned();
                m.append(t.as_str());
                m
            },
            VexError::ExecutionFailed(_) => {
                "QEMU execution failed with a non-zero exit code".to_owned()
            },
        }
    }
}

} // verus!
