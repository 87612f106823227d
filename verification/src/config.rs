//! The daemon's startup configuration: where it listens, where the store
//! lives, and where trace events go.

use vstd::prelude::*;

verus! {

broadcast use vstd::string::group_string_axioms;

/// The paths a daemon binds and opens.
#[derive(Debug)]
pub struct Configuration {
    pub socket_path: String,
    pub meta_socket_path: Option<String>,
    pub database_path: String,
    pub trace_socket_path: Option<String>,
}

/// An optional path by its characters.
pub open spec fn path_view(path: Option<String>) -> Option<Seq<char>> {
    match path {
        Some(p) => Some(p@),
        None => None,
    }
}

impl Configuration {
    /// A configuration with the working socket and the store, and neither
    /// a meta socket nor a trace socket.
    pub fn new(socket_path: String, database_path: String) -> (r: Self)
        ensures
            r.socket_path == socket_path,
            r.database_path == database_path,
            r.meta_socket_path is None,
            r.trace_socket_path is None,
    {
        Configuration { socket_path, meta_socket_path: None, database_path, trace_socket_path: None }
    }

    /// A configuration that also pushes trace events to a socket.
    pub fn new_with_trace(socket_path: String, database_path: String, trace_socket_path: String) -> (r:
        Self)
        ensures
            r.socket_path == socket_path,
            r.database_path == database_path,
            r.meta_socket_path is None,
            r.trace_socket_path == Some(trace_socket_path),
    {
        Configuration {
            socket_path,
            meta_socket_path: None,
            database_path,
            trace_socket_path: Some(trace_socket_path),
        }
    }

    /// The same configuration with an owner-only meta socket.
    pub fn with_meta_socket_path(self, meta_socket_path: String) -> (r: Self)
        ensures
            r.socket_path == self.socket_path,
            r.database_path == self.database_path,
            r.trace_socket_path == self.trace_socket_path,
            r.meta_socket_path == Some(meta_socket_path),
    {
        Configuration { meta_socket_path: Some(meta_socket_path), ..self }
    }

    pub fn socket_path(&self) -> (r: &String)
        ensures
            *r == self.socket_path,
    {
        &self.socket_path
    }

    pub fn meta_socket_path(&self) -> (r: Option<&String>)
        ensures
            match r {
                Some(p) => self.meta_socket_path == Some(*p),
                None => self.meta_socket_path is None,
            },
    {
        match &self.meta_socket_path {
            Some(p) => Some(p),
            None => None,
        }
    }

    pub fn database_path(&self) -> (r: &String)
        ensures
            *r == self.database_path,
    {
        &self.database_path
    }

    pub fn trace_socket_path(&self) -> (r: Option<&String>)
        ensures
            match r {
                Some(p) => self.trace_socket_path == Some(*p),
                None => self.trace_socket_path is None,
            },
    {
        match &self.trace_socket_path {
            Some(p) => Some(p),
            None => None,
        }
    }
}

/// Why a configuration could not be read or written.
#[derive(Debug)]
pub enum ConfigurationError {
    /// The file could not be read; the text is the system's reason.
    Read(String),
    /// The file could not be written; the text is the system's reason.
    Write(String),
    ArchiveEncode,
    ArchiveDecode,
}

/// The description of a configuration failure.
pub open spec fn configuration_error_text(e: ConfigurationError) -> Seq<char> {
    match e {
        ConfigurationError::Read(reason) => "failed to read binary configuration: "@ + reason@,
        ConfigurationError::Write(reason) => "failed to write binary configuration: "@ + reason@,
        ConfigurationError::ArchiveEncode => "failed to encode binary configuration"@,
        ConfigurationError::ArchiveDecode => "failed to decode binary configuration"@,
    }
}

impl ConfigurationError {
    /// The description of the failure.
    pub fn message(&self) -> (r: String)
        ensures
            r@ == configuration_error_text(*self),
    {
        proof {
            reveal_strlit("failed to read binary configuration: ");
            reveal_strlit("failed to write binary configuration: ");
            reveal_strlit("failed to encode binary configuration");
            reveal_strlit("failed to decode binary configuration");
        }
        match self {
            ConfigurationError::Read(reason) => {
                let mut out = "failed to read binary configuration: ".to_string();
                out.append(reason.as_str());
                out
            },
            ConfigurationError::Write(reason) => {
                let mut out = "failed to write binary configuration: ".to_string();
                out.append(reason.as_str());
                out
            },
            ConfigurationError::ArchiveEncode => "failed to encode binary configuration".to_string(),
            ConfigurationError::ArchiveDecode => "failed to decode binary configuration".to_string(),
        }
    }
}

} // verus!
