//! The enumerations read from logs, spans and dependency records.
use vstd::prelude::*;
use crate::text::{all_ascii, ascii_upper_text, to_upper, eq_str, upper_of};

verus! {

/// An HTTP method.
#[derive(Clone, Copy, Debug, PartialEq, Eq, Structural)]
pub enum RequestType {
    Get,
    Post,
    Put,
    Patch,
    Delete,
    Head,
    Options,
    Connect,
    Trace,
}

#[derive(Clone, Copy, Debug, PartialEq, Eq, Structural)]
pub struct RequestTypeParseError;

/// The method named by an upper-cased word.
pub open spec fn method_named(u: Seq<char>) -> Option<RequestType> {
    if u == "GET"@ {
        Some(RequestType::Get)
    } else if u == "POST"@ {
        Some(RequestType::Post)
    } else if u == "PUT"@ {
        Some(RequestType::Put)
    } else if u == "PATCH"@ {
        Some(RequestType::Patch)
    } else if u == "DELETE"@ {
        Some(RequestType::Delete)
    } else if u == "HEAD"@ {
        Some(RequestType::Head)
    } else if u == "OPTIONS"@ {
        Some(RequestType::Options)
    } else if u == "CONNECT"@ {
        Some(RequestType::Connect)
    } else if u == "TRACE"@ {
        Some(RequestType::Trace)
    } else {
        None
    }
}

impl RequestType {
    /// Reads a method name, in any case.
    pub fn from_str(input: &str) -> (r: Result<RequestType, RequestTypeParseError>)
        ensures
            match r {
                Ok(t) => method_named(upper_of(input@)) == Some(t),
                Err(_) => method_named(upper_of(input@)).is_none(),
            },
            all_ascii(input@) ==> upper_of(input@) == ascii_upper_text(input@),
    {
        let u = to_upper(input);
        if eq_str(&u, "GET") {
            Ok(RequestType::Get)
        } else if eq_str(&u, "POST") {
            Ok(RequestType::Post)
        } else if eq_str(&u, "PUT") {
            Ok(RequestType::Put)
        } else if eq_str(&u, "PATCH") {
            Ok(RequestType::Patch)
        } else if eq_str(&u, "DELETE") {
            Ok(RequestType::Delete)
        } else if eq_str(&u, "HEAD") {
            Ok(RequestType::Head)
        } else if eq_str(&u, "OPTIONS") {
            Ok(RequestType::Options)
        } else if eq_str(&u, "CONNECT") {
            Ok(RequestType::Connect)
        } else if eq_str(&u, "TRACE") {
            Ok(RequestType::Trace)
        } else {
            Err(RequestTypeParseError)
        }
    }
}

/// Which side of a call a dependency item stands for.
#[derive(Clone, Copy, Debug, PartialEq, Eq, Structural)]
pub enum EndpointDependencyType {
    Client,
    Server,
}

#[derive(Clone, Copy, Debug, PartialEq, Eq, Structural)]
pub struct EndpointDependencyTypeParseError;

pub open spec fn dependency_type_named(u: Seq<char>) -> Option<EndpointDependencyType> {
    if u == "CLIENT"@ {
        Some(EndpointDependencyType::Client)
    } else if u == "SERVER"@ {
        Some(EndpointDependencyType::Server)
    } else {
        None
    }
}

impl EndpointDependencyType {
    /// Reads `CLIENT` or `SERVER`, in any case.
    pub fn from_str(input: &str) -> (r: Result<
        EndpointDependencyType,
        EndpointDependencyTypeParseError,
    >)
        ensures
            match r {
                Ok(t) => dependency_type_named(upper_of(input@)) == Some(t),
                Err(_) => dependency_type_named(upper_of(input@)).is_none(),
            },
            all_ascii(input@) ==> upper_of(input@) == ascii_upper_text(input@),
    {
        let u = to_upper(input);
        if eq_str(&u, "CLIENT") {
            Ok(EndpointDependencyType::Client)
        } else if eq_str(&u, "SERVER") {
            Ok(EndpointDependencyType::Server)
        } else {
            Err(EndpointDependencyTypeParseError)
        }
    }
}

/// Whether a sidecar log line records a request or a response.
#[derive(Clone, Copy, Debug, PartialEq, Eq, Structural)]
pub enum LogType {
    Req,
    Res,
}

#[derive(Clone, Copy, Debug, PartialEq, Eq, Structural)]
pub struct EnvoyLogParseError;

pub open spec fn log_type_named(u: Seq<char>) -> Option<LogType> {
    if u == "REQ"@ || u == "REQUEST"@ {
        Some(LogType::Req)
    } else if u == "RES"@ || u == "RESPONSE"@ {
        Some(LogType::Res)
    } else {
        None
    }
}

impl LogType {
    /// Reads `REQ`, `REQUEST`, `RES` or `RESPONSE`, in any case.
    pub fn from_str(input: &str) -> (r: Result<LogType, EnvoyLogParseError>)
        ensures
            match r {
                Ok(t) => log_type_named(upper_of(input@)) == Some(t),
                Err(_) => log_type_named(upper_of(input@)).is_none(),
            },
            all_ascii(input@) ==> upper_of(input@) == ascii_upper_text(input@),
    {
        let u = to_upper(input);
        if eq_str(&u, "REQ") || eq_str(&u, "REQUEST") {
            Ok(LogType::Req)
        } else if eq_str(&u, "RES") || eq_str(&u, "RESPONSE") {
            Ok(LogType::Res)
        } else {
            Err(EnvoyLogParseError)
        }
    }
}

/// The record kind of the older log format.
#[derive(Clone, Copy, Debug, PartialEq, Eq, Structural)]
pub enum RecordType {
    Req,
    Res,
}

#[derive(Clone, Copy, Debug, PartialEq, Eq, Structural)]
pub struct RecordParseError;

impl RecordType {
    /// Reads `REQ`, `REQUEST`, `RES` or `RESPONSE`, in any case.
    pub fn from_str(input: &str) -> (r: Result<RecordType, RecordParseError>)
        ensures
            match r {
                Ok(RecordType::Req) => log_type_named(upper_of(input@)) == Some(LogType::Req),
                Ok(RecordType::Res) => log_type_named(upper_of(input@)) == Some(LogType::Res),
                Err(_) => log_type_named(upper_of(input@)).is_none(),
            },
            all_ascii(input@) ==> upper_of(input@) == ascii_upper_text(input@),
    {
        match LogType::from_str(input) {
            Ok(LogType::Req) => Ok(RecordType::Req),
            Ok(LogType::Res) => Ok(RecordType::Res),
            Err(_) => Err(RecordParseError),
        }
    }
}


} // verus!
