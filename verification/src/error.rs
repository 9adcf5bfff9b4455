//! The library's error taxonomy for callers: local configuration faults,
//! connection faults, and errors the server reported.

use vstd::prelude::*;
use vstd::string::*;

verus! {

/// An error surfaced to the tool's user.
#[derive(Debug)]
pub enum RelayError {
    /// The named server is not registered.
    ServerNotFound(String),
    /// The named tool is not offered by the named server.
    ToolNotFound(String, String),
    /// No server was named and no default is configured.
    NoDefaultServer,
    /// The transport could not be established.
    ConnectionFailed(String),
    /// The server answered a request with an error object.
    McpError { code: i32, message: String },
    /// A supplied argument is not acceptable.
    InvalidArgument(String),
    /// A flag the tool's schema requires was not supplied.
    MissingRequiredFlag(String),
}

impl RelayError {
    /// The human-readable description of this error.
    pub fn message(&self) -> (r: String)
        ensures
            r@ == (match self {
                RelayError::ServerNotFound(name) => "Server '"@ + name@ + "' not found"@,
                RelayError::ToolNotFound(tool, server) => "Tool '"@ + tool@ + "' not found on server '"@
                    + server@ + "'"@,
                RelayError::NoDefaultServer =>
                    "No default server configured. Use `relay add` to add a server."@,
                RelayError::ConnectionFailed(m) => "Connection failed: "@ + m@,
                RelayError::McpError { code, message } => "MCP error: "@ + message@ + " (code "@
                    + crate::rpc::int_code_digits(*code) + ")"@,
                RelayError::InvalidArgument(m) => "Invalid argument: "@ + m@,
                RelayError::MissingRequiredFlag(f) => "Missing required flag: --"@ + f@,
            }),
    {
        match self {
            RelayError::ServerNotFound(name) => {
                let mut r = String::new();
                r.append("Server '");
                r.append(name.as_str());
                r.append("' not found");
                assert(r@ =~= "Server '"@ + name@ + "' not found"@);
                r
            },
            RelayError::ToolNotFound(tool, server) => {
                let mut r = String::new();
                r.append("Tool '");
                r.append(tool.as_str());
                r.append("' not found on server '");
                r.append(server.as_str());
                r.append("'");
                assert(r@ =~= "Tool '"@ + tool@ + "' not found on server '"@ + server@ + "'"@);
                r
            },
            RelayError::NoDefaultServer => {
                "No default server configured. Use `relay add` to add a server.".to_owned()
            },
            RelayError::ConnectionFailed(m) => {
                let mut r = String::new();
                r.append("Connection failed: ");
                r.append(m.as_str());
                assert(r@ =~= "Connection failed: "@ + m@);
                r
            },
            RelayError::McpError { code, message } => {
                let digits = crate::rpc::int_code_to_chars(*code);
                let digit_text = crate::text::string_of(&digits);
                let mut r = String::new();
                r.append("MCP error: ");
                r.append(message.as_str());
                r.append(" (code ");
                r.append(digit_text.as_str());
                r.append(")");
                assert(r@ =~= "MCP error: "@ + message@ + " (code "@ + crate::rpc::int_code_digits(
                    *code,
                ) + ")"@);
                r
            },
            RelayError::InvalidArgument(m) => {
                let mut r = String::new();
                r.append("Invalid argument: ");
                r.append(m.as_str());
                assert(r@ =~= "Invalid argument: "@ + m@);
                r
            },
            RelayError::MissingRequiredFlag(f) => {
                let mut r = String::new();
                r.append("Missing required flag: --");
                r.append(f.as_str());
                assert(r@ =~= "Missing required flag: --"@ + f@);
                r
            },
        }
    }
}

} // verus!
