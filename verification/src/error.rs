//! Errors of memory operations, and their messages.
use vstd::prelude::*;
use crate::links::string_views;
use crate::text::{copy_string, decimal, owned, push_decimal};

verus! {

broadcast use vstd::string::group_string_axioms;

/// What can go wrong in a memory operation.
#[derive(Debug)]
pub enum AdbError {
    ParseError { message: String, position: usize },
    InvalidSyntax(String),
    InvalidMemoryType { verb: String, memory_type: String, allowed: Vec<String> },
    MissingPredicate { verb: String },
    MissingPayload { verb: String },
    InvalidPredicate { memory_type: String, message: String },
    Timeout { budget_ms: u64 },
    UnknownBackend(String),
    UnsupportedOperation(String),
    NotFound { memory_type: String, id: String },
    CyclicDependency,
    EmbeddingError(String),
    VectorIndexError(String),
    GraphError(String),
    QueryError(String),
    /// A payload could not be read or written; the message says why.
    SerializationError(String),
    LinkError(String),
    InvalidLink,
    ConfigError(String),
    Internal(String),
}

/// What `{:?}` renders for a list of strings: each string quoted and
/// escaped, separated by ", ", in square brackets.
pub uninterp spec fn debug_text_of(items: Seq<Seq<char>>) -> Seq<char>;

/// Renders a list of strings with `Debug` (`format!("{:?}", ..)`); the
/// result is named `debug_text_of`.
#[verifier::external_body]
fn debug_strings(items: &Vec<String>) -> (r: String)
    ensures
        r@ == debug_text_of(string_views(items@)),
{
    format!("{:?}", items)
}

/// The message of an error.
pub open spec fn error_text(e: AdbError) -> Seq<char> {
    match e {
        AdbError::ParseError { message, position } => "Parse error: "@ + message@ + " at position "@
            + decimal(position as nat),
        AdbError::InvalidSyntax(s) => "Invalid syntax: "@ + s@,
        AdbError::InvalidMemoryType { verb, memory_type, allowed } => "Invalid memory type '"@
            + memory_type@ + "' for verb '"@ + verb@ + "'. Allowed: "@ + debug_text_of(
            string_views(allowed@),
        ),
        AdbError::MissingPredicate { verb } => "Missing predicate: "@ + verb@
            + " requires a WHERE clause"@,
        AdbError::MissingPayload { verb } => "Missing payload: "@ + verb@ + " requires data"@,
        AdbError::InvalidPredicate { memory_type, message } => "Invalid predicate for "@
            + memory_type@ + ": "@ + message@,
        AdbError::Timeout { budget_ms } => "Operation timed out after "@ + decimal(
            budget_ms as nat,
        ) + "ms"@,
        AdbError::UnknownBackend(s) => "Unknown backend: "@ + s@,
        AdbError::UnsupportedOperation(s) => "Operation '"@ + s@ + "' not supported on this backend"@,
        AdbError::NotFound { memory_type, id } => "Record not found: "@ + memory_type@ + "/"@ + id@,
        AdbError::CyclicDependency => "Cyclic dependency detected in task graph"@,
        AdbError::EmbeddingError(s) => "Embedding error: "@ + s@,
        AdbError::VectorIndexError(s) => "Vector index error: "@ + s@,
        AdbError::GraphError(s) => "Graph error: "@ + s@,
        AdbError::QueryError(s) => "Query execution error: "@ + s@,
        AdbError::SerializationError(s) => "Serialization error: "@ + s@,
        AdbError::LinkError(s) => "Link error: "@ + s@,
        AdbError::InvalidLink => "Invalid link: source or target not found"@,
        AdbError::ConfigError(s) => "Configuration error: "@ + s@,
        AdbError::Internal(s) => "Internal error: "@ + s@,
    }
}

/// `a` followed by `b`.
fn joined(a: &str, b: &str) -> (r: String)
    ensures
        r@ == a@ + b@,
{
    let mut s = owned(a);
    s.append(b);
    s
}

/// `a`, `b` and `c` in a row.
fn joined3(a: &str, b: &str, c: &str) -> (r: String)
    ensures
        r@ == a@ + b@ + c@,
{
    let mut s = owned(a);
    s.append(b);
    s.append(c);
    s
}

impl AdbError {
    /// A parse error at a position.
    pub fn parse(message: &str, position: usize) -> (r: AdbError)
        ensures
            r matches AdbError::ParseError { message: m, position: p } && m@ == message@ && p
                == position,
    {
        AdbError::ParseError { message: owned(message), position }
    }

    /// A memory kind that a verb does not accept, with the kinds it does.
    pub fn invalid_memory_type(verb: &str, memory_type: &str, allowed: Vec<&str>) -> (r: AdbError)
        ensures
            r matches AdbError::InvalidMemoryType { verb: v, memory_type: m, allowed: a } && v@
                == verb@ && m@ == memory_type@ && string_views(a@) == allowed@.map_values(
                |s: &str| s@,
            ),
    {
        let mut names: Vec<String> = Vec::new();
        let mut i: usize = 0;
        while i < allowed.len()
            invariant
                i <= allowed@.len(),
                string_views(names@) == allowed@.take(i as int).map_values(|s: &str| s@),
            decreases allowed@.len() - i,
        {
            let ghost before = names@;
            names.push(owned(allowed[i]));
            assert(string_views(names@) =~= string_views(before).push(allowed@[i as int]@));
            assert(allowed@.take(i + 1).map_values(|s: &str| s@) =~= allowed@.take(i as int).map_values(
                |s: &str| s@,
            ).push(allowed@[i as int]@));
            i = i + 1;
        }
        assert(allowed@.take(allowed@.len() as int) =~= allowed@);
        AdbError::InvalidMemoryType { verb: owned(verb), memory_type: owned(memory_type), allowed: names }
    }

    /// A record that does not exist.
    pub fn not_found(memory_type: &str, id: &str) -> (r: AdbError)
        ensures
            r matches AdbError::NotFound { memory_type: m, id: i } && m@ == memory_type@ && i@
                == id@,
    {
        AdbError::NotFound { memory_type: owned(memory_type), id: owned(id) }
    }

    /// Whether this is a timeout.
    pub fn is_timeout(&self) -> (r: bool)
        ensures
            r == (self is Timeout),
    {
        match self {
            AdbError::Timeout { .. } => true,
            _ => false,
        }
    }

    /// Whether this is a missing record.
    pub fn is_not_found(&self) -> (r: bool)
        ensures
            r == (self is NotFound),
    {
        match self {
            AdbError::NotFound { .. } => true,
            _ => false,
        }
    }

    /// The message of this error.
    pub fn to_string(&self) -> (r: String)
        ensures
            r@ == error_text(*self),
    {
        proof {
            reveal_strlit("Parse error: ");
            reveal_strlit(" at position ");
            reveal_strlit("Invalid syntax: ");
            reveal_strlit("Invalid memory type '");
            reveal_strlit("' for verb '");
            reveal_strlit("'. Allowed: ");
            reveal_strlit("Missing predicate: ");
            reveal_strlit(" requires a WHERE clause");
            reveal_strlit("Missing payload: ");
            reveal_strlit(" requires data");
            reveal_strlit("Invalid predicate for ");
            reveal_strlit(": ");
            reveal_strlit("Operation timed out after ");
            reveal_strlit("ms");
            reveal_strlit("Unknown backend: ");
            reveal_strlit("Operation '");
            reveal_strlit("' not supported on this backend");
            reveal_strlit("Record not found: ");
            reveal_strlit("/");
            reveal_strlit("Cyclic dependency detected in task graph");
            reveal_strlit("Embedding error: ");
            reveal_strlit("Vector index error: ");
            reveal_strlit("Graph error: ");
            reveal_strlit("Query execution error: ");
            reveal_strlit("Serialization error: ");
            reveal_strlit("Link error: ");
            reveal_strlit("Invalid link: source or target not found");
            reveal_strlit("Configuration error: ");
            reveal_strlit("Internal error: ");
        }
        match self {
            AdbError::ParseError { message, position } => {
                let mut s = joined3("Parse error: ", message.as_str(), " at position ");
                push_decimal(&mut s, *position as u128);
                s
            },
            AdbError::InvalidSyntax(m) => joined("Invalid syntax: ", m.as_str()),
            AdbError::InvalidMemoryType { verb, memory_type, allowed } => {
                let mut s = joined3("Invalid memory type '", memory_type.as_str(), "' for verb '");
                s.append(verb.as_str());
                s.append("'. Allowed: ");
                let list = debug_strings(allowed);
                s.append(list.as_str());
                s
            },
            AdbError::MissingPredicate { verb } => joined3(
                "Missing predicate: ",
                verb.as_str(),
                " requires a WHERE clause",
            ),
            AdbError::MissingPayload { verb } => joined3(
                "Missing payload: ",
                verb.as_str(),
                " requires data",
            ),
            AdbError::InvalidPredicate { memory_type, message } => {
                let mut s = joined3("Invalid predicate for ", memory_type.as_str(), ": ");
                s.append(message.as_str());
                s
            },
            AdbError::Timeout { budget_ms } => {
                let mut s = owned("Operation timed out after ");
                push_decimal(&mut s, *budget_ms as u128);
                s.append("ms");
                s
            },
            AdbError::UnknownBackend(m) => joined("Unknown backend: ", m.as_str()),
            AdbError::UnsupportedOperation(m) => joined3(
                "Operation '",
                m.as_str(),
                "' not supported on this backend",
            ),
            AdbError::NotFound { memory_type, id } => {
                let mut s = joined3("Record not found: ", memory_type.as_str(), "/");
                s.append(id.as_str());
                s
            },
            AdbError::CyclicDependency => owned("Cyclic dependency detected in task graph"),
            AdbError::EmbeddingError(m) => joined("Embedding error: ", m.as_str()),
            AdbError::VectorIndexError(m) => joined("Vector index error: ", m.as_str()),
            AdbError::GraphError(m) => joined("Graph error: ", m.as_str()),
            AdbError::QueryError(m) => joined("Query execution error: ", m.as_str()),
            AdbError::SerializationError(m) => joined("Serialization error: ", m.as_str()),
            AdbError::LinkError(m) => joined("Link error: ", m.as_str()),
            AdbError::InvalidLink => owned("Invalid link: source or target not found"),
            AdbError::ConfigError(m) => joined("Configuration error: ", m.as_str()),
            AdbError::Internal(m) => joined("Internal error: ", m.as_str()),
        }
    }
}

} // verus!
