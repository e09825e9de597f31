//! The statements that lead a database connection to a schema of its own.

use vstd::prelude::*;
use vstd::string::StringExecFns;

verus! {

/// Why a schema name was refused.
#[derive(Debug, Clone, Copy, PartialEq, Eq)]
pub enum SchemaError {
    /// The name holds a character that is neither a letter, a digit nor an
    /// underscore.
    InvalidIdentifier,
}

impl SchemaError {
    /// The error in words.
    pub fn message(&self) -> (text: String)
        ensures
            text@ == "Invalid SQL identifier"@,
    {
        String::from_str("Invalid SQL identifier")
    }
}

/// Whether Unicode counts `c` as a letter or a digit, as
/// `char::is_alphanumeric` tells it.
pub uninterp spec fn alphanumeric(c: char) -> bool;

/// `char::is_alphanumeric` of the standard library: true for the characters
/// that Unicode classes as alphabetic or numeric. The answer depends on the
/// character alone; Verus takes it on trust under the name `alphanumeric`.
pub assume_specification[ char::is_alphanumeric ](c: char) -> (answer: bool)
    ensures
        answer == alphanumeric(c),
;

/// Whether `c` may stand in an identifier: a letter, a digit or an
/// underscore.
pub open spec fn identifier_char(c: char) -> bool {
    alphanumeric(c) || c == '_'
}

/// Whether every character of `name` may stand in an identifier.
pub open spec fn is_identifier(name: Seq<char>) -> bool {
    forall|i: int| 0 <= i < name.len() ==> identifier_char(#[trigger] name[i])
}

/// Accept a name made of letters, digits and underscores, and no other.
pub fn sanitize_identifier(input: &str) -> (result: Result<(), SchemaError>)
    ensures
        result is Ok <==> is_identifier(input@),
        result is Err ==> result == Err::<(), SchemaError>(SchemaError::InvalidIdentifier),
{
    for c in it: input.chars()
        invariant
            it.seq() == input@,
            forall|j: int| 0 <= j < it.index() ==> identifier_char(#[trigger] input@[j]),
    {
        if !(c.is_alphanumeric() || c == '_') {
            return Err(SchemaError::InvalidIdentifier);
        }
    }
    Ok(())
}

/// The statements that create the schema `name` if need be and make it the
/// one that is searched.
pub open spec fn switch_schema_text(name: Seq<char>) -> Seq<char> {
    "\n        CREATE SCHEMA IF NOT EXISTS \""@ + name + "\";\n        SET search_path TO \""@
        + name + "\";\n        "@
}

/// The statements that switch to a schema, for a name that is an identifier.
pub fn sql_switch_schema(schema_name: &str) -> (result: Result<String, SchemaError>)
    ensures
        match result {
            Ok(sql) => is_identifier(schema_name@) && sql@ == switch_schema_text(schema_name@),
            Err(error) => !is_identifier(schema_name@) && error == SchemaError::InvalidIdentifier,
        },
{
    match sanitize_identifier(schema_name) {
        Err(error) => Err(error),
        Ok(()) => {
            let sql = String::from_str("\n        CREATE SCHEMA IF NOT EXISTS \"").concat(
                schema_name,
            ).concat("\";\n        SET search_path TO \"").concat(schema_name).concat(
                "\";\n        ",
            );
            Ok(sql)
        },
    }
}

} // verus!
