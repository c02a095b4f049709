//! The errors the library reports by kind.
use vstd::prelude::*;

verus! {

/// Errors with a fixed meaning across commands.
pub enum ArkError {
    NotInitialized,
    AlreadyInitialized,
    NoSchemas,
    UnknownType(String),
    UnknownField { artifact_type: String, field: String },
    ArtifactNotFound(String),
    SchemaError { path: String, message: String },
}


impl ArkError {
    /// The message printed for this error.
    pub fn message(&self) -> (r: String)
        ensures
            r@ == match self {
                ArkError::NotInitialized => "not an ark project (no .ark/ directory found). Run `ark init` to set up."@,
                ArkError::AlreadyInitialized => "ark is already initialized in this directory"@,
                ArkError::NoSchemas => "no schemas defined in .ark/schemas/. Create schema files to define artifact types."@,
                ArkError::UnknownType(t) => "unknown artifact type: "@ + t@ + ". Run `ark types` to see available types."@,
                ArkError::UnknownField { artifact_type, field } => "unknown field '"@ + field@
                    + "' on artifact type '"@ + artifact_type@ + "'. Run `ark fields "@ + artifact_type@
                    + "` to see available fields."@,
                ArkError::ArtifactNotFound(id) => "artifact not found: "@ + id@,
                ArkError::SchemaError { path, message } => "schema error in "@ + path@ + ": "@ + message@,
            },
    {
        let mut r = String::new();
        match self {
            ArkError::NotInitialized => {
                r.append("not an ark project (no .ark/ directory found). Run `ark init` to set up.");
            },
            ArkError::AlreadyInitialized => {
                r.append("ark is already initialized in this directory");
            },
            ArkError::NoSchemas => {
                r.append("no schemas defined in .ark/schemas/. Create schema files to define artifact types.");
            },
            ArkError::UnknownType(t) => {
                r.append("unknown artifact type: ");
                r.append(t.as_str());
                r.append(". Run `ark types` to see available types.");
            },
            ArkError::UnknownField { artifact_type, field } => {
                r.append("unknown field '");
                r.append(field.as_str());
                r.append("' on artifact type '");
                r.append(artifact_type.as_str());
                r.append("'. Run `ark fields ");
                r.append(artifact_type.as_str());
                r.append("` to see available fields.");
            },
            ArkError::ArtifactNotFound(id) => {
                r.append("artifact not found: ");
                r.append(id.as_str());
            },
            ArkError::SchemaError { path, message } => {
                r.append("schema error in ");
                r.append(path.as_str());
                r.append(": ");
                r.append(message.as_str());
            },
        }
        r
    }
}

} // verus!
