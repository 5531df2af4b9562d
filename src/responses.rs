use vstd::prelude::*;
use vstd::string::StringExecFns;

verus! {

/// A response body that carries only a message.
#[derive(Clone, Debug, PartialEq, Eq)]
pub struct ErrorResponse {
    pub message: String,
}

/// The response body of a successful ingest.
#[derive(Clone, Debug, PartialEq, Eq)]
pub struct EmbeddingsResponse {
    pub project_name: String,
    pub project_path: String,
    pub message: String,
}

impl ErrorResponse {
    /// The message for a project that does not exist.
    pub fn project_not_found(project_name: &str) -> (r: ErrorResponse)
        ensures
            r.message@ == "Project "@ + project_name@ + " not found"@,
    {
        let mut message = String::from_str("Project ");
        message.append(project_name);
        message.append(" not found");
        ErrorResponse { message }
    }

    /// The message for a deleted project.
    pub fn project_deleted(project_name: &str) -> (r: ErrorResponse)
        ensures
            r.message@ == "Deleted project "@ + project_name@,
    {
        let mut message = String::from_str("Deleted project ");
        message.append(project_name);
        ErrorResponse { message }
    }
}

impl EmbeddingsResponse {
    /// The response after embeddings were generated for `project_name` from the code
    /// at `project_path`.
    pub fn generated(project_name: &str, project_path: &str) -> (r: EmbeddingsResponse)
        ensures
            r.project_name@ == project_name@,
            r.project_path@ == project_path@,
            r.message@ == "Generated embeddings for "@ + project_name@,
    {
        let mut message = String::from_str("Generated embeddings for ");
        message.append(project_name);
        EmbeddingsResponse {
            project_name: project_name.to_owned(),
            project_path: project_path.to_owned(),
            message,
        }
    }
}

} // verus!
