use vstd::prelude::*;

verus! {

/// Failures of the shared infrastructure: cache, vector store, embedding runtime.
#[derive(Debug, Clone)]
pub enum CommonError {
    RedisUnavailable,
    VectorDb(String),
    Embedding(String),
}

/// Failures of a guideline index.
#[derive(Debug, Clone)]
pub enum AppError {
    Common(CommonError),
    Parse { line: usize, message: String },
    Git(String),
    Config(String),
    NotFound(String),
    UnknownCategory(String),
}

} // verus!
