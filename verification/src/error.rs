//! The error values of the service, each with its message and, where it is
//! answered over HTTP, its status code.
//!
//! Failures that come from model runtimes and decoders are kept as the text
//! that they were reported with.

use crate::text::join2;
use vstd::prelude::*;
use vstd::string::*;

verus! {

/// HTTP status of a request that carries a wrong key.
pub const STATUS_UNAUTHORIZED: u16 = 401;

/// HTTP status of a request that cannot be understood.
pub const STATUS_BAD_REQUEST: u16 = 400;

/// HTTP status of a lookup that found nothing.
pub const STATUS_NOT_FOUND: u16 = 404;

/// HTTP status of a failure inside the service.
pub const STATUS_INTERNAL_SERVER_ERROR: u16 = 500;

/// Why a request was not let in.
#[derive(Debug, PartialEq, Eq, Structural)]
pub enum AuthError {
    InvalidKey,
    InvalidRequestHeader,
}

impl Clone for AuthError {
    fn clone(&self) -> (out: Self)
        ensures
            out == *self,
    {
        match self {
            AuthError::InvalidKey => AuthError::InvalidKey,
            AuthError::InvalidRequestHeader => AuthError::InvalidRequestHeader,
        }
    }
}

impl AuthError {
    /// The text shown to the client.
    pub open spec fn message(&self) -> Seq<char> {
        match self {
            AuthError::InvalidKey => "invalid key"@,
            AuthError::InvalidRequestHeader => "invalid request header"@,
        }
    }

    /// The status code of the answer.
    pub open spec fn status_spec(&self) -> u16 {
        match self {
            AuthError::InvalidKey => STATUS_UNAUTHORIZED,
            AuthError::InvalidRequestHeader => STATUS_BAD_REQUEST,
        }
    }

    pub fn to_string(&self) -> (out: String)
        ensures
            out@ == self.message(),
    {
        match self {
            AuthError::InvalidKey => String::from_str("invalid key"),
            AuthError::InvalidRequestHeader => String::from_str("invalid request header"),
        }
    }

    pub fn status(&self) -> (code: u16)
        ensures
            code == self.status_spec(),
    {
        match self {
            AuthError::InvalidKey => STATUS_UNAUTHORIZED,
            AuthError::InvalidRequestHeader => STATUS_BAD_REQUEST,
        }
    }
}

/// Why a submission could not be turned into a job descriptor.
#[derive(Debug, PartialEq, Eq)]
pub enum CreateTaskError {
    /// The request could not be read; holds the report of the reader.
    InvalidRequest(String),
    MissingField(String),
    UnknownField(String),
    InvalidField(String),
}

impl Clone for CreateTaskError {
    fn clone(&self) -> (out: Self)
        ensures
            out == *self,
    {
        match self {
            CreateTaskError::InvalidRequest(m) => CreateTaskError::InvalidRequest(m.clone()),
            CreateTaskError::MissingField(m) => CreateTaskError::MissingField(m.clone()),
            CreateTaskError::UnknownField(m) => CreateTaskError::UnknownField(m.clone()),
            CreateTaskError::InvalidField(m) => CreateTaskError::InvalidField(m.clone()),
        }
    }
}

impl CreateTaskError {
    /// The text shown to the client.
    pub open spec fn message(&self) -> Seq<char> {
        match self {
            CreateTaskError::InvalidRequest(m) => "invalid request: "@ + m@,
            CreateTaskError::MissingField(m) => "missing field: "@ + m@,
            CreateTaskError::UnknownField(m) => "unknown field: "@ + m@,
            CreateTaskError::InvalidField(m) => "invalid field: "@ + m@,
        }
    }

    pub fn to_string(&self) -> (out: String)
        ensures
            out@ == self.message(),
    {
        match self {
            CreateTaskError::InvalidRequest(m) => join2("invalid request: ", m.as_str()),
            CreateTaskError::MissingField(m) => join2("missing field: ", m.as_str()),
            CreateTaskError::UnknownField(m) => join2("unknown field: ", m.as_str()),
            CreateTaskError::InvalidField(m) => join2("invalid field: ", m.as_str()),
        }
    }

    /// Every rejected submission is answered as a bad request.
    pub fn status(&self) -> (code: u16)
        ensures
            code == STATUS_BAD_REQUEST,
    {
        STATUS_BAD_REQUEST
    }
}

/// Why a lookup gave no record.
#[derive(Debug, PartialEq, Eq)]
pub enum GetTaskError {
    NotFound,
    /// The overflow log could not be read; holds the report of the reader.
    Internal(String),
}

impl Clone for GetTaskError {
    fn clone(&self) -> (out: Self)
        ensures
            out == *self,
    {
        match self {
            GetTaskError::NotFound => GetTaskError::NotFound,
            GetTaskError::Internal(m) => GetTaskError::Internal(m.clone()),
        }
    }
}

impl GetTaskError {
    /// The text shown to the client.
    pub open spec fn message(&self) -> Seq<char> {
        match self {
            GetTaskError::NotFound => "task not found"@,
            GetTaskError::Internal(m) => m@,
        }
    }

    /// The status code of the answer.
    pub open spec fn status_spec(&self) -> u16 {
        match self {
            GetTaskError::NotFound => STATUS_NOT_FOUND,
            GetTaskError::Internal(_) => STATUS_INTERNAL_SERVER_ERROR,
        }
    }

    pub fn to_string(&self) -> (out: String)
        ensures
            out@ == self.message(),
    {
        match self {
            GetTaskError::NotFound => String::from_str("task not found"),
            GetTaskError::Internal(m) => m.clone(),
        }
    }

    pub fn status(&self) -> (code: u16)
        ensures
            code == self.status_spec(),
    {
        match self {
            GetTaskError::NotFound => STATUS_NOT_FOUND,
            GetTaskError::Internal(_) => STATUS_INTERNAL_SERVER_ERROR,
        }
    }
}

/// A failure of the local model runner; each variant holds the report of the
/// stage that failed.
#[derive(Debug, PartialEq, Eq)]
pub enum RunnerError {
    LoadContext(String),
    LoadChatTemplate(String),
    ApplyChatTemplate(String),
    MtmdTokenize(String),
    RunTask(String),
    BatchAdd(String),
    MtmdEval(String),
    BatchDecode(String),
    Llguidance(String),
}

impl Clone for RunnerError {
    fn clone(&self) -> (out: Self)
        ensures
            out == *self,
    {
        match self {
            RunnerError::LoadContext(m) => RunnerError::LoadContext(m.clone()),
            RunnerError::LoadChatTemplate(m) => RunnerError::LoadChatTemplate(m.clone()),
            RunnerError::ApplyChatTemplate(m) => RunnerError::ApplyChatTemplate(m.clone()),
            RunnerError::MtmdTokenize(m) => RunnerError::MtmdTokenize(m.clone()),
            RunnerError::RunTask(m) => RunnerError::RunTask(m.clone()),
            RunnerError::BatchAdd(m) => RunnerError::BatchAdd(m.clone()),
            RunnerError::MtmdEval(m) => RunnerError::MtmdEval(m.clone()),
            RunnerError::BatchDecode(m) => RunnerError::BatchDecode(m.clone()),
            RunnerError::Llguidance(m) => RunnerError::Llguidance(m.clone()),
        }
    }
}

impl RunnerError {
    /// The text of the failure: the stage, a colon, and the report.
    pub open spec fn message(&self) -> Seq<char> {
        match self {
            RunnerError::LoadContext(m) => "load context: "@ + m@,
            RunnerError::LoadChatTemplate(m) => "load chat template: "@ + m@,
            RunnerError::ApplyChatTemplate(m) => "apply chat template: "@ + m@,
            RunnerError::MtmdTokenize(m) => "mtmd tokenize: "@ + m@,
            RunnerError::RunTask(m) => "token-string conversion: "@ + m@,
            RunnerError::BatchAdd(m) => "batch add: "@ + m@,
            RunnerError::MtmdEval(m) => "mtmd eval: "@ + m@,
            RunnerError::BatchDecode(m) => "batch decode: "@ + m@,
            RunnerError::Llguidance(m) => "llguidance: "@ + m@,
        }
    }

    pub fn to_string(&self) -> (out: String)
        ensures
            out@ == self.message(),
    {
        match self {
            RunnerError::LoadContext(m) => join2("load context: ", m.as_str()),
            RunnerError::LoadChatTemplate(m) => join2("load chat template: ", m.as_str()),
            RunnerError::ApplyChatTemplate(m) => join2("apply chat template: ", m.as_str()),
            RunnerError::MtmdTokenize(m) => join2("mtmd tokenize: ", m.as_str()),
            RunnerError::RunTask(m) => join2("token-string conversion: ", m.as_str()),
            RunnerError::BatchAdd(m) => join2("batch add: ", m.as_str()),
            RunnerError::MtmdEval(m) => join2("mtmd eval: ", m.as_str()),
            RunnerError::BatchDecode(m) => join2("batch decode: ", m.as_str()),
            RunnerError::Llguidance(m) => join2("llguidance: ", m.as_str()),
        }
    }
}

/// Why a job ended without a bill.
#[derive(Debug, PartialEq, Eq)]
pub enum RunTaskError {
    /// Any failure that is known only by its text.
    Generic(String),
    Runner(RunnerError),
    /// No amount could be read; holds what the model answered.
    EmptyAmount(String),
    /// The submitted image could not be decoded; holds the decoder's report.
    InvalidInputImage(String),
}

impl Clone for RunTaskError {
    fn clone(&self) -> (out: Self)
        ensures
            out == *self,
    {
        match self {
            RunTaskError::Generic(m) => RunTaskError::Generic(m.clone()),
            RunTaskError::Runner(e) => RunTaskError::Runner(e.clone()),
            RunTaskError::EmptyAmount(m) => RunTaskError::EmptyAmount(m.clone()),
            RunTaskError::InvalidInputImage(m) => RunTaskError::InvalidInputImage(m.clone()),
        }
    }
}

impl RunTaskError {
    /// The text of the failure as it is stored with the finished job.
    pub open spec fn message(&self) -> Seq<char> {
        match self {
            RunTaskError::Generic(m) => m@,
            RunTaskError::Runner(e) => "runner: "@ + e.message(),
            RunTaskError::EmptyAmount(m) => "empty amount, model responded with "@ + m@,
            RunTaskError::InvalidInputImage(m) => "invalid image in request: "@ + m@,
        }
    }

    pub fn to_string(&self) -> (out: String)
        ensures
            out@ == self.message(),
    {
        match self {
            RunTaskError::Generic(m) => m.clone(),
            RunTaskError::Runner(e) => {
                let inner = e.to_string();
                join2("runner: ", inner.as_str())
            },
            RunTaskError::EmptyAmount(m) => join2("empty amount, model responded with ", m.as_str()),
            RunTaskError::InvalidInputImage(m) => join2("invalid image in request: ", m.as_str()),
        }
    }
}

/// Why the local model runner could not be set up; each variant holds the
/// report of the step that failed.
#[derive(Debug, PartialEq, Eq)]
pub enum CreateLlamaCppRunnerError {
    HfHub(String),
    LoadModel(String),
    LoadMtmd(String),
    LoadChatTemplate(String),
}

impl Clone for CreateLlamaCppRunnerError {
    fn clone(&self) -> (out: Self)
        ensures
            out == *self,
    {
        match self {
            CreateLlamaCppRunnerError::HfHub(m) => CreateLlamaCppRunnerError::HfHub(m.clone()),
            CreateLlamaCppRunnerError::LoadModel(m) => CreateLlamaCppRunnerError::LoadModel(
                m.clone(),
            ),
            CreateLlamaCppRunnerError::LoadMtmd(m) => CreateLlamaCppRunnerError::LoadMtmd(m.clone()),
            CreateLlamaCppRunnerError::LoadChatTemplate(m) => {
                CreateLlamaCppRunnerError::LoadChatTemplate(m.clone())
            },
        }
    }
}

impl CreateLlamaCppRunnerError {
    /// The text of the failure: the step, a colon, and the report.
    pub open spec fn message(&self) -> Seq<char> {
        match self {
            CreateLlamaCppRunnerError::HfHub(m) => "hf hub: "@ + m@,
            CreateLlamaCppRunnerError::LoadModel(m) => "load model: "@ + m@,
            CreateLlamaCppRunnerError::LoadMtmd(m) => "load mtmd: "@ + m@,
            CreateLlamaCppRunnerError::LoadChatTemplate(m) => "load chat template: "@ + m@,
        }
    }

    pub fn to_string(&self) -> (out: String)
        ensures
            out@ == self.message(),
    {
        match self {
            CreateLlamaCppRunnerError::HfHub(m) => join2("hf hub: ", m.as_str()),
            CreateLlamaCppRunnerError::LoadModel(m) => join2("load model: ", m.as_str()),
            CreateLlamaCppRunnerError::LoadMtmd(m) => join2("load mtmd: ", m.as_str()),
            CreateLlamaCppRunnerError::LoadChatTemplate(m) => join2(
                "load chat template: ",
                m.as_str(),
            ),
        }
    }
}

} // verus!
