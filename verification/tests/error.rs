use billkeeper::error::{
    AuthError, CreateLlamaCppRunnerError, CreateTaskError, GetTaskError, RunTaskError, RunnerError,
};

#[test]
fn auth_errors_have_their_status_and_text() {
    assert_eq!(AuthError::InvalidKey.status(), 401);
    assert_eq!(AuthError::InvalidKey.to_string(), "invalid key");
    assert_eq!(AuthError::InvalidRequestHeader.status(), 400);
    assert_eq!(AuthError::InvalidRequestHeader.to_string(), "invalid request header");
    assert_eq!(AuthError::InvalidKey.clone(), AuthError::InvalidKey);
}

#[test]
fn create_task_errors_are_bad_requests() {
    let cases = [
        (CreateTaskError::InvalidRequest("bad boundary".to_string()), "invalid request: bad boundary"),
        (CreateTaskError::MissingField("image".to_string()), "missing field: image"),
        (CreateTaskError::UnknownField("img".to_string()), "unknown field: img"),
        (CreateTaskError::InvalidField("lm_sampling".to_string()), "invalid field: lm_sampling"),
    ];
    for (error, text) in cases {
        assert_eq!(error.status(), 400);
        assert_eq!(error.to_string(), text);
        assert_eq!(error.clone(), error);
    }
}

#[test]
fn get_task_errors_have_their_status_and_text() {
    assert_eq!(GetTaskError::NotFound.status(), 404);
    assert_eq!(GetTaskError::NotFound.to_string(), "task not found");
    let internal = GetTaskError::Internal("unexpected end of file".to_string());
    assert_eq!(internal.status(), 500);
    assert_eq!(internal.to_string(), "unexpected end of file");
    assert_eq!(internal.clone(), internal);
}

#[test]
fn runner_errors_name_their_stage() {
    let cases = [
        (RunnerError::LoadContext("a".to_string()), "load context: a"),
        (RunnerError::LoadChatTemplate("b".to_string()), "load chat template: b"),
        (RunnerError::ApplyChatTemplate("c".to_string()), "apply chat template: c"),
        (RunnerError::MtmdTokenize("d".to_string()), "mtmd tokenize: d"),
        (RunnerError::RunTask("e".to_string()), "token-string conversion: e"),
        (RunnerError::BatchAdd("f".to_string()), "batch add: f"),
        (RunnerError::MtmdEval("g".to_string()), "mtmd eval: g"),
        (RunnerError::BatchDecode("h".to_string()), "batch decode: h"),
        (RunnerError::Llguidance("i".to_string()), "llguidance: i"),
    ];
    for (error, text) in cases {
        assert_eq!(error.to_string(), text);
        assert_eq!(error.clone(), error);
    }
}

#[test]
fn run_task_errors_have_their_text() {
    let cases = [
        (RunTaskError::Generic("model not found".to_string()), "model not found"),
        (
            RunTaskError::Runner(RunnerError::MtmdEval("code 1".to_string())),
            "runner: mtmd eval: code 1",
        ),
        (
            RunTaskError::EmptyAmount("Amount: n/a".to_string()),
            "empty amount, model responded with Amount: n/a",
        ),
        (
            RunTaskError::InvalidInputImage("unsupported format".to_string()),
            "invalid image in request: unsupported format",
        ),
    ];
    for (error, text) in cases {
        assert_eq!(error.to_string(), text);
        assert_eq!(error.clone(), error);
    }
}

#[test]
fn runner_setup_errors_name_their_step() {
    let cases = [
        (CreateLlamaCppRunnerError::HfHub("offline".to_string()), "hf hub: offline"),
        (CreateLlamaCppRunnerError::LoadModel("bad magic".to_string()), "load model: bad magic"),
        (CreateLlamaCppRunnerError::LoadMtmd("no file".to_string()), "load mtmd: no file"),
        (
            CreateLlamaCppRunnerError::LoadChatTemplate("missing".to_string()),
            "load chat template: missing",
        ),
    ];
    for (error, text) in cases {
        assert_eq!(error.to_string(), text);
        assert_eq!(error.clone(), error);
    }
}
