use billkeeper::runner::{
    flatten_messages, into_vision_request, ImageOrText, MessageRole, Phase, RunnerRequest,
    SampleOutcome, StreamAction, StreamState, TextLmRequest, CONTEXT_SIZE, DEFAULT_MODEL_FILENAME,
    DEFAULT_MODEL_ID, DEFAULT_MULTIMODEL_FILENAME,
};
use billkeeper::sample::{
    LlguidanceSamplingParams, LlguidanceSchema, SamplerStep, SimpleSamplingParams, TOP_P_MIN_KEEP,
};

type Part = ImageOrText<u8>;

fn text(t: &str) -> Part {
    ImageOrText::Text(t.to_string())
}

fn flat(messages: Vec<(MessageRole, Part)>) -> Vec<(MessageRole, String)> {
    flatten_messages(&messages, "<__media__>")
}

#[test]
fn roles_have_their_names() {
    assert_eq!(MessageRole::Assistant.to_string(), "assistant");
    assert_eq!(MessageRole::User.to_string(), "user");
    assert_eq!(MessageRole::System.to_string(), "system");
    assert!(MessageRole::User.same(&MessageRole::User));
    assert!(!MessageRole::User.same(&MessageRole::System));
    assert!(!MessageRole::Assistant.same(&MessageRole::User));
}

#[test]
fn neighbouring_parts_of_one_role_become_one_message() {
    let (assistant, system, user) = (MessageRole::Assistant, MessageRole::System, MessageRole::User);
    assert_eq!(flat(vec![]), vec![]);
    assert_eq!(flat(vec![(user, text("hi"))]), vec![(user, "hi".to_string())]);
    assert_eq!(
        flat(vec![
            (system, text("be brief")),
            (user, ImageOrText::Image(1)),
            (user, text("what is this?")),
            (user, ImageOrText::Image(2)),
            (assistant, text("a receipt")),
            (user, text("how much?")),
        ]),
        vec![
            (system, "be brief".to_string()),
            (user, "<__media__>\nwhat is this?\n<__media__>".to_string()),
            (assistant, "a receipt".to_string()),
            (user, "how much?".to_string()),
        ]
    );
    assert_eq!(
        flat(vec![(user, text("")), (user, text(""))]),
        vec![(user, "\n".to_string())]
    );
}

#[test]
fn a_text_request_becomes_a_vision_request() {
    let mut request: TextLmRequest = RunnerRequest::default();
    assert!(request.messages.is_empty());
    assert_eq!(request.max_seq, usize::MAX);
    assert_eq!(request.sampling, SimpleSamplingParams::default());
    assert_eq!(request.llguidance, None);
    request.messages.push((MessageRole::System, "s".to_string()));
    request.messages.push((MessageRole::User, "u".to_string()));
    request.messages.push((MessageRole::User, "v".to_string()));
    request.max_seq = 12;
    request.sampling.top_k = Some(3);
    request.llguidance = Some(LlguidanceSamplingParams {
        schema: LlguidanceSchema::Lark,
        data: "start: /[0-9]+/".to_string(),
    });
    let vision: RunnerRequest<Part> = into_vision_request(request);
    assert_eq!(vision.max_seq, 12);
    assert_eq!(vision.sampling.top_k, Some(3));
    assert_eq!(vision.llguidance.unwrap().data, "start: /[0-9]+/");
    assert_eq!(vision.messages.len(), 3);
    let expected = [(MessageRole::System, "s"), (MessageRole::User, "u"), (MessageRole::User, "v")];
    for ((role, part), (expected_role, expected_text)) in vision.messages.iter().zip(expected) {
        assert_eq!(*role, expected_role);
        match part {
            ImageOrText::Text(t) => assert_eq!(t, expected_text),
            ImageOrText::Image(_) => panic!("a text became an image"),
        }
    }
}

#[test]
fn a_stream_opens_prepares_and_samples_up_to_its_limit() {
    let mut stream = StreamState::new(2);
    assert_eq!(stream, StreamState { phase: Phase::Fresh, step: 0, max_seq: 2 });
    assert_eq!(stream.next_action(), StreamAction::OpenContext);
    stream.context_opened(true);
    assert_eq!(stream.next_action(), StreamAction::Prepare);
    stream.prepared(true);
    assert_eq!(stream.next_action(), StreamAction::Sample);
    assert!(stream.sampled(SampleOutcome::Piece));
    assert_eq!(stream.step, 1);
    assert_eq!(stream.next_action(), StreamAction::Sample);
    assert!(stream.sampled(SampleOutcome::Piece));
    assert_eq!(stream.step, 2);
    // the limit is reached
    assert_eq!(stream.next_action(), StreamAction::End);
    assert_eq!(stream.phase, Phase::Done);
    assert_eq!(stream.next_action(), StreamAction::End);
    assert_eq!(stream.step, 2);
}

#[test]
fn a_stream_ends_with_the_answer_or_a_failure() {
    let mut stream = StreamState::new(usize::MAX);
    stream.context_opened(true);
    stream.prepared(true);
    assert_eq!(stream.next_action(), StreamAction::Sample);
    assert!(!stream.sampled(SampleOutcome::EndOfGeneration));
    assert_eq!(stream.next_action(), StreamAction::End);

    let mut stream = StreamState::new(5);
    stream.context_opened(true);
    stream.prepared(true);
    assert!(stream.sampled(SampleOutcome::Piece));
    assert!(!stream.sampled(SampleOutcome::Failed));
    assert_eq!(stream, StreamState { phase: Phase::Done, step: 1, max_seq: 5 });
    assert_eq!(stream.next_action(), StreamAction::End);

    let mut stream = StreamState::new(5);
    stream.context_opened(false);
    assert_eq!(stream.next_action(), StreamAction::End);

    let mut stream = StreamState::new(5);
    stream.context_opened(true);
    stream.prepared(false);
    assert_eq!(stream.next_action(), StreamAction::End);

    let mut stream = StreamState::new(0);
    stream.context_opened(true);
    stream.prepared(true);
    assert_eq!(stream.next_action(), StreamAction::End);
}

#[test]
fn a_report_that_was_not_asked_for_changes_nothing() {
    let fresh = StreamState::new(3);
    let mut stream = fresh;
    stream.prepared(true);
    assert_eq!(stream, fresh);
    assert!(!stream.sampled(SampleOutcome::Piece));
    assert_eq!(stream, fresh);

    stream.context_opened(true);
    let ready = stream;
    stream.context_opened(false);
    assert_eq!(stream, ready);
    assert!(!stream.sampled(SampleOutcome::Failed));
    assert_eq!(stream, ready);

    let mut done = StreamState { phase: Phase::Done, step: 1, max_seq: 3 };
    done.context_opened(true);
    done.prepared(true);
    assert!(!done.sampled(SampleOutcome::Piece));
    assert_eq!(done, StreamState { phase: Phase::Done, step: 1, max_seq: 3 });

    // at the limit no piece is counted any more
    let mut full = StreamState { phase: Phase::Prepared, step: usize::MAX, max_seq: usize::MAX };
    assert!(!full.sampled(SampleOutcome::Piece));
    assert_eq!(full.step, usize::MAX);
}

#[test]
fn the_runner_defaults() {
    assert_eq!(DEFAULT_MODEL_ID, "google/gemma-3-4b-it-qat-q4_0-gguf");
    assert_eq!(DEFAULT_MODEL_FILENAME, "gemma-3-4b-it-q4_0.gguf");
    assert_eq!(DEFAULT_MULTIMODEL_FILENAME, "mmproj-model-f16-4B.gguf");
    assert_eq!(CONTEXT_SIZE, 10240);
}

#[test]
fn the_sampler_chain_follows_the_parameters() {
    let plain = SimpleSamplingParams::default();
    assert_eq!(plain.chain_with_seed(7), vec![SamplerStep::Dist(7), SamplerStep::Greedy]);
    let seeded = SimpleSamplingParams { seed: Some(11), ..plain };
    assert_eq!(seeded.to_llama(), vec![SamplerStep::Dist(11), SamplerStep::Greedy]);
    let full = SimpleSamplingParams {
        top_p_bits: Some(0.9f32.to_bits()),
        top_k: Some(40),
        temperature_bits: Some(0.7f32.to_bits()),
        seed: Some(1),
    };
    assert_eq!(
        full.to_llama(),
        vec![
            SamplerStep::Dist(1),
            SamplerStep::TopK(40),
            SamplerStep::TopP { p_bits: 0.9f32.to_bits(), min_keep: 8 },
            SamplerStep::Greedy,
        ]
    );
    assert_eq!(TOP_P_MIN_KEEP, 8);
    let only_p = SimpleSamplingParams { top_p_bits: Some(5), ..plain };
    assert_eq!(
        only_p.chain_with_seed(0),
        vec![
            SamplerStep::Dist(0),
            SamplerStep::TopP { p_bits: 5, min_keep: 8 },
            SamplerStep::Greedy
        ]
    );
}

#[test]
fn an_unseeded_chain_draws_a_seed() {
    let params = SimpleSamplingParams { top_k: Some(2), ..SimpleSamplingParams::default() };
    let mut seeds = std::collections::HashSet::new();
    for _ in 0..20 {
        let steps = params.to_llama();
        assert_eq!(steps.len(), 3);
        assert_eq!(steps[1], SamplerStep::TopK(2));
        assert_eq!(steps[2], SamplerStep::Greedy);
        match steps[0] {
            SamplerStep::Dist(seed) => {
                assert_eq!(steps, params.chain_with_seed(seed));
                seeds.insert(seed);
            }
            other => panic!("{:?}", other),
        }
    }
    assert!(seeds.len() > 1);
}

#[test]
fn grammar_kinds_have_their_names() {
    assert_eq!(LlguidanceSchema::Json.to_string(), "json");
    assert_eq!(LlguidanceSchema::Lark.to_string(), "lark");
    let params = LlguidanceSamplingParams { schema: LlguidanceSchema::Json, data: "{}".to_string() };
    assert_eq!(params.clone(), params);
}
