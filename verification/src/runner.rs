//! Requests to the local model runner, and the course of one streamed answer.

use crate::sample::{LlguidanceSamplingParams, SimpleSamplingParams};
use vstd::prelude::*;
use vstd::string::*;

verus! {

/// The repository of the model that is used unless told otherwise.
pub const DEFAULT_MODEL_ID: &'static str = "google/gemma-3-4b-it-qat-q4_0-gguf";

/// The file of the model in that repository.
pub const DEFAULT_MODEL_FILENAME: &'static str = "gemma-3-4b-it-q4_0.gguf";

/// The file of the image projector in that repository.
pub const DEFAULT_MULTIMODEL_FILENAME: &'static str = "mmproj-model-f16-4B.gguf";

/// The size of the context window of an answer, in tokens.
pub const CONTEXT_SIZE: u32 = 10240;

/// Who a message of a conversation is from.
#[derive(Debug, Clone, Copy, PartialEq, Eq, Structural)]
pub enum MessageRole {
    Assistant,
    User,
    System,
}

impl MessageRole {
    /// The name of the role in a chat template.
    pub open spec fn name(&self) -> Seq<char> {
        match self {
            MessageRole::Assistant => "assistant"@,
            MessageRole::User => "user"@,
            MessageRole::System => "system"@,
        }
    }

    pub fn to_string(&self) -> (out: String)
        ensures
            out@ == self.name(),
    {
        match self {
            MessageRole::Assistant => String::from_str("assistant"),
            MessageRole::User => String::from_str("user"),
            MessageRole::System => String::from_str("system"),
        }
    }

    /// Whether two roles are the same role.
    pub fn same(&self, other: &MessageRole) -> (yes: bool)
        ensures
            yes == (*self == *other),
    {
        match (self, other) {
            (MessageRole::Assistant, MessageRole::Assistant) => true,
            (MessageRole::User, MessageRole::User) => true,
            (MessageRole::System, MessageRole::System) => true,
            _ => false,
        }
    }
}

/// One part of a message to a vision-language model: text, or an image of
/// type `I`, which is carried along and never looked into.
#[derive(Debug)]
pub enum ImageOrText<I> {
    Text(String),
    Image(I),
}

/// A request to a model: the conversation so far and how to sample the answer.
#[derive(Debug)]
pub struct RunnerRequest<M> {
    pub messages: Vec<(MessageRole, M)>,
    pub sampling: SimpleSamplingParams,
    pub llguidance: Option<LlguidanceSamplingParams>,
    /// The most pieces that the answer may have.
    pub max_seq: usize,
}

impl<M> Default for RunnerRequest<M> {
    /// A request without messages, with plain sampling, without a grammar
    /// and without a limit on the length of the answer.
    fn default() -> (out: Self)
        ensures
            out.messages@.len() == 0,
            out.sampling == SimpleSamplingParams::plain(),
            out.llguidance is None,
            out.max_seq == usize::MAX,
    {
        RunnerRequest {
            messages: Vec::new(),
            sampling: SimpleSamplingParams::default(),
            llguidance: None,
            max_seq: usize::MAX,
        }
    }
}

/// A request of text messages.
pub type TextLmRequest = RunnerRequest<String>;

/// The request of text messages as a request to a vision-language model:
/// every message becomes a text part; all else stays.
pub fn into_vision_request<I>(request: RunnerRequest<String>) -> (out: RunnerRequest<ImageOrText<I>>)
    ensures
        out.messages@.len() == request.messages@.len(),
        forall|i: int|
            0 <= i < out.messages@.len() ==> (#[trigger] out.messages@[i]) == (
                request.messages@[i].0,
                ImageOrText::<I>::Text(request.messages@[i].1),
            ),
        out.sampling == request.sampling,
        out.llguidance == request.llguidance,
        out.max_seq == request.max_seq,
{
    let RunnerRequest { messages, sampling, llguidance, max_seq } = request;
    let ghost given = messages@;
    let mut rest = messages;
    let mut turned: Vec<(MessageRole, ImageOrText<I>)> = Vec::new();
    // take the messages from the back, then put them in order again
    while rest.len() > 0
        invariant
            rest@.len() + turned@.len() == given.len(),
            rest@ == given.take(rest@.len() as int),
            forall|i: int|
                0 <= i < turned@.len() ==> (#[trigger] turned@[i]) == (
                    given[given.len() - 1 - i].0,
                    ImageOrText::<I>::Text(given[given.len() - 1 - i].1),
                ),
        decreases rest@.len(),
    {
        let (role, text) = rest.pop().unwrap();
        turned.push((role, ImageOrText::Text(text)));
    }
    let mut out_messages: Vec<(MessageRole, ImageOrText<I>)> = Vec::new();
    while turned.len() > 0
        invariant
            out_messages@.len() + turned@.len() == given.len(),
            forall|i: int|
                0 <= i < turned@.len() ==> (#[trigger] turned@[i]) == (
                    given[given.len() - 1 - i].0,
                    ImageOrText::<I>::Text(given[given.len() - 1 - i].1),
                ),
            forall|i: int|
                0 <= i < out_messages@.len() ==> (#[trigger] out_messages@[i]) == (
                    given[i].0,
                    ImageOrText::<I>::Text(given[i].1),
                ),
        decreases turned@.len(),
    {
        let message = turned.pop().unwrap();
        out_messages.push(message);
    }
    RunnerRequest { messages: out_messages, sampling, llguidance, max_seq }
}

/// The text that stands for a part in the prompt: the text itself, or the
/// marker of an image.
pub open spec fn part_text<I>(part: ImageOrText<I>, marker: Seq<char>) -> Seq<char> {
    match part {
        ImageOrText::Text(t) => t@,
        ImageOrText::Image(_) => marker,
    }
}

/// The conversation as the chat template takes it: every part as text, and
/// neighbouring parts of one role joined into one message, a line for each.
pub open spec fn flattened<I>(
    messages: Seq<(MessageRole, ImageOrText<I>)>,
    marker: Seq<char>,
) -> Seq<(MessageRole, Seq<char>)>
    decreases messages.len(),
{
    if messages.len() == 0 {
        Seq::empty()
    } else {
        let before = flattened(messages.drop_last(), marker);
        let (role, part) = messages.last();
        let text = part_text(part, marker);
        if before.len() > 0 && before.last().0 == role {
            before.drop_last().push((role, before.last().1 + seq!['\n'] + text))
        } else {
            before.push((role, text))
        }
    }
}

/// The messages of a vector as mathematics.
pub open spec fn message_views(messages: Seq<(MessageRole, String)>) -> Seq<(MessageRole, Seq<char>)> {
    messages.map_values(|m: (MessageRole, String)| (m.0, m.1@))
}

/// Prepares a conversation for the chat template: every part becomes text,
/// an image becoming `media_marker`, and neighbouring parts of one role are
/// joined into one message with a line break between them.
pub fn flatten_messages<I>(messages: &Vec<(MessageRole, ImageOrText<I>)>, media_marker: &str) -> (out:
    Vec<(MessageRole, String)>)
    ensures
        message_views(out@) == flattened(messages@, media_marker@),
{
    proof {
        reveal_strlit("\n");
    }
    let mut out: Vec<(MessageRole, String)> = Vec::new();
    let n = messages.len();
    let mut i: usize = 0;
    while i < n
        invariant
            n == messages@.len(),
            i <= n,
            "\n"@ == seq!['\n'],
            message_views(out@) == flattened(messages@.take(i as int), media_marker@),
        decreases n - i,
    {
        let ghost done = messages@.take(i as int);
        let ghost next = messages@.take(i as int + 1);
        let ghost before = message_views(out@);
        assert(next.drop_last() =~= done);
        assert(next.last() == messages@[i as int]);
        let role = messages[i].0;
        let text: &str = match &messages[i].1 {
            ImageOrText::Text(t) => t.as_str(),
            ImageOrText::Image(_) => media_marker,
        };
        assert(text@ == part_text(messages@[i as int].1, media_marker@));
        let merge = out.len() > 0 && out[out.len() - 1].0.same(&role);
        if merge {
            let (_, adjacent) = out.pop().unwrap();
            let mut joined = adjacent;
            joined.append("\n");
            joined.append(text);
            out.push((role, joined));
            assert(message_views(out@) =~= before.drop_last().push(
                (role, before.last().1 + seq!['\n'] + text@),
            ));
        } else {
            out.push((role, String::from_str(text)));
            assert(message_views(out@) =~= before.push((role, text@)));
        }
        i += 1;
    }
    assert(messages@.take(n as int) =~= messages@);
    out
}

/// How far a streamed answer has come.
#[derive(Debug, Clone, Copy, PartialEq, Eq, Structural)]
pub enum Phase {
    /// Nothing has been done yet.
    Fresh,
    /// The context window is open.
    ContextReady,
    /// The prompt has been evaluated; pieces can be sampled.
    Prepared,
    /// The answer has ended, by itself, by its limit or by a failure.
    Done,
}

/// What the stream has to do next.
#[derive(Debug, Clone, Copy, PartialEq, Eq, Structural)]
pub enum StreamAction {
    /// Nothing: the answer has ended.
    End,
    /// Open the context window and report with `context_opened`.
    OpenContext,
    /// Evaluate the prompt and report with `prepared`.
    Prepare,
    /// Sample one piece and report with `sampled`.
    Sample,
}

/// What sampling one piece led to.
#[derive(Debug, Clone, Copy, PartialEq, Eq, Structural)]
pub enum SampleOutcome {
    /// A piece of text was produced.
    Piece,
    /// The model has ended its answer.
    EndOfGeneration,
    /// Sampling or decoding failed.
    Failed,
}

/// The course of one streamed answer: at most `max_seq` pieces, and nothing
/// after the end or after a failure.
#[derive(Debug, Clone, Copy, PartialEq, Eq, Structural)]
pub struct StreamState {
    pub phase: Phase,
    /// How many pieces have been produced.
    pub step: usize,
    /// The most pieces that may be produced.
    pub max_seq: usize,
}

impl StreamState {
    /// The invariant: never more pieces than the limit.
    pub open spec fn wf(&self) -> bool {
        self.step <= self.max_seq
    }

    /// The start of an answer of at most `max_seq` pieces.
    pub fn new(max_seq: usize) -> (state: Self)
        ensures
            state == (StreamState { phase: Phase::Fresh, step: 0, max_seq }),
            state.wf(),
    {
        StreamState { phase: Phase::Fresh, step: 0, max_seq }
    }

    /// What is to be done next in this state.
    pub open spec fn action(&self) -> StreamAction {
        match self.phase {
            Phase::Done => StreamAction::End,
            Phase::Fresh => StreamAction::OpenContext,
            Phase::ContextReady => StreamAction::Prepare,
            Phase::Prepared => if self.step >= self.max_seq {
                StreamAction::End
            } else {
                StreamAction::Sample
            },
        }
    }

    /// Says what is to be done next. An answer that has reached its limit
    /// ends here.
    pub fn next_action(&mut self) -> (action: StreamAction)
        ensures
            action == old(self).action(),
            action == StreamAction::End ==> *final(self) == (StreamState {
                phase: Phase::Done,
                ..*old(self)
            }),
            action != StreamAction::End ==> *final(self) == *old(self),
    {
        match self.phase {
            Phase::Done => StreamAction::End,
            Phase::Fresh => StreamAction::OpenContext,
            Phase::ContextReady => StreamAction::Prepare,
            Phase::Prepared => {
                if self.step >= self.max_seq {
                    self.phase = Phase::Done;
                    StreamAction::End
                } else {
                    StreamAction::Sample
                }
            },
        }
    }

    /// The state after the report on opening the context window: on to the
    /// prompt if it is open, the end if it is not. A report that was not
    /// asked for changes nothing.
    pub open spec fn after_context(&self, ok: bool) -> StreamState {
        if self.phase == Phase::Fresh {
            StreamState {
                phase: if ok {
                    Phase::ContextReady
                } else {
                    Phase::Done
                },
                ..*self
            }
        } else {
            *self
        }
    }

    /// The state after the report on evaluating the prompt: on to sampling
    /// if it went well, the end if it did not. A report that was not asked
    /// for changes nothing.
    pub open spec fn after_prepare(&self, ok: bool) -> StreamState {
        if self.phase == Phase::ContextReady {
            StreamState {
                phase: if ok {
                    Phase::Prepared
                } else {
                    Phase::Done
                },
                ..*self
            }
        } else {
            *self
        }
    }

    /// The state after the report on sampling: a piece counts, the end of
    /// the answer and a failure end the stream. A report that was not asked
    /// for changes nothing.
    pub open spec fn after_sample(&self, outcome: SampleOutcome) -> StreamState {
        if self.action() == StreamAction::Sample {
            if outcome == SampleOutcome::Piece {
                StreamState { step: (self.step + 1) as usize, ..*self }
            } else {
                StreamState { phase: Phase::Done, ..*self }
            }
        } else {
            *self
        }
    }

    /// Takes in whether the context window could be opened. A failure ends
    /// the answer; the caller hands the failure out as the last item.
    pub fn context_opened(&mut self, ok: bool)
        ensures
            *final(self) == old(self).after_context(ok),
    {
        if let Phase::Fresh = self.phase {
            self.phase = if ok {
                Phase::ContextReady
            } else {
                Phase::Done
            };
        }
    }

    /// Takes in whether the prompt could be evaluated. A failure ends the
    /// answer; the caller hands the failure out as the last item.
    pub fn prepared(&mut self, ok: bool)
        ensures
            *final(self) == old(self).after_prepare(ok),
    {
        if let Phase::ContextReady = self.phase {
            self.phase = if ok {
                Phase::Prepared
            } else {
                Phase::Done
            };
        }
    }

    /// Takes in what sampling led to and says whether the stream goes on: a
    /// piece counts and the stream goes on; the end of the answer and a
    /// failure end it.
    pub fn sampled(&mut self, outcome: SampleOutcome) -> (goes_on: bool)
        ensures
            *final(self) == old(self).after_sample(outcome),
            goes_on == (old(self).action() == StreamAction::Sample && outcome
                == SampleOutcome::Piece),
            old(self).wf() ==> final(self).wf(),
    {
        let asked = match self.phase {
            Phase::Prepared => self.step < self.max_seq,
            _ => false,
        };
        if !asked {
            return false;
        }
        match outcome {
            SampleOutcome::Piece => {
                self.step = self.step + 1;
                true
            },
            _ => {
                self.phase = Phase::Done;
                false
            },
        }
    }
}

/// One thing that is reported to a stream.
pub enum Report {
    Context(bool),
    Prepare(bool),
    Sample(SampleOutcome),
}

/// The state after `report`.
pub open spec fn after_report(state: StreamState, report: Report) -> StreamState {
    match report {
        Report::Context(ok) => state.after_context(ok),
        Report::Prepare(ok) => state.after_prepare(ok),
        Report::Sample(outcome) => state.after_sample(outcome),
    }
}

/// The state after all of `reports`, in their order.
pub open spec fn after_reports(state: StreamState, reports: Seq<Report>) -> StreamState
    decreases reports.len(),
{
    if reports.len() == 0 {
        state
    } else {
        after_reports(after_report(state, reports[0]), reports.drop_first())
    }
}

/// Whatever is reported to a stream, it never counts more pieces than its
/// limit, and its limit stays what it was.
pub proof fn lemma_pieces_stay_within_limit(state: StreamState, reports: Seq<Report>)
    requires
        state.wf(),
    ensures
        after_reports(state, reports).wf(),
        after_reports(state, reports).max_seq == state.max_seq,
    decreases reports.len(),
{
    if reports.len() > 0 {
        lemma_pieces_stay_within_limit(after_report(state, reports[0]), reports.drop_first());
    }
}

/// An answer that has ended stays ended: whatever is reported afterwards,
/// nothing is to be done and no piece is counted.
pub proof fn lemma_done_is_final(state: StreamState, reports: Seq<Report>)
    requires
        state.phase == Phase::Done,
    ensures
        state.action() == StreamAction::End,
        after_reports(state, reports) == state,
    decreases reports.len(),
{
    if reports.len() > 0 {
        lemma_done_is_final(state, reports.drop_first());
    }
}

} // verus!
