//! The job record: an id that never changes and a state that only moves
//! forward, `Pending`, then `Running`, then `Finished` with the outcome.

use crate::bill::{joined, Bill, Category, CategoryNames};
use crate::error::{CreateTaskError, RunTaskError};
use crate::key::{generate_random_key, is_key};
use crate::text::{
    after_first, after_last, fill_template, filled, str_eq, tail_after_first, tail_after_last, texts,
};
use regex::Regex;
use vstd::prelude::*;
use vstd::string::*;

verus! {

/// The bill that a job ended with.
#[derive(Debug, PartialEq, Eq)]
pub struct Success(pub Bill);

impl Clone for Success {
    fn clone(&self) -> (out: Self)
        ensures
            out == *self,
    {
        Success(self.0.clone())
    }
}

/// Where a job stands in its life.
#[derive(Debug, PartialEq, Eq)]
pub enum State {
    Pending,
    Running,
    Finished(Result<Success, RunTaskError>),
}

impl Clone for State {
    fn clone(&self) -> (out: Self)
        ensures
            out == *self,
    {
        match self {
            State::Pending => State::Pending,
            State::Running => State::Running,
            State::Finished(Ok(s)) => State::Finished(Ok(s.clone())),
            State::Finished(Err(e)) => State::Finished(Err(e.clone())),
        }
    }
}

impl Default for State {
    fn default() -> (out: Self)
        ensures
            out == State::Pending,
    {
        State::Pending
    }
}

/// The three state words are three different words.
pub proof fn lemma_state_names_differ()
    ensures
        "pending"@ != "running"@,
        "pending"@ != "finished"@,
        "running"@ != "finished"@,
{
    reveal_strlit("pending");
    reveal_strlit("running");
    reveal_strlit("finished");
    assert("pending"@[0] != "running"@[0]);
    assert("pending"@.len() != "finished"@.len());
    assert("running"@.len() != "finished"@.len());
}

/// Text of the synthetic failure of a record that was read as finished
/// without its outcome.
pub const MISSING_RESULT: &'static str = "deserialized finished state without result";

impl State {
    /// How far along its life a job in this state is.
    pub open spec fn rank(&self) -> nat {
        match self {
            State::Pending => 0,
            State::Running => 1,
            State::Finished(_) => 2,
        }
    }

    /// The word that stands for this state on the wire.
    pub open spec fn name(&self) -> Seq<char> {
        match self {
            State::Pending => "pending"@,
            State::Running => "running"@,
            State::Finished(_) => "finished"@,
        }
    }

    /// Whether a job in this state may move to `next`: only forward.
    pub open spec fn may_advance_to(&self, next: &State) -> bool {
        self.rank() < next.rank()
    }

    /// How far along its life a job in this state is: 0, 1 or 2.
    pub fn stage(&self) -> (r: u8)
        ensures
            r == self.rank(),
    {
        match self {
            State::Pending => 0,
            State::Running => 1,
            State::Finished(_) => 2,
        }
    }

    pub fn to_string(&self) -> (out: String)
        ensures
            out@ == self.name(),
    {
        match self {
            State::Pending => String::from_str("pending"),
            State::Running => String::from_str("running"),
            State::Finished(_) => String::from_str("finished"),
        }
    }

    /// Reads a state from its word alone.
    ///
    /// `"finished"` without an outcome beside it is read as finished with the
    /// synthetic failure `MISSING_RESULT`, never as a success. Any word other
    /// than the three state names is refused.
    pub fn from_name(name: &str) -> (out: Result<State, DecodeError>)
        ensures
            name@ == "pending"@ ==> out == Ok::<_, DecodeError>(State::Pending),
            name@ == "running"@ ==> out == Ok::<_, DecodeError>(State::Running),
            name@ == "finished"@ ==> {
                &&& out matches Ok(State::Finished(Err(RunTaskError::Generic(m))))
                &&& m@ == MISSING_RESULT@
            },
            name@ != "pending"@ && name@ != "running"@ && name@ != "finished"@ ==> {
                &&& out matches Err(DecodeError::UnknownState(s))
                &&& s@ == name@
            },
    {
        proof {
            lemma_state_names_differ();
        }
        if str_eq(name, "pending") {
            Ok(State::Pending)
        } else if str_eq(name, "running") {
            Ok(State::Running)
        } else if str_eq(name, "finished") {
            Ok(State::Finished(Err(RunTaskError::Generic(String::from_str(MISSING_RESULT)))))
        } else {
            Err(DecodeError::UnknownState(String::from_str(name)))
        }
    }
}

/// Why a record on the wire could not be read.
#[derive(Debug, PartialEq, Eq)]
pub enum DecodeError {
    /// The state word is none of the three state names; holds the word.
    UnknownState(String),
    /// The state is `"finished"` and neither a success nor an error is there.
    FinishedWithoutResult,
}

impl DecodeError {
    pub open spec fn message(&self) -> Seq<char> {
        match self {
            DecodeError::UnknownState(s) => "unknown state: "@ + s@,
            DecodeError::FinishedWithoutResult => "finished state without success or error"@,
        }
    }

    pub fn to_string(&self) -> (out: String)
        ensures
            out@ == self.message(),
    {
        match self {
            DecodeError::UnknownState(s) => crate::text::join2("unknown state: ", s.as_str()),
            DecodeError::FinishedWithoutResult => String::from_str(
                "finished state without success or error",
            ),
        }
    }
}

/// A job record as mathematics: the characters of its id and its state.
pub struct TaskView {
    pub id: Seq<char>,
    pub state: State,
}

impl TaskView {
    /// The same job in another state.
    pub open spec fn with_state(self, state: State) -> TaskView {
        TaskView { id: self.id, state }
    }
}

/// The identity and the state of one submitted job.
#[derive(Debug, PartialEq, Eq)]
pub struct TaskControlBlock {
    id: String,
    state: State,
}

impl View for TaskControlBlock {
    type V = TaskView;

    closed spec fn view(&self) -> TaskView {
        TaskView { id: self.id@, state: self.state }
    }
}

impl Clone for TaskControlBlock {
    fn clone(&self) -> (out: Self)
        ensures
            out == *self,
    {
        TaskControlBlock { id: self.id.clone(), state: self.state.clone() }
    }
}

/// A job record as it travels: the id, the state word, and, for a finished
/// job, the bill or the text of the failure.
#[derive(Debug, PartialEq, Eq)]
pub struct TaskData {
    pub id: String,
    pub state: String,
    pub success: Option<Success>,
    pub error: Option<String>,
}

impl TaskData {
    /// Whether this is the wire form of the record `task`.
    pub open spec fn is_form_of(&self, task: TaskView) -> bool {
        &&& self.id@ == task.id
        &&& self.state@ == task.state.name()
        &&& match task.state {
            State::Finished(Ok(s)) => self.success == Some(s) && self.error is None,
            State::Finished(Err(e)) => {
                &&& self.success is None
                &&& self.error matches Some(m)
                &&& m@ == e.message()
            },
            _ => self.success is None && self.error is None,
        }
    }

    /// Whether reading this wire form gives `out`.
    ///
    /// A finished record with a bill is a success, whatever stands in the
    /// error field; one with only an error text is a failure that is known
    /// by that text; one with neither is refused, and so is an unknown
    /// state word. The outcome fields of an unfinished record are ignored.
    pub open spec fn reads_as(&self, out: Result<TaskView, DecodeError>) -> bool {
        if self.state@ == "pending"@ {
            out == Ok::<_, DecodeError>(TaskView { id: self.id@, state: State::Pending })
        } else if self.state@ == "running"@ {
            out == Ok::<_, DecodeError>(TaskView { id: self.id@, state: State::Running })
        } else if self.state@ == "finished"@ {
            match (self.success, self.error) {
                (Some(s), _) => out == Ok::<_, DecodeError>(
                    TaskView { id: self.id@, state: State::Finished(Ok(s)) },
                ),
                (None, Some(m)) => {
                    &&& out matches Ok(t)
                    &&& t.id == self.id@
                    &&& t.state matches State::Finished(Err(RunTaskError::Generic(g)))
                    &&& g@ == m@
                },
                (None, None) => out == Err::<TaskView, _>(DecodeError::FinishedWithoutResult),
            }
        } else {
            &&& out matches Err(DecodeError::UnknownState(s))
            &&& s@ == self.state@
        }
    }

    /// How many fields of this form are written: the outcome fields only when
    /// the state word is `"finished"`.
    pub fn field_count(&self) -> (n: usize)
        ensures
            n == if self.state@ == "finished"@ {
                4usize
            } else {
                2usize
            },
    {
        if str_eq(self.state.as_str(), "finished") {
            4
        } else {
            2
        }
    }
}

impl TaskControlBlock {
    /// A new pending job under a fresh random id.
    pub fn new() -> (task: Self)
        ensures
            is_key(task@.id),
            task@.state == State::Pending,
    {
        TaskControlBlock { id: generate_random_key(), state: State::Pending }
    }

    /// A new pending job under the given id.
    pub fn with_id(id: String) -> (task: Self)
        ensures
            task@ == (TaskView { id: id@, state: State::Pending }),
    {
        TaskControlBlock { id, state: State::Pending }
    }

    pub fn id(&self) -> (id: &str)
        ensures
            id@ == self@.id,
    {
        self.id.as_str()
    }

    /// A snapshot of the state.
    pub fn state(&self) -> (state: State)
        ensures
            state == self@.state,
    {
        self.state.clone()
    }

    /// Whether this record carries the id `id`.
    pub fn has_id(&self, id: &str) -> (same: bool)
        ensures
            same == (self@.id == id@),
    {
        str_eq(self.id.as_str(), id)
    }

    /// Moves the job to `state` if that is a step forward and says whether it
    /// was; a step sideways or backwards leaves the record as it is.
    pub fn set_state(&mut self, state: State) -> (advanced: bool)
        ensures
            advanced == old(self)@.state.may_advance_to(&state),
            advanced ==> final(self)@ == old(self)@.with_state(state),
            !advanced ==> final(self)@ == old(self)@,
    {
        if self.state.stage() < state.stage() {
            self.state = state;
            true
        } else {
            false
        }
    }

    /// Whether the job has ended.
    pub fn is_finished(&self) -> (yes: bool)
        ensures
            yes == (self@.state is Finished),
    {
        match &self.state {
            State::Finished(_) => true,
            _ => false,
        }
    }

    /// The wire form of this record.
    pub fn to_data(&self) -> (data: TaskData)
        ensures
            data.is_form_of(self@),
    {
        let (success, error) = match &self.state {
            State::Finished(Ok(s)) => (Some(s.clone()), None),
            State::Finished(Err(e)) => (None, Some(e.to_string())),
            _ => (None, None),
        };
        TaskData { id: self.id.clone(), state: self.state.to_string(), success, error }
    }

    /// Reads a record from its wire form.
    pub fn from_data(data: TaskData) -> (out: Result<Self, DecodeError>)
        ensures
            data.reads_as(
                match out {
                    Ok(t) => Ok(t@),
                    Err(e) => Err(e),
                },
            ),
    {
        proof {
            lemma_state_names_differ();
        }
        let TaskData { id, state, success, error } = data;
        let state = if str_eq(state.as_str(), "pending") {
            State::Pending
        } else if str_eq(state.as_str(), "running") {
            State::Running
        } else if str_eq(state.as_str(), "finished") {
            match success {
                Some(s) => State::Finished(Ok(s)),
                None => match error {
                    Some(m) => State::Finished(Err(RunTaskError::Generic(m))),
                    None => {
                        return Err(DecodeError::FinishedWithoutResult);
                    },
                },
            }
        } else {
            return Err(DecodeError::UnknownState(state));
        };
        Ok(TaskControlBlock { id, state })
    }
}

/// What a finished record keeps on its way through the wire form: its id,
/// that it is finished, its bill if it has one, and otherwise the text of
/// its failure.
pub open spec fn same_outcome(before: TaskView, after: TaskView) -> bool {
    &&& after.id == before.id
    &&& match before.state {
        State::Finished(Ok(s)) => after.state == State::Finished(Ok(s)),
        State::Finished(Err(e)) => {
            &&& after.state matches State::Finished(Err(g))
            &&& g.message() == e.message()
        },
        _ => after.state == before.state,
    }
}

/// A record that is written to its wire form and read back is the record
/// that was written: same id, same state, same bill or same failure text.
pub proof fn lemma_wire_roundtrip(task: TaskView, data: TaskData, out: Result<TaskView, DecodeError>)
    requires
        data.is_form_of(task),
        data.reads_as(out),
    ensures
        out matches Ok(back) && same_outcome(task, back),
{
    lemma_state_names_differ();
}

/// What a job is to work on: the bytes of an image and, for each of the two
/// models, sampling parameters if the caller gave any. `S` is the type of
/// the sampling parameters, which are carried along and never looked into.
#[derive(Debug)]
pub struct TaskDescriptor<S> {
    image_buf: Vec<u8>,
    lm_sampling: Option<S>,
    vlm_sampling: Option<S>,
}

/// The name of the form field that carries the image.
pub const IMAGE_FIELD: &'static str = "image";

/// The name of the form field that carries the sampling parameters of the language model.
pub const LM_SAMPLING_FIELD: &'static str = "lm_sampling";

/// The name of the form field that carries the sampling parameters of the
/// vision-language model.
pub const VLM_SAMPLING_FIELD: &'static str = "vlm_sampling";

/// The content type that a field of sampling parameters may declare.
pub const JSON_MIME: &'static str = "application/json";

/// What a field of a submission form holds.
#[derive(Debug, Clone, Copy, PartialEq, Eq, Structural)]
pub enum FormField {
    Image,
    LmSampling,
    VlmSampling,
}

/// The three field names are three different names.
pub proof fn lemma_field_names_differ()
    ensures
        IMAGE_FIELD@ != LM_SAMPLING_FIELD@,
        IMAGE_FIELD@ != VLM_SAMPLING_FIELD@,
        LM_SAMPLING_FIELD@ != VLM_SAMPLING_FIELD@,
{
    reveal_strlit("image");
    reveal_strlit("lm_sampling");
    reveal_strlit("vlm_sampling");
    assert(IMAGE_FIELD@.len() != LM_SAMPLING_FIELD@.len());
    assert(IMAGE_FIELD@.len() != VLM_SAMPLING_FIELD@.len());
    assert(LM_SAMPLING_FIELD@.len() != VLM_SAMPLING_FIELD@.len());
}

/// Decides what a form field is from its name and the content type that it
/// declares, if it declares one.
///
/// The image field is taken whatever its content type. A field of sampling
/// parameters that declares a content type other than JSON is an invalid
/// field. A field under any other name is an unknown field.
pub fn classify_field(name: &str, content_type: Option<&str>) -> (out: Result<
    FormField,
    CreateTaskError,
>)
    ensures
        name@ == IMAGE_FIELD@ ==> out == Ok::<_, CreateTaskError>(FormField::Image),
        (name@ == LM_SAMPLING_FIELD@ || name@ == VLM_SAMPLING_FIELD@) && (content_type matches Some(
            m,
        ) && m@ != JSON_MIME@) ==> ({
            &&& out matches Err(CreateTaskError::InvalidField(f))
            &&& f@ == name@
        }),
        name@ == LM_SAMPLING_FIELD@ && !(content_type matches Some(m) && m@ != JSON_MIME@) ==> out
            == Ok::<_, CreateTaskError>(FormField::LmSampling),
        name@ == VLM_SAMPLING_FIELD@ && !(content_type matches Some(m) && m@ != JSON_MIME@) ==> out
            == Ok::<_, CreateTaskError>(FormField::VlmSampling),
        name@ != IMAGE_FIELD@ && name@ != LM_SAMPLING_FIELD@ && name@ != VLM_SAMPLING_FIELD@ ==> ({
            &&& out matches Err(CreateTaskError::UnknownField(f))
            &&& f@ == name@
        }),
{
    proof {
        lemma_field_names_differ();
    }
    if str_eq(name, IMAGE_FIELD) {
        return Ok(FormField::Image);
    }
    let is_lm = str_eq(name, LM_SAMPLING_FIELD);
    if is_lm || str_eq(name, VLM_SAMPLING_FIELD) {
        if let Some(mime) = content_type {
            if !str_eq(mime, JSON_MIME) {
                return Err(CreateTaskError::InvalidField(String::from_str(name)));
            }
        }
        if is_lm {
            Ok(FormField::LmSampling)
        } else {
            Ok(FormField::VlmSampling)
        }
    } else {
        Err(CreateTaskError::UnknownField(String::from_str(name)))
    }
}

impl<S> TaskDescriptor<S> {
    /// Builds the descriptor from what the form held. A form without an
    /// image is refused as missing the image field.
    pub fn from_fields(image: Option<Vec<u8>>, lm_sampling: Option<S>, vlm_sampling: Option<S>) -> (out:
        Result<Self, CreateTaskError>)
        ensures
            match image {
                Some(bytes) => {
                    &&& out matches Ok(d)
                    &&& d.image_view() == bytes@
                    &&& d.lm_sampling_view() == lm_sampling
                    &&& d.vlm_sampling_view() == vlm_sampling
                },
                None => {
                    &&& out matches Err(CreateTaskError::MissingField(f))
                    &&& f@ == IMAGE_FIELD@
                },
            },
    {
        match image {
            Some(image_buf) => Ok(TaskDescriptor { image_buf, lm_sampling, vlm_sampling }),
            None => Err(CreateTaskError::MissingField(String::from_str(IMAGE_FIELD))),
        }
    }

    /// The bytes of the image.
    pub closed spec fn image_view(&self) -> Seq<u8> {
        self.image_buf@
    }

    /// The sampling parameters for the language model.
    pub closed spec fn lm_sampling_view(&self) -> Option<S> {
        self.lm_sampling
    }

    /// The sampling parameters for the vision-language model.
    pub closed spec fn vlm_sampling_view(&self) -> Option<S> {
        self.vlm_sampling
    }

    pub fn image_bytes(&self) -> (bytes: &[u8])
        ensures
            bytes@ == self.image_view(),
    {
        self.image_buf.as_slice()
    }

    pub fn lm_sampling(&self) -> (sampling: Option<&S>)
        ensures
            match sampling {
                Some(s) => self.lm_sampling_view() == Some(*s),
                None => self.lm_sampling_view() is None,
            },
    {
        self.lm_sampling.as_ref()
    }

    pub fn vlm_sampling(&self) -> (sampling: Option<&S>)
        ensures
            match sampling {
                Some(s) => self.vlm_sampling_view() == Some(*s),
                None => self.vlm_sampling_view() is None,
            },
    {
        self.vlm_sampling.as_ref()
    }

    /// The sampling parameters that the request of `stage` is to carry.
    pub fn sampling_for(&self, stage: Stage) -> (sampling: Option<&S>)
        ensures
            match sampling {
                Some(s) => self.sampling_view_for(stage) == Some(*s),
                None => self.sampling_view_for(stage) is None,
            },
    {
        match stage {
            Stage::Describe => self.vlm_sampling(),
            _ => self.lm_sampling(),
        }
    }

    /// The sampling parameters that the request of `stage` is to carry.
    pub open spec fn sampling_view_for(&self, stage: Stage) -> Option<S> {
        if stage == Stage::Describe {
            self.vlm_sampling_view()
        } else {
            self.lm_sampling_view()
        }
    }
}

/// The steps of a job, in their order. Each step is one request to a model;
/// the answer of a step goes into the requests of the steps after it.
#[derive(Debug, Clone, Copy, PartialEq, Eq, Structural)]
pub enum Stage {
    /// The vision-language model describes the image.
    Describe,
    /// The language model turns the description into notes.
    TakeNotes,
    /// The language model reads the amount from notes and description.
    ExtractAmount,
    /// The language model picks the category.
    Categorize,
}

impl Stage {
    /// The position of the step in the job, from 0.
    pub open spec fn ordinal(self) -> nat {
        match self {
            Stage::Describe => 0,
            Stage::TakeNotes => 1,
            Stage::ExtractAmount => 2,
            Stage::Categorize => 3,
        }
    }

    /// The step that a job begins with.
    pub fn first() -> (stage: Stage)
        ensures
            stage.ordinal() == 0,
    {
        Stage::Describe
    }

    /// The step after this one, or `None` after the last.
    pub fn next(self) -> (out: Option<Stage>)
        ensures
            self.ordinal() < 3 ==> ({
                &&& out matches Some(s)
                &&& s.ordinal() == self.ordinal() + 1
            }),
            self.ordinal() == 3 ==> out is None,
    {
        match self {
            Stage::Describe => Some(Stage::TakeNotes),
            Stage::TakeNotes => Some(Stage::ExtractAmount),
            Stage::ExtractAmount => Some(Stage::Categorize),
            Stage::Categorize => None,
        }
    }

    /// Whether the step is served by the vision-language model; the others
    /// are served by the language model.
    pub fn uses_vision_model(self) -> (yes: bool)
        ensures
            yes == (self == Stage::Describe),
    {
        match self {
            Stage::Describe => true,
            _ => false,
        }
    }

    /// Whether the answer of the step is held to a grammar: every step but
    /// the description.
    pub fn is_constrained(self) -> (yes: bool)
        ensures
            yes == (self != Stage::Describe),
    {
        match self {
            Stage::Describe => false,
            _ => true,
        }
    }
}

/// What goes into the places of the prompt template of a step, in order:
/// nothing for the description; the description for the notes; the notes
/// and the description for the amount; the notes, the description and the
/// list of categories for the category.
pub open spec fn prompt_args(
    stage: Stage,
    description: Seq<char>,
    notes: Seq<char>,
    categories: Seq<char>,
) -> Seq<Seq<char>> {
    match stage {
        Stage::Describe => Seq::empty(),
        Stage::TakeNotes => seq![description],
        Stage::ExtractAmount => seq![notes, description],
        Stage::Categorize => seq![notes, description, categories],
    }
}

/// The prompt of a step: the template of the step, filled with what the
/// steps before it have brought and, for the last step, with the categories
/// as a bulleted list.
pub fn prompt_for(
    stage: Stage,
    template: &str,
    description: &str,
    notes: &str,
    table: &CategoryNames,
) -> (out: String)
    ensures
        out@ == filled(
            template@,
            prompt_args(stage, description@, notes@, joined(table@, "- "@, "\n"@)),
        ),
{
    let mut args: Vec<String> = Vec::new();
    match stage {
        Stage::Describe => {},
        Stage::TakeNotes => {
            args.push(String::from_str(description));
        },
        Stage::ExtractAmount => {
            args.push(String::from_str(notes));
            args.push(String::from_str(description));
        },
        Stage::Categorize => {
            args.push(String::from_str(notes));
            args.push(String::from_str(description));
            args.push(table.bullets());
        },
    }
    assert(texts(args@) =~= prompt_args(
        stage,
        description@,
        notes@,
        joined(table@, "- "@, "\n"@),
    ));
    fill_template(template, &args)
}

/// The grammar that the answer of a step has to follow: none for the
/// description; the template of the step as it stands for the notes and the
/// amount; for the category the template filled with the category names as
/// alternatives.
pub fn grammar_for(stage: Stage, template: &str, table: &CategoryNames) -> (out: Option<String>)
    ensures
        match stage {
            Stage::Describe => out is None,
            Stage::Categorize => {
                &&& out matches Some(g)
                &&& g@ == filled(template@, seq![joined(table@, ""@, "|"@)])
            },
            _ => {
                &&& out matches Some(g)
                &&& g@ == template@
            },
        },
{
    match stage {
        Stage::Describe => None,
        Stage::Categorize => {
            let mut args: Vec<String> = Vec::new();
            args.push(table.alternatives());
            assert(texts(args@) =~= seq![joined(table@, ""@, "|"@)]);
            Some(fill_template(template, &args))
        },
        _ => Some(String::from_str(template)),
    }
}

/// The pattern of an amount: digits and commas, then at most one point, then
/// digits if there are any.
pub const AMOUNT_PATTERN: &'static str = "([0-9,]+\\.?[0-9]{0,})";

/// The text of the first capture group of the leftmost match of the regular
/// expression `pattern` in `text`; `None` if `pattern` is no regular
/// expression, if it matches nowhere in `text`, or if its first group took
/// no part in the match.
pub uninterp spec fn regex_first_group(pattern: Seq<char>, text: Seq<char>) -> Option<Seq<char>>;

/// Compiles `pattern` with `regex::Regex::new`, searches `text` with
/// `Regex::captures` and copies out what the first group matched. The
/// contract gives that result its name, `regex_first_group`, and says
/// nothing else of it.
#[verifier::external_body]
fn first_group(pattern: &str, text: &str) -> (out: Option<String>)
    ensures
        match out {
            Some(s) => regex_first_group(pattern@, text@) == Some(s@),
            None => regex_first_group(pattern@, text@) is None,
        },
{
    let re = Regex::new(pattern).ok()?;
    let found = re.captures(text)?;
    Some(found.get(1)?.as_str().to_string())
}

/// Turns what the amount pattern captured in an answer into the text of the
/// amount, or into the failure of an answer without an amount, which keeps
/// the whole answer.
pub fn amount_from_capture(capture: Option<String>, response: &str) -> (out: Result<
    String,
    RunTaskError,
>)
    ensures
        match capture {
            Some(text) => out == Ok::<_, RunTaskError>(text),
            None => {
                &&& out matches Err(RunTaskError::EmptyAmount(r))
                &&& r@ == response@
            },
        },
{
    match capture {
        Some(text) => Ok(text),
        None => Err(RunTaskError::EmptyAmount(String::from_str(response))),
    }
}

/// Reads the text of the amount from the answer of the amount step: what
/// the amount pattern captures in the last line of the answer.
pub fn extract_amount(response: &str) -> (out: Result<String, RunTaskError>)
    requires
        response@.contains('\n'),
    ensures
        match regex_first_group(AMOUNT_PATTERN@, after_last(response@, '\n')) {
            Some(text) => {
                &&& out matches Ok(t)
                &&& t@ == text
            },
            None => {
                &&& out matches Err(RunTaskError::EmptyAmount(r))
                &&& r@ == response@
            },
        },
{
    let line = tail_after_last(response, '\n').unwrap();
    let capture = first_group(AMOUNT_PATTERN, line.as_str());
    amount_from_capture(capture, response)
}

/// Reads the category from the answer of the category step: the last line
/// of the answer, without its first word, looked up in the table.
pub fn extract_category(table: &CategoryNames, response: &str) -> (found: Option<Category>)
    requires
        response@.contains('\n'),
        after_last(response@, '\n').contains(' '),
    ensures
        match found {
            Some(c) => {
                &&& c.belongs_to(table)
                &&& table@[c.index() as int] == after_first(after_last(response@, '\n'), ' ')
                &&& forall|j: int|
                    0 <= j < c.index() ==> table@[j] != after_first(
                        after_last(response@, '\n'),
                        ' ',
                    )
            },
            None => forall|i: int|
                0 <= i < table@.len() ==> table@[i] != after_first(
                    after_last(response@, '\n'),
                    ' ',
                ),
        },
{
    let line = tail_after_last(response, '\n').unwrap();
    let word = tail_after_first(line.as_str(), ' ').unwrap();
    Category::from_name(table, word.as_str())
}

} // verus!
