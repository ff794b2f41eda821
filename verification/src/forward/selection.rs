//! Which of the responses of several upstreams is taken.

use vstd::prelude::*;

use crate::cache::executor::message_view;
use crate::error::{DnsError, DnsErrorView};
use crate::forward::upstream::{is_timeout_error, message_of, tells_timeout};
use crate::proto::message::{Message, MessageView, Question, QuestionView};
use crate::proto::response::{
    classify_response, disposition, optional_question, NegativeResponseKind, ResponseDisposition,
};
use crate::text::concat;

verus! {

/// How long a negative response waits for a better one, in milliseconds.
pub const BALANCED_NEGATIVE_GRACE_MS: u64 = 100;

/// How many upstreams have to agree on a negative response.
pub const CONSENSUS_NEGATIVE_VOTES: usize = 2;

/// The rank of a negative response among others.
pub const NEGATIVE_RESPONSE_RANK: u8 = 2;

/// Which response is taken.
#[derive(Debug, Clone, Copy, PartialEq, Eq, Structural)]
pub enum ResponseSelectionMode {
    /// The first response. Errors never win.
    Fastest,
    /// A positive answer at once; a negative one after a short wait.
    Balanced,
    /// A positive answer at once; a negative one when all have answered.
    PreferPositive,
    /// A positive answer at once; a negative one when two agree.
    Consensus,
}

impl Default for ResponseSelectionMode {
    fn default() -> (r: ResponseSelectionMode)
        ensures
            r == ResponseSelectionMode::Balanced,
    {
        ResponseSelectionMode::Balanced
    }
}

/// What a response is worth.
#[derive(Debug, Clone, Copy, PartialEq, Eq, Structural)]
pub enum ResponseClass {
    Positive,
    Negative,
    Other,
}

/// The negative responses that are counted apart.
#[derive(Debug, Clone, Copy, PartialEq, Eq, Structural)]
pub enum NegativeResponseKey {
    NxDomain,
    NoData,
}

pub open spec fn class_of(d: ResponseDisposition) -> ResponseClass {
    match d {
        ResponseDisposition::CompletePositive => ResponseClass::Positive,
        ResponseDisposition::DefinitiveNegative(_) => ResponseClass::Negative,
        ResponseDisposition::IncompleteAlias => ResponseClass::Other,
        ResponseDisposition::Other => ResponseClass::Other,
    }
}

/// The class of a response.
pub fn response_class(disposition: ResponseDisposition) -> (r: ResponseClass)
    ensures
        r == class_of(disposition),
{
    match disposition {
        ResponseDisposition::CompletePositive => ResponseClass::Positive,
        ResponseDisposition::DefinitiveNegative(_) => ResponseClass::Negative,
        ResponseDisposition::IncompleteAlias => ResponseClass::Other,
        ResponseDisposition::Other => ResponseClass::Other,
    }
}

pub open spec fn negative_key(d: ResponseDisposition) -> Option<NegativeResponseKey> {
    match d {
        ResponseDisposition::DefinitiveNegative(NegativeResponseKind::NxDomain) => Some(
            NegativeResponseKey::NxDomain,
        ),
        ResponseDisposition::DefinitiveNegative(NegativeResponseKind::NoData) => Some(
            NegativeResponseKey::NoData,
        ),
        _ => None,
    }
}

/// The kind of a negative response.
pub fn negative_response_key(disposition: ResponseDisposition) -> (r: Option<NegativeResponseKey>)
    ensures
        r == negative_key(disposition),
{
    match disposition.negative_kind() {
        Some(NegativeResponseKind::NxDomain) => Some(NegativeResponseKey::NxDomain),
        Some(NegativeResponseKind::NoData) => Some(NegativeResponseKey::NoData),
        None => None,
    }
}

pub open spec fn rank(d: ResponseDisposition) -> u8 {
    match d {
        ResponseDisposition::CompletePositive => 4,
        ResponseDisposition::IncompleteAlias => 3,
        ResponseDisposition::DefinitiveNegative(_) => NEGATIVE_RESPONSE_RANK,
        ResponseDisposition::Other => 1,
    }
}

/// How good a response is.
pub fn response_rank(disposition: ResponseDisposition) -> (r: u8)
    ensures
        r == rank(disposition),
{
    match disposition {
        ResponseDisposition::CompletePositive => 4,
        ResponseDisposition::IncompleteAlias => 3,
        ResponseDisposition::DefinitiveNegative(_) => NEGATIVE_RESPONSE_RANK,
        ResponseDisposition::Other => 1,
    }
}

/// A response that was taken, and what it says.
#[derive(Debug, PartialEq, Eq)]
pub struct SelectedResponse {
    pub message: Message,
    pub disposition: Option<ResponseDisposition>,
}

/// The mathematical content of a [`SelectedResponse`].
pub struct SelectedView {
    pub message: MessageView,
    pub disposition: Option<ResponseDisposition>,
}

pub open spec fn selected_view(s: Option<SelectedResponse>) -> Option<SelectedView> {
    match s {
        Some(s) => Some(SelectedView { message: s.message@, disposition: s.disposition }),
        None => None,
    }
}

/// What came of asking: a response, or the last error and whether there was a timeout.
pub type SelectionOutcome = (Option<SelectedResponse>, Option<String>, bool);

/// The mathematical content of a [`SelectionOutcome`].
pub struct OutcomeView {
    pub response: Option<SelectedView>,
    pub error: Option<Seq<char>>,
    pub timed_out: bool,
}

pub open spec fn outcome_view(o: SelectionOutcome) -> OutcomeView {
    OutcomeView {
        response: selected_view(o.0),
        error: crate::cache::query::text_view(o.1),
        timed_out: o.2,
    }
}

/// The responses so far.
#[derive(Debug, PartialEq, Eq)]
pub struct SelectionState<'a> {
    question: Option<&'a Question>,
    completed: usize,
    last_error: Option<String>,
    last_timeout: bool,
    best_response: Option<Message>,
    best_response_rank: Option<u8>,
    best_response_disposition: Option<ResponseDisposition>,
    best_negative_response: Option<Message>,
    best_negative_disposition: Option<ResponseDisposition>,
    negative_votes: usize,
    nxdomain_votes: usize,
    nodata_votes: usize,
}

/// The mathematical content of a [`SelectionState`].
pub struct SelectionView {
    pub question: Option<QuestionView>,
    pub completed: usize,
    pub last_error: Option<Seq<char>>,
    pub last_timeout: bool,
    pub best: Option<MessageView>,
    pub best_rank: Option<u8>,
    pub best_disposition: Option<ResponseDisposition>,
    pub negative: Option<MessageView>,
    pub negative_disposition: Option<ResponseDisposition>,
    pub negative_votes: usize,
    pub nxdomain_votes: usize,
    pub nodata_votes: usize,
}

/// Nothing has come yet.
pub open spec fn no_response(question: Option<QuestionView>) -> SelectionView {
    SelectionView {
        question,
        completed: 0,
        last_error: None,
        last_timeout: false,
        best: None,
        best_rank: None,
        best_disposition: None,
        negative: None,
        negative_disposition: None,
        negative_votes: 0,
        nxdomain_votes: 0,
        nodata_votes: 0,
    }
}

/// The counts are no larger than the number of attempts that have ended.
pub open spec fn counts_fit(s: SelectionView) -> bool {
    s.negative_votes <= s.completed && s.nxdomain_votes <= s.negative_votes && s.nodata_votes
        <= s.negative_votes
}

/// One more vote.
pub open spec fn voted(s: SelectionView, key: NegativeResponseKey) -> SelectionView {
    match key {
        NegativeResponseKey::NxDomain => SelectionView {
            nxdomain_votes: (s.nxdomain_votes + 1) as usize,
            ..s
        },
        NegativeResponseKey::NoData => SelectionView {
            nodata_votes: (s.nodata_votes + 1) as usize,
            ..s
        },
    }
}

/// A response is noted: a negative one by itself, another where none of a higher rank
/// is there.
pub open spec fn recorded(s: SelectionView, m: MessageView) -> SelectionView {
    let d = disposition(m, s.question);
    match negative_key(d) {
        Some(key) => voted(
            SelectionView {
                negative_votes: (s.negative_votes + 1) as usize,
                negative: Some(m),
                negative_disposition: Some(d),
                ..s
            },
            key,
        ),
        None => if s.best_rank is None || rank(d) >= s.best_rank->0 {
            SelectionView { best: Some(m), best_rank: Some(rank(d)), best_disposition: Some(d), ..s }
        } else {
            s
        },
    }
}

/// An error is noted.
pub open spec fn with_error(s: SelectionView, e: DnsErrorView) -> SelectionView {
    SelectionView {
        last_timeout: s.last_timeout || tells_timeout(message_of(e)),
        last_error: Some(message_of(e)),
        ..s
    }
}

/// The failure of an attempt itself is noted.
pub open spec fn with_join_error(s: SelectionView, text: Seq<char>) -> SelectionView {
    SelectionView { last_error: Some("forward subtask join failed: "@ + text), ..s }
}

/// The negative response, where there is one.
pub open spec fn negative_of(s: SelectionView) -> Option<SelectedView> {
    match s.negative {
        Some(m) => Some(SelectedView { message: m, disposition: s.negative_disposition }),
        None => None,
    }
}

/// The response that is taken: the negative one, unless one of a higher rank is there.
pub open spec fn chosen(s: SelectionView) -> Option<SelectedView> {
    if (s.best_rank is None || s.best_rank->0 < NEGATIVE_RESPONSE_RANK) && s.negative is Some {
        negative_of(s)
    } else {
        match s.best {
            Some(m) => Some(SelectedView { message: m, disposition: s.best_disposition }),
            None => None,
        }
    }
}

/// The state without the response that is taken.
pub open spec fn without_chosen(s: SelectionView) -> SelectionView {
    if (s.best_rank is None || s.best_rank->0 < NEGATIVE_RESPONSE_RANK) && s.negative is Some {
        SelectionView { negative: None, negative_disposition: None, ..s }
    } else if s.best is Some {
        SelectionView { best: None, best_disposition: None, ..s }
    } else {
        s
    }
}

impl<'a> SelectionState<'a> {
    pub closed spec fn view(&self) -> SelectionView {
        SelectionView {
            question: optional_question(self.question),
            completed: self.completed,
            last_error: crate::cache::query::text_view(self.last_error),
            last_timeout: self.last_timeout,
            best: message_view(self.best_response),
            best_rank: self.best_response_rank,
            best_disposition: self.best_response_disposition,
            negative: message_view(self.best_negative_response),
            negative_disposition: self.best_negative_disposition,
            negative_votes: self.negative_votes,
            nxdomain_votes: self.nxdomain_votes,
            nodata_votes: self.nodata_votes,
        }
    }

    /// No attempt has ended yet.
    pub fn new(question: Option<&'a Question>) -> (r: SelectionState<'a>)
        ensures
            r@ == no_response(optional_question(question)),
    {
        SelectionState {
            question,
            completed: 0,
            last_error: None,
            last_timeout: false,
            best_response: None,
            best_response_rank: None,
            best_response_disposition: None,
            best_negative_response: None,
            best_negative_disposition: None,
            negative_votes: 0,
            nxdomain_votes: 0,
            nodata_votes: 0,
        }
    }

    /// The number of attempts that have ended.
    pub fn completed(&self) -> (r: usize)
        ensures
            r == self@.completed,
    {
        self.completed
    }

    /// The number of negative responses.
    pub fn negative_votes(&self) -> (r: usize)
        ensures
            r == self@.negative_votes,
    {
        self.negative_votes
    }

    /// Counts a vote.
    pub fn record_negative_vote(&mut self, key: NegativeResponseKey)
        requires
            old(self)@.nxdomain_votes < usize::MAX,
            old(self)@.nodata_votes < usize::MAX,
        ensures
            final(self)@ == voted(old(self)@, key),
    {
        match key {
            NegativeResponseKey::NxDomain => {
                self.nxdomain_votes = self.nxdomain_votes + 1;
            },
            NegativeResponseKey::NoData => {
                self.nodata_votes = self.nodata_votes + 1;
            },
        }
    }

    /// Notes a response.
    pub fn record_response(&mut self, response: Message) -> (r: ResponseClass)
        requires
            old(self)@.negative_votes < usize::MAX,
            old(self)@.nxdomain_votes < usize::MAX,
            old(self)@.nodata_votes < usize::MAX,
        ensures
            final(self)@ == recorded(old(self)@, response@),
            r == class_of(disposition(response@, old(self)@.question)),
    {
        let disposition = classify_response(&response, self.question);
        let class = response_class(disposition);
        if class == ResponseClass::Negative {
            self.negative_votes = self.negative_votes + 1;
            if let Some(key) = negative_response_key(disposition) {
                self.record_negative_vote(key);
            }
            self.best_negative_response = Some(response);
            self.best_negative_disposition = Some(disposition);
            return class;
        }
        let response_rank: u8 = response_rank(disposition);
        let better = match self.best_response_rank {
            Some(best) => response_rank >= best,
            None => true,
        };
        if better {
            self.best_response = Some(response);
            self.best_response_rank = Some(response_rank);
            self.best_response_disposition = Some(disposition);
        }
        class
    }

    /// Notes an error.
    pub fn record_error(&mut self, err: DnsError)
        ensures
            final(self)@ == with_error(old(self)@, err@),
    {
        let timeout = is_timeout_error(&err);
        self.last_timeout = self.last_timeout || timeout;
        self.last_error = Some(err.message().to_owned());
    }

    /// Notes the failure of an attempt itself.
    pub fn record_join_error(&mut self, err: &str)
        ensures
            final(self)@ == with_join_error(old(self)@, err@),
    {
        self.last_error = Some(concat("forward subtask join failed: ", err));
    }

    /// Takes the negative response.
    pub fn take_negative_response(&mut self) -> (r: Option<SelectedResponse>)
        ensures
            selected_view(r) == negative_of(old(self)@),
            final(self)@ == (if old(self)@.negative is Some {
                SelectionView { negative: None, negative_disposition: None, ..old(self)@ }
            } else {
                old(self)@
            }),
    {
        match self.best_negative_response.take() {
            Some(message) => Some(
                SelectedResponse { message, disposition: self.best_negative_disposition.take() },
            ),
            None => None,
        }
    }

    /// Takes the response that is chosen.
    pub fn take_selected_response(&mut self) -> (r: Option<SelectedResponse>)
        ensures
            selected_view(r) == chosen(old(self)@),
            final(self)@ == without_chosen(old(self)@),
    {
        let low = match self.best_response_rank {
            Some(rank) => rank < NEGATIVE_RESPONSE_RANK,
            None => true,
        };
        if low {
            if let Some(selected) = self.take_negative_response() {
                return Some(selected);
            }
        }
        match self.best_response.take() {
            Some(message) => Some(
                SelectedResponse { message, disposition: self.best_response_disposition.take() },
            ),
            None => None,
        }
    }

    /// Ends with the response that is chosen and the last error.
    pub fn finish(self) -> (r: SelectionOutcome)
        ensures
            outcome_view(r) == finished(self@),
    {
        let mut state = self;
        let selected = state.take_selected_response();
        (selected, state.last_error, state.last_timeout)
    }

    /// Ends with the response that is chosen.
    pub fn finish_success(self) -> (r: SelectionOutcome)
        ensures
            outcome_view(r) == (OutcomeView {
                response: chosen(self@),
                error: None,
                timed_out: false,
            }),
    {
        let mut state = self;
        (state.take_selected_response(), None, false)
    }

    /// Ends with the negative response.
    pub fn finish_negative_success(self) -> (r: SelectionOutcome)
        ensures
            outcome_view(r) == (OutcomeView {
                response: negative_of(self@),
                error: None,
                timed_out: false,
            }),
    {
        let mut state = self;
        (state.take_negative_response(), None, false)
    }

    /// Whether enough upstreams agree on a negative response.
    pub fn has_negative_consensus(&self, required_votes: usize) -> (r: bool)
        ensures
            r == agreed(self@, required_votes),
    {
        self.nxdomain_votes >= required_votes || self.nodata_votes >= required_votes
    }
}

pub open spec fn finished(s: SelectionView) -> OutcomeView {
    OutcomeView { response: chosen(s), error: s.last_error, timed_out: s.last_timeout }
}

pub open spec fn agreed(s: SelectionView, required_votes: usize) -> bool {
    s.nxdomain_votes >= required_votes || s.nodata_votes >= required_votes
}

/// How an attempt ended.
#[derive(Debug, PartialEq, Eq)]
pub enum Attempt {
    /// With a response.
    Response(Message),
    /// With an error of the upstream.
    Failed(DnsError),
    /// Not at all: the attempt itself failed.
    Lost(String),
}

/// The mathematical content of an [`Attempt`].
pub enum AttemptView {
    Response(MessageView),
    Failed(DnsErrorView),
    Lost(Seq<char>),
}

impl View for Attempt {
    type V = AttemptView;

    open spec fn view(&self) -> AttemptView {
        match self {
            Attempt::Response(m) => AttemptView::Response(m@),
            Attempt::Failed(e) => AttemptView::Failed(e@),
            Attempt::Lost(t) => AttemptView::Lost(t@),
        }
    }
}

/// An attempt that has ended is noted, without being counted.
pub open spec fn noted(s: SelectionView, a: AttemptView) -> (SelectionView, Option<ResponseClass>) {
    match a {
        AttemptView::Response(m) => (
            recorded(s, m),
            Some(class_of(disposition(m, s.question))),
        ),
        AttemptView::Failed(e) => (with_error(s, e), None),
        AttemptView::Lost(t) => (with_join_error(s, t), None),
    }
}

/// An attempt that has ended is counted and noted.
pub open spec fn handled(s: SelectionView, a: AttemptView) -> (
    SelectionView,
    Option<ResponseClass>,
) {
    noted(SelectionView { completed: (s.completed + 1) as usize, ..s }, a)
}

/// Counts and notes an attempt that has ended.
pub fn handle_joined_response(joined: Attempt, state: &mut SelectionState<'_>) -> (r: Option<
    ResponseClass,
>)
    requires
        old(state)@.completed < usize::MAX,
        counts_fit(old(state)@),
    ensures
        (final(state)@, r) == handled(old(state)@, joined@),
        counts_fit(final(state)@),
{
    state.completed = state.completed + 1;
    match joined {
        Attempt::Response(response) => Some(state.record_response(response)),
        Attempt::Failed(err) => {
            state.record_error(err);
            None
        },
        Attempt::Lost(text) => {
            state.record_join_error(text.as_str());
            None
        },
    }
}

/// What happens while responses are awaited.
#[derive(Debug, PartialEq, Eq)]
pub enum SelectionEvent {
    /// An attempt has ended.
    Ended(Attempt),
    /// All attempts have ended.
    Exhausted,
    /// The wait for a better response is over.
    GraceOver,
}

/// The mathematical content of a [`SelectionEvent`].
pub enum SelectionEventView {
    Ended(AttemptView),
    Exhausted,
    GraceOver,
}

impl View for SelectionEvent {
    type V = SelectionEventView;

    open spec fn view(&self) -> SelectionEventView {
        match self {
            SelectionEvent::Ended(a) => SelectionEventView::Ended(a@),
            SelectionEvent::Exhausted => SelectionEventView::Exhausted,
            SelectionEvent::GraceOver => SelectionEventView::GraceOver,
        }
    }
}

/// What is to be done after an event.
#[derive(Debug, PartialEq, Eq)]
pub enum SelectionStep<'a> {
    /// Wait on.
    Wait(SelectionState<'a>),
    /// Wait on, and start the wait for a better response anew.
    WaitWithGrace(SelectionState<'a>),
    /// This is the outcome. Where `abort` says so, the other attempts are given up.
    Done { abort: bool, outcome: SelectionOutcome },
}

/// The mathematical content of a [`SelectionStep`].
pub enum SelectionStepView {
    Wait(SelectionView),
    WaitWithGrace(SelectionView),
    Done { abort: bool, outcome: OutcomeView },
}

impl<'a> View for SelectionStep<'a> {
    type V = SelectionStepView;

    open spec fn view(&self) -> SelectionStepView {
        match self {
            SelectionStep::Wait(s) => SelectionStepView::Wait(s@),
            SelectionStep::WaitWithGrace(s) => SelectionStepView::WaitWithGrace(s@),
            SelectionStep::Done { abort, outcome } => SelectionStepView::Done {
                abort: *abort,
                outcome: outcome_view(*outcome),
            },
        }
    }
}

/// All is over: the outcome of what has come.
pub open spec fn end(s: SelectionView) -> SelectionStepView {
    SelectionStepView::Done { abort: false, outcome: finished(s) }
}

/// A response has won before the others have ended.
pub open spec fn win(response: Option<SelectedView>) -> SelectionStepView {
    SelectionStepView::Done {
        abort: true,
        outcome: OutcomeView { response, error: None, timed_out: false },
    }
}

/// Waits on, unless as many attempts have ended as there are.
pub open spec fn wait_or_end(s: SelectionView, active: usize) -> SelectionStepView {
    if s.completed >= active {
        end(s)
    } else {
        SelectionStepView::Wait(s)
    }
}

/// A step of taking the first response.
pub open spec fn fastest_step(s: SelectionView, e: SelectionEventView) -> SelectionStepView {
    match e {
        SelectionEventView::Ended(AttemptView::Response(m)) => win(
            Some(SelectedView { message: m, disposition: None }),
        ),
        SelectionEventView::Ended(a) => SelectionStepView::Wait(noted(s, a).0),
        SelectionEventView::Exhausted => end(s),
        SelectionEventView::GraceOver => SelectionStepView::Wait(s),
    }
}

/// A step of waiting for a positive answer.
pub open spec fn prefer_positive_step(
    s: SelectionView,
    e: SelectionEventView,
    active: usize,
) -> SelectionStepView {
    match e {
        SelectionEventView::Ended(a) => {
            let (t, class) = handled(s, a);
            match class {
                None => SelectionStepView::Wait(t),
                Some(ResponseClass::Positive) => win(chosen(t)),
                Some(_) => wait_or_end(t, active),
            }
        },
        SelectionEventView::Exhausted => end(s),
        SelectionEventView::GraceOver => SelectionStepView::Wait(s),
    }
}

/// A step of waiting for a positive answer for a while.
pub open spec fn balanced_step(
    s: SelectionView,
    e: SelectionEventView,
    active: usize,
) -> SelectionStepView {
    match e {
        SelectionEventView::Ended(a) => {
            let (t, class) = handled(s, a);
            match class {
                Some(ResponseClass::Positive) => win(chosen(t)),
                Some(ResponseClass::Negative) => if t.completed >= active {
                    end(t)
                } else if t.negative_votes == 1 {
                    SelectionStepView::WaitWithGrace(t)
                } else {
                    SelectionStepView::Wait(t)
                },
                _ => wait_or_end(t, active),
            }
        },
        SelectionEventView::Exhausted => end(s),
        SelectionEventView::GraceOver => if s.negative_votes > 0 {
            win(chosen(s))
        } else {
            SelectionStepView::Wait(s)
        },
    }
}

/// A step of waiting for a positive answer or two negative ones that agree.
pub open spec fn consensus_step(
    s: SelectionView,
    e: SelectionEventView,
    active: usize,
) -> SelectionStepView {
    match e {
        SelectionEventView::Ended(a) => {
            let (t, class) = handled(s, a);
            match class {
                None => SelectionStepView::Wait(t),
                Some(ResponseClass::Positive) => win(chosen(t)),
                Some(ResponseClass::Negative) => if agreed(t, CONSENSUS_NEGATIVE_VOTES) {
                    win(negative_of(t))
                } else {
                    wait_or_end(t, active)
                },
                Some(ResponseClass::Other) => wait_or_end(t, active),
            }
        },
        SelectionEventView::Exhausted => end(s),
        SelectionEventView::GraceOver => SelectionStepView::Wait(s),
    }
}

/// The step of a mode. Where fewer upstreams are asked than would have to agree, the
/// mode that wants agreement waits for a positive answer.
pub open spec fn selection_step(
    s: SelectionView,
    e: SelectionEventView,
    mode: ResponseSelectionMode,
    active: usize,
) -> SelectionStepView {
    match mode {
        ResponseSelectionMode::Fastest => fastest_step(s, e),
        ResponseSelectionMode::Balanced => balanced_step(s, e, active),
        ResponseSelectionMode::PreferPositive => prefer_positive_step(s, e, active),
        ResponseSelectionMode::Consensus => if active < CONSENSUS_NEGATIVE_VOTES {
            prefer_positive_step(s, e, active)
        } else {
            consensus_step(s, e, active)
        },
    }
}

fn end_of<'a>(state: SelectionState<'a>) -> (r: SelectionStep<'a>)
    ensures
        r@ == end(state@),
{
    SelectionStep::Done { abort: false, outcome: state.finish() }
}

fn win_of<'a>(state: SelectionState<'a>) -> (r: SelectionStep<'a>)
    ensures
        r@ == win(chosen(state@)),
{
    SelectionStep::Done { abort: true, outcome: state.finish_success() }
}

fn wait_or_end_of<'a>(state: SelectionState<'a>, active: usize) -> (r: SelectionStep<'a>)
    ensures
        r@ == wait_or_end(state@, active),
{
    if state.completed >= active {
        end_of(state)
    } else {
        SelectionStep::Wait(state)
    }
}

/// Takes the first response.
pub fn select_fastest<'a>(state: SelectionState<'a>, event: SelectionEvent) -> (r: SelectionStep<'a>)
    ensures
        r@ == fastest_step(state@, event@),
{
    let mut state = state;
    match event {
        SelectionEvent::Ended(Attempt::Response(message)) => SelectionStep::Done {
            abort: true,
            outcome: (Some(SelectedResponse { message, disposition: None }), None, false),
        },
        SelectionEvent::Ended(Attempt::Failed(err)) => {
            state.record_error(err);
            SelectionStep::Wait(state)
        },
        SelectionEvent::Ended(Attempt::Lost(text)) => {
            state.record_join_error(text.as_str());
            SelectionStep::Wait(state)
        },
        SelectionEvent::Exhausted => end_of(state),
        SelectionEvent::GraceOver => SelectionStep::Wait(state),
    }
}

/// Waits for a positive answer.
pub fn select_prefer_positive<'a>(
    state: SelectionState<'a>,
    event: SelectionEvent,
    active_concurrent: usize,
) -> (r: SelectionStep<'a>)
    requires
        state@.completed < usize::MAX,
        counts_fit(state@),
    ensures
        r@ == prefer_positive_step(state@, event@, active_concurrent),
{
    let mut state = state;
    match event {
        SelectionEvent::Ended(joined) => match handle_joined_response(joined, &mut state) {
            None => SelectionStep::Wait(state),
            Some(ResponseClass::Positive) => win_of(state),
            Some(_) => wait_or_end_of(state, active_concurrent),
        },
        SelectionEvent::Exhausted => end_of(state),
        SelectionEvent::GraceOver => SelectionStep::Wait(state),
    }
}

/// Waits for a positive answer for a while.
pub fn select_balanced<'a>(
    state: SelectionState<'a>,
    event: SelectionEvent,
    active_concurrent: usize,
) -> (r: SelectionStep<'a>)
    requires
        state@.completed < usize::MAX,
        counts_fit(state@),
    ensures
        r@ == balanced_step(state@, event@, active_concurrent),
{
    let mut state = state;
    match event {
        SelectionEvent::Ended(joined) => match handle_joined_response(joined, &mut state) {
            Some(ResponseClass::Positive) => win_of(state),
            Some(ResponseClass::Negative) => {
                if state.completed >= active_concurrent {
                    end_of(state)
                } else if state.negative_votes == 1 {
                    SelectionStep::WaitWithGrace(state)
                } else {
                    SelectionStep::Wait(state)
                }
            },
            _ => wait_or_end_of(state, active_concurrent),
        },
        SelectionEvent::Exhausted => end_of(state),
        SelectionEvent::GraceOver => {
            if state.negative_votes > 0 {
                win_of(state)
            } else {
                SelectionStep::Wait(state)
            }
        },
    }
}

/// Waits for a positive answer or two negative ones that agree.
pub fn select_consensus<'a>(
    state: SelectionState<'a>,
    event: SelectionEvent,
    active_concurrent: usize,
) -> (r: SelectionStep<'a>)
    requires
        state@.completed < usize::MAX,
        counts_fit(state@),
    ensures
        r@ == (if active_concurrent < CONSENSUS_NEGATIVE_VOTES {
            prefer_positive_step(state@, event@, active_concurrent)
        } else {
            consensus_step(state@, event@, active_concurrent)
        }),
{
    if active_concurrent < CONSENSUS_NEGATIVE_VOTES {
        return select_prefer_positive(state, event, active_concurrent);
    }
    let mut state = state;
    match event {
        SelectionEvent::Ended(joined) => match handle_joined_response(joined, &mut state) {
            None => SelectionStep::Wait(state),
            Some(ResponseClass::Positive) => win_of(state),
            Some(ResponseClass::Negative) => {
                if state.has_negative_consensus(CONSENSUS_NEGATIVE_VOTES) {
                    SelectionStep::Done { abort: true, outcome: state.finish_negative_success() }
                } else {
                    wait_or_end_of(state, active_concurrent)
                }
            },
            Some(ResponseClass::Other) => wait_or_end_of(state, active_concurrent),
        },
        SelectionEvent::Exhausted => end_of(state),
        SelectionEvent::GraceOver => SelectionStep::Wait(state),
    }
}

/// What is to be done after an event.
pub fn select_response<'a>(
    state: SelectionState<'a>,
    event: SelectionEvent,
    active_concurrent: usize,
    mode: ResponseSelectionMode,
) -> (r: SelectionStep<'a>)
    requires
        state@.completed < usize::MAX,
        counts_fit(state@),
    ensures
        r@ == selection_step(state@, event@, mode, active_concurrent),
{
    match mode {
        ResponseSelectionMode::Fastest => select_fastest(state, event),
        ResponseSelectionMode::Balanced => select_balanced(state, event, active_concurrent),
        ResponseSelectionMode::PreferPositive => select_prefer_positive(
            state,
            event,
            active_concurrent,
        ),
        ResponseSelectionMode::Consensus => select_consensus(state, event, active_concurrent),
    }
}

/// Whether a state is one that steps lead to.
pub open spec fn reachable(s: SelectionView) -> bool {
    &&& counts_fit(s)
    &&& s.best is Some <==> s.best_rank is Some
    &&& s.best_rank matches Some(r) ==> r <= 4
    &&& s.negative is Some <==> s.negative_votes > 0
}

/// The state that a step leaves, where it leaves one.
pub open spec fn state_after(step: SelectionStepView) -> Option<SelectionView> {
    match step {
        SelectionStepView::Wait(s) => Some(s),
        SelectionStepView::WaitWithGrace(s) => Some(s),
        SelectionStepView::Done { .. } => None,
    }
}

/// Steps keep the state in order.
pub proof fn law_steps_keep_order(
    s: SelectionView,
    e: SelectionEventView,
    mode: ResponseSelectionMode,
    active: usize,
)
    requires
        reachable(s),
        s.completed < usize::MAX,
        mode != ResponseSelectionMode::Fastest,
    ensures
        state_after(selection_step(s, e, mode, active)) matches Some(t) ==> reachable(t),
{
}

/// A positive answer is taken at once, whatever came before it.
pub proof fn law_positive_wins(
    s: SelectionView,
    m: MessageView,
    mode: ResponseSelectionMode,
    active: usize,
)
    requires
        reachable(s),
        s.completed < usize::MAX,
        disposition(m, s.question) == ResponseDisposition::CompletePositive,
    ensures
        ({
            let step = selection_step(
                s,
                SelectionEventView::Ended(AttemptView::Response(m)),
                mode,
                active,
            );
            &&& step is Done
            &&& step->outcome.response is Some
            &&& step->outcome.response->0.message == m
            &&& step->outcome.error is None
            &&& step->abort
        }),
{
}

/// The first response is taken where speed counts, whatever it says.
pub proof fn law_first_response_wins(s: SelectionView, m: MessageView, active: usize)
    ensures
        selection_step(
            s,
            SelectionEventView::Ended(AttemptView::Response(m)),
            ResponseSelectionMode::Fastest,
            active,
        ) == win(Some(SelectedView { message: m, disposition: None })),
{
}

/// An error never ends the wait while other attempts are under way, and brings no
/// response with it.
pub proof fn law_errors_never_win(
    s: SelectionView,
    a: AttemptView,
    mode: ResponseSelectionMode,
    active: usize,
)
    requires
        s.completed + 1 < active,
        !(a is Response),
    ensures
        selection_step(s, SelectionEventView::Ended(a), mode, active) is Wait,
        state_after(selection_step(s, SelectionEventView::Ended(a), mode, active))->0.best == s.best,
        state_after(selection_step(s, SelectionEventView::Ended(a), mode, active))->0.negative
            == s.negative,
{
}

/// A negative response waits for the other attempts, or for the end of the short wait,
/// unless the upstreams are to agree on it and do.
pub proof fn law_negative_waits(
    s: SelectionView,
    m: MessageView,
    mode: ResponseSelectionMode,
    active: usize,
)
    requires
        mode != ResponseSelectionMode::Fastest,
        s.completed + 1 < active,
        class_of(disposition(m, s.question)) == ResponseClass::Negative,
    ensures
        ({
            let step = selection_step(
                s,
                SelectionEventView::Ended(AttemptView::Response(m)),
                mode,
                active,
            );
            step is Done ==> mode == ResponseSelectionMode::Consensus && agreed(
                recorded(s, m),
                CONSENSUS_NEGATIVE_VOTES,
            )
        }),
{
}

/// An alias without its records is better than a negative response, and a negative
/// response is better than one that says nothing.
pub proof fn law_ranks_of_responses(s: SelectionView)
    requires
        reachable(s),
        s.best is Some,
        s.negative is Some,
    ensures
        s.best_rank->0 >= 3 ==> chosen(s)->0.message == s.best->0,
        s.best_rank->0 == 1 ==> chosen(s)->0.message == s.negative->0,
{
}

} // verus!
