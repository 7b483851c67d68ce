//! The agent loop of one user message, as a state machine.
//!
//! The loop:
//! 1. emits a typing indicator and records the user's message in the session;
//! 2. starts a round: emits the typing indicator again and calls the model, or,
//!    once `max_iterations` rounds have run, records a fallback message, saves
//!    the session and fails with `MaxIterationsExceeded`;
//! 3. retries a call that was too large once per round, with the conversation
//!    cut to the system message and the last two messages;
//! 4. records the model's answer; if it calls tools, announces them, has them run
//!    (each call once), records their results in call order and starts the next
//!    round;
//! 5. otherwise saves the session, publishes the reply and returns the result.
//!
//! The driver performs the effects of each step in order (messages for the bus
//! and entries for the session), carries out the request, and reports what
//! happened as the next event.
use vstd::prelude::*;

use crate::agent::{
    final_result, final_result_of, is_payload_too_large, next_iteration, progress_message,
    progress_text, route_of, session_route, too_large, trim_for_retry, trimmed_for_retry,
    AgentError, AgentResult,
};
use crate::text::{str_eq, views};

verus! {

/// A message for the channel a session talks to.
#[derive(Debug, Clone)]
pub enum Outbound {
    /// Show that the assistant is typing.
    Typing { channel: String, chat_id: String },
    /// Show what the assistant is doing.
    Progress { channel: String, chat_id: String, text: String },
    /// The assistant's reply.
    Reply { channel: String, chat_id: String, content: String },
}

/// What an [`Outbound`] message holds, with its strings as character sequences.
pub enum OutboundView {
    Typing { channel: Seq<char>, chat_id: Seq<char> },
    Progress { channel: Seq<char>, chat_id: Seq<char>, text: Seq<char> },
    Reply { channel: Seq<char>, chat_id: Seq<char>, content: Seq<char> },
}

impl View for Outbound {
    type V = OutboundView;

    open spec fn view(&self) -> OutboundView {
        match self {
            Outbound::Typing { channel, chat_id } => OutboundView::Typing {
                channel: channel@,
                chat_id: chat_id@,
            },
            Outbound::Progress { channel, chat_id, text } => OutboundView::Progress {
                channel: channel@,
                chat_id: chat_id@,
                text: text@,
            },
            Outbound::Reply { channel, chat_id, content } => OutboundView::Reply {
                channel: channel@,
                chat_id: chat_id@,
                content: content@,
            },
        }
    }
}

/// Something the driver does on the loop's behalf.
#[derive(Debug)]
pub enum Effect<M> {
    /// Publish a message on the bus (only when there is a bus).
    Publish(Outbound),
    /// Append a plain message with this role to the session.
    RecordText { role: String, content: String },
    /// Append a conversation message to the session.
    RecordMessage(M),
}

/// What an [`Effect`] is expected to be.
pub enum EffectView<M> {
    Publish(OutboundView),
    RecordText { role: Seq<char>, content: Seq<char> },
    RecordMessage(M),
}

/// `e` is the effect `x`; a recorded message is a clone of the expected one.
pub open spec fn effect_is<M: Clone>(e: Effect<M>, x: EffectView<M>) -> bool {
    match (e, x) {
        (Effect::Publish(o), EffectView::Publish(v)) => o@ == v,
        (Effect::RecordText { role, content }, EffectView::RecordText { role: r, content: c }) => {
            role@ == r && content@ == c
        },
        (Effect::RecordMessage(m), EffectView::RecordMessage(w)) => cloned(w, m),
        _ => false,
    }
}

/// The effects `es` are, in order, the expected ones `xs`.
pub open spec fn effects_are<M: Clone>(es: Seq<Effect<M>>, xs: Seq<EffectView<M>>) -> bool {
    es.len() == xs.len() && forall|i: int| 0 <= i < es.len() ==> effect_is(es[i], #[trigger] xs[i])
}

/// A tool call requested by the model.
#[derive(Debug)]
pub struct ToolCall<A> {
    pub id: String,
    pub name: String,
    pub arguments: A,
}

/// The names of a list of tool calls.
pub open spec fn call_names<A>(calls: Seq<ToolCall<A>>) -> Seq<Seq<char>> {
    calls.map_values(|c: ToolCall<A>| c.name@)
}

/// The ids of a list of tool calls.
pub open spec fn call_ids<A>(calls: Seq<ToolCall<A>>) -> Seq<Seq<char>> {
    calls.map_values(|c: ToolCall<A>| c.id@)
}

/// What happened since the last step.
pub enum RoundEvent<M, A> {
    /// The model answered with `message` (its text `content`, and the tools it
    /// calls, in order).
    Answered { message: M, content: Option<String>, tool_calls: Vec<ToolCall<A>> },
    /// The model call failed with `error`, whose message is `text`.
    Failed { error: anyhow::Error, text: String },
    /// The tools ran: for each call, in call order, its id and its result message.
    ToolResults(Vec<(String, M)>),
    /// The session was saved.
    Saved,
    /// Saving the session failed.
    SaveFailed(anyhow::Error),
}

/// What the loop asks its driver to do after the step's effects.
#[derive(Debug)]
pub enum Request<A> {
    /// Call the model with the conversation.
    CallModel,
    /// Call the model again with the trimmed conversation.
    CallModelTrimmed,
    /// Run each of these tool calls once.
    RunTools(Vec<ToolCall<A>>),
    /// Save the session.
    SaveSession,
    /// Return this result.
    Finish(AgentResult),
    /// Return this error.
    Fail(AgentError),
    /// The event does not fit the loop's state: nothing to do.
    Ignore,
}

/// One step of the loop: effects to perform in order, then a request.
#[derive(Debug)]
pub struct Step<M, A> {
    pub effects: Vec<Effect<M>>,
    pub request: Request<A>,
}

/// Where the loop stands.
#[derive(Debug, Clone, Copy, PartialEq, Eq, Structural)]
pub enum Phase {
    /// The model has been called; `retried` tells whether this round already
    /// retried a request that was too large.
    Waiting { retried: bool },
    /// The tools of the last answer are running.
    RunningTools,
    /// The session is being saved.
    Saving,
    /// The loop has ended.
    Done,
}

/// The agent loop of one user message.
pub struct RoundLoop<M> {
    iterations: u32,
    max_iterations: u32,
    phase: Phase,
    messages: Vec<M>,
    channel: String,
    chat_id: String,
    has_bus: bool,
    pending_ids: Vec<String>,
    pending_result: Option<AgentResult>,
    model_calls: Ghost<nat>,
    tool_rounds: Ghost<nat>,
}

/// What a [`RoundLoop`] holds. `model_calls` counts the rounds that called the
/// model (retries not counted); `tool_rounds` the rounds whose tool results came
/// back.
pub struct RoundLoopView<M> {
    pub iterations: u32,
    pub max_iterations: u32,
    pub phase: Phase,
    pub messages: Seq<M>,
    pub channel: Seq<char>,
    pub chat_id: Seq<char>,
    pub has_bus: bool,
    pub pending_ids: Seq<Seq<char>>,
    pub pending_result: Option<AgentResult>,
    pub model_calls: nat,
    pub tool_rounds: nat,
}

impl<M> View for RoundLoop<M> {
    type V = RoundLoopView<M>;

    closed spec fn view(&self) -> RoundLoopView<M> {
        RoundLoopView {
            iterations: self.iterations,
            max_iterations: self.max_iterations,
            phase: self.phase,
            messages: self.messages@,
            channel: self.channel@,
            chat_id: self.chat_id@,
            has_bus: self.has_bus,
            pending_ids: views(self.pending_ids@),
            pending_result: self.pending_result,
            model_calls: self.model_calls@,
            tool_rounds: self.tool_rounds@,
        }
    }
}

/// The invariant of the loop: the round count stays within a limit below
/// `u32::MAX`, the conversation is never empty, and the counters agree with the
/// phase. A fallback is pending only after `max_iterations` full rounds.
pub open spec fn loop_inv<M>(v: RoundLoopView<M>) -> bool {
    &&& v.iterations <= v.max_iterations < u32::MAX
    &&& v.messages.len() >= 1
    &&& v.model_calls == v.iterations
    &&& match v.phase {
        Phase::Waiting { .. } => v.tool_rounds + 1 == v.iterations,
        Phase::RunningTools => v.tool_rounds + 1 == v.iterations,
        Phase::Saving => match v.pending_result {
            Some(_) => v.tool_rounds + 1 == v.iterations,
            None => v.tool_rounds == v.iterations && v.iterations == v.max_iterations,
        },
        Phase::Done => v.tool_rounds <= v.iterations,
    }
}

/// The message saved in the session when the tool loop reaches its limit.
pub open spec fn fallback_text() -> Seq<char> {
    "I've reached the maximum number of tool iterations. Please review the actions taken above."@
}

/// The typing indicator, when there is a bus.
pub open spec fn typing<M>(v: RoundLoopView<M>) -> Seq<EffectView<M>> {
    if v.has_bus {
        seq![EffectView::Publish(OutboundView::Typing { channel: v.channel, chat_id: v.chat_id })]
    } else {
        Seq::empty()
    }
}

/// The progress message for `names`, when there is a bus.
pub open spec fn progress<M>(v: RoundLoopView<M>, names: Seq<Seq<char>>) -> Seq<EffectView<M>> {
    if v.has_bus {
        seq![
            EffectView::Publish(
                OutboundView::Progress {
                    channel: v.channel,
                    chat_id: v.chat_id,
                    text: progress_text(names),
                },
            ),
        ]
    } else {
        Seq::empty()
    }
}

/// The reply, when there is a bus.
pub open spec fn reply<M>(v: RoundLoopView<M>, content: Seq<char>) -> Seq<EffectView<M>> {
    if v.has_bus {
        seq![
            EffectView::Publish(
                OutboundView::Reply { channel: v.channel, chat_id: v.chat_id, content: content },
            ),
        ]
    } else {
        Seq::empty()
    }
}

/// Recording each of `ms`, in order.
pub open spec fn records<M>(ms: Seq<M>) -> Seq<EffectView<M>> {
    ms.map_values(|m: M| EffectView::RecordMessage(m))
}

/// `after` is `before` with the next round begun, having already done `done`:
/// within the limit the round count grows by one, the typing indicator is shown
/// and the model is called; at the limit the fallback message is recorded and
/// the session saved, to fail afterwards.
pub open spec fn round_begun<M: Clone, A>(
    before: RoundLoopView<M>,
    done: Seq<EffectView<M>>,
    after: RoundLoopView<M>,
    step: Step<M, A>,
) -> bool {
    &&& after.max_iterations == before.max_iterations
    &&& after.messages == before.messages
    &&& after.channel == before.channel
    &&& after.chat_id == before.chat_id
    &&& after.has_bus == before.has_bus
    &&& after.tool_rounds == before.tool_rounds
    &&& if before.iterations < before.max_iterations {
        &&& after.iterations == before.iterations + 1
        &&& after.model_calls == before.model_calls + 1
        &&& after.phase == Phase::Waiting { retried: false }
        &&& effects_are(step.effects@, done + typing(before))
        &&& step.request is CallModel
    } else {
        &&& after.iterations == before.iterations
        &&& after.model_calls == before.model_calls
        &&& after.phase == Phase::Saving
        &&& after.pending_result is None
        &&& effects_are(
            step.effects@,
            done + seq![
                EffectView::RecordText { role: "assistant"@, content: fallback_text() },
            ],
        )
        &&& step.request is SaveSession
    }
}

/// The text of an answer: empty when the model sent none.
pub open spec fn answer_text(content: Option<String>) -> Seq<char> {
    match content {
        Some(c) => c@,
        None => Seq::empty(),
    }
}

/// The loop before its first round.
pub open spec fn initial<M>(
    messages: Seq<M>,
    max_iterations: u32,
    key: Seq<char>,
    has_bus: bool,
) -> RoundLoopView<M> {
    RoundLoopView {
        iterations: 0,
        max_iterations,
        phase: Phase::Done,
        messages,
        channel: route_of(key).0,
        chat_id: route_of(key).1,
        has_bus,
        pending_ids: Seq::empty(),
        pending_result: None,
        model_calls: 0,
        tool_rounds: 0,
    }
}

/// The loop once the tool results `ms` of a round are in.
pub open spec fn with_results<M>(v: RoundLoopView<M>, ms: Seq<M>) -> RoundLoopView<M> {
    RoundLoopView { messages: v.messages + ms, tool_rounds: v.tool_rounds + 1, ..v }
}

/// The tool results answer the pending calls: one per call, in call order.
pub open spec fn results_fit<M>(pending_ids: Seq<Seq<char>>, results: Seq<(String, M)>) -> bool {
    &&& results.len() == pending_ids.len()
    &&& forall|i: int| 0 <= i < results.len() ==> (#[trigger] results[i]).0@ == pending_ids[i]
}

/// The result messages of a list of tool results.
pub open spec fn result_messages<M>(results: Seq<(String, M)>) -> Seq<M> {
    results.map_values(|r: (String, M)| r.1)
}

/// A requested limit failure comes only after `max_iterations` rounds that each
/// called the model once and had their tool calls run.
pub proof fn law_limit_after_full_rounds<M>(v: RoundLoopView<M>)
    requires
        loop_inv(v),
    ensures
        v.phase == Phase::Saving && v.pending_result is None ==> v.model_calls == v.max_iterations
            && v.tool_rounds == v.max_iterations,
{
}

proof fn lemma_effects_push<M: Clone>(
    es: Seq<Effect<M>>,
    xs: Seq<EffectView<M>>,
    e: Effect<M>,
    x: EffectView<M>,
)
    requires
        effects_are(es, xs),
        effect_is(e, x),
    ensures
        effects_are(es.push(e), xs.push(x)),
{
    assert forall|i: int| 0 <= i < es.len() + 1 implies effect_is(
        es.push(e)[i],
        #[trigger] xs.push(x)[i],
    ) by {
        if i < es.len() {
            assert(es.push(e)[i] == es[i]);
            assert(xs.push(x)[i] == xs[i]);
        }
    }
}

/// After a round's tool results come back, the conversation for the next step is
/// the previous conversation followed by the result messages, in call order: it
/// grows by one message per tool call and keeps everything before.
pub proof fn law_tool_results_extend_conversation<M: Clone, A>(
    before: RoundLoopView<M>,
    results: Seq<(String, M)>,
    after: RoundLoopView<M>,
    step: Step<M, A>,
)
    requires
        round_begun(
            with_results(before, result_messages(results)),
            records(result_messages(results)),
            after,
            step,
        ),
    ensures
        after.messages.len() == before.messages.len() + results.len(),
        forall|i: int| 0 <= i < before.messages.len() ==> #[trigger] after.messages[i] == before.messages[i],
        forall|j: int|
            0 <= j < results.len() ==> after.messages[before.messages.len() + j] == (
            #[trigger] results[j]).1,
{
    assert forall|j: int| 0 <= j < results.len() implies after.messages[before.messages.len() + j]
        == (#[trigger] results[j]).1 by {
        assert(result_messages(results)[j] == results[j].1);
    }
}

impl<M: Clone> RoundLoop<M> {
    /// The loop's invariant.
    pub closed spec fn wf(&self) -> bool {
        loop_inv(self@)
    }

    /// Begin the next round after the effects already in `effects`.
    fn begin_round<A>(self, effects: Vec<Effect<M>>, Ghost(done): Ghost<Seq<EffectView<M>>>) -> (r: (
        RoundLoop<M>,
        Step<M, A>,
    ))
        requires
            self.iterations <= self.max_iterations < u32::MAX,
            self.messages@.len() >= 1,
            self.model_calls@ == self.iterations,
            self.tool_rounds@ == self.iterations,
            effects_are(effects@, done),
        ensures
            r.0.wf(),
            round_begun(self@, done, r.0@, r.1),
    {
        let mut effects = effects;
        let mut s = self;
        let ghost before = s@;
        match next_iteration(s.iterations, s.max_iterations) {
            Ok(n) => {
                if s.has_bus {
                    let e = Effect::Publish(
                        Outbound::Typing { channel: s.channel.clone(), chat_id: s.chat_id.clone() },
                    );
                    proof {
                        lemma_effects_push(effects@, done, e, typing(before)[0]);
                    }
                    effects.push(e);
                }
                assert(done + typing(before) =~= if s.has_bus {
                    done.push(typing(before)[0])
                } else {
                    done
                });
                s.iterations = n;
                s.model_calls = Ghost(s.model_calls@ + 1);
                s.phase = Phase::Waiting { retried: false };
                (s, Step { effects, request: Request::CallModel })
            },
            Err(_) => {
                let e = Effect::RecordText {
                    role: "assistant".to_owned(),
                    content: "I've reached the maximum number of tool iterations. Please review the actions taken above.".to_owned(),
                };
                let ghost x = EffectView::RecordText { role: "assistant"@, content: fallback_text() };
                proof {
                    lemma_effects_push(effects@, done, e, x);
                }
                effects.push(e);
                assert(done + seq![x] =~= done.push(x));
                s.phase = Phase::Saving;
                s.pending_result = None;
                (s, Step { effects, request: Request::SaveSession })
            },
        }
    }

    /// Start the loop of one user message: `messages` is the conversation for the
    /// model (system prompt, history and the message itself), `content` the
    /// user's text, `session_key` the session (`channel:chat_id`), and `has_bus`
    /// whether channel messages are published.
    pub fn start<A>(
        session_key: &str,
        content: &str,
        messages: Vec<M>,
        max_iterations: u32,
        has_bus: bool,
    ) -> (r: (RoundLoop<M>, Step<M, A>))
        requires
            messages.len() >= 1,
            max_iterations < u32::MAX,
        ensures
            r.0.wf(),
            loop_inv(r.0@),
            round_begun(
                initial(messages@, max_iterations, session_key@, has_bus),
                typing(initial(messages@, max_iterations, session_key@, has_bus)) + seq![
                    EffectView::RecordText { role: "user"@, content: content@ },
                ],
                r.0@,
                r.1,
            ),
    {
        let (channel, chat_id) = session_route(session_key);
        let s = RoundLoop {
            iterations: 0,
            max_iterations,
            phase: Phase::Done,
            messages,
            channel,
            chat_id,
            has_bus,
            pending_ids: Vec::new(),
            pending_result: None,
            model_calls: Ghost(0),
            tool_rounds: Ghost(0),
        };
        let ghost v0 = initial(s.messages@, max_iterations, session_key@, has_bus);
        assert(s@ =~= v0) by {
            assert(views(Seq::<String>::empty()) =~= Seq::<Seq<char>>::empty());
        }
        let mut effects: Vec<Effect<M>> = Vec::new();
        assert(effects_are(effects@, Seq::<EffectView<M>>::empty()));
        if has_bus {
            let e = Effect::Publish(
                Outbound::Typing { channel: s.channel.clone(), chat_id: s.chat_id.clone() },
            );
            proof {
                lemma_effects_push(effects@, Seq::empty(), e, typing(v0)[0]);
                assert(Seq::<EffectView<M>>::empty().push(typing(v0)[0]) =~= typing(v0));
            }
            effects.push(e);
        }
        assert(effects_are(effects@, typing(v0)));
        let e = Effect::RecordText { role: "user".to_owned(), content: content.to_owned() };
        let ghost x = EffectView::RecordText { role: "user"@, content: content@ };
        proof {
            lemma_effects_push(effects@, typing(v0), e, x);
        }
        effects.push(e);
        assert(typing(v0).push(x) =~= typing(v0) + seq![x]);
        s.begin_round(effects, Ghost(typing(v0) + seq![x]))
    }

    /// The conversation to send to the model.
    pub fn messages(&self) -> (r: &Vec<M>)
        ensures
            r@ == self@.messages,
    {
        &self.messages
    }

    /// Rounds started so far.
    pub fn iterations(&self) -> (r: u32)
        ensures
            r == self@.iterations,
    {
        self.iterations
    }

    /// Advance the loop by one event.
    pub fn step<A>(self, event: RoundEvent<M, A>) -> (r: (RoundLoop<M>, Step<M, A>))
        requires
            self.wf(),
        ensures
            r.0.wf(),
            loop_inv(r.0@),
            r.0@.max_iterations == self@.max_iterations,
            r.0@.channel == self@.channel,
            r.0@.chat_id == self@.chat_id,
            r.0@.has_bus == self@.has_bus,
            r.1.request matches Request::Fail(AgentError::MaxIterationsExceeded(n)) ==> n
                == self@.max_iterations && self@.model_calls == n && self@.tool_rounds == n,
            match (self@.phase, event) {
                (Phase::Waiting { retried }, RoundEvent::Failed { error, text }) => {
                    &&& r.1.effects@.len() == 0
                    &&& r.0@.iterations == self@.iterations
                    &&& r.0@.model_calls == self@.model_calls
                    &&& r.0@.tool_rounds == self@.tool_rounds
                    &&& if !retried && too_large(text@) {
                        &&& r.0@.phase == Phase::Waiting { retried: true }
                        &&& r.0@.messages == trimmed_for_retry(self@.messages)
                        &&& r.1.request is CallModelTrimmed
                    } else {
                        &&& r.0@.phase == Phase::Done
                        &&& r.0@.messages == self@.messages
                        &&& r.1.request matches Request::Fail(e) && e matches AgentError::Provider(
                            x,
                        ) && x == error
                    }
                },
                (Phase::Waiting { .. }, RoundEvent::Answered { message, content, tool_calls }) => {
                    &&& r.0@.iterations == self@.iterations
                    &&& r.0@.model_calls == self@.model_calls
                    &&& r.0@.tool_rounds == self@.tool_rounds
                    &&& r.0@.messages == self@.messages.push(message)
                    &&& if tool_calls.len() == 0 {
                        &&& r.0@.phase == Phase::Saving
                        &&& r.0@.pending_result matches Some(res) && final_result_of(
                            answer_text(content),
                            res,
                        )
                        &&& effects_are(r.1.effects@, seq![EffectView::RecordMessage(message)])
                        &&& r.1.request is SaveSession
                    } else {
                        &&& r.0@.phase == Phase::RunningTools
                        &&& r.0@.pending_ids == call_ids(tool_calls@)
                        &&& effects_are(
                            r.1.effects@,
                            seq![EffectView::RecordMessage(message)] + progress(
                                self@,
                                call_names(tool_calls@),
                            ),
                        )
                        &&& r.1.request matches Request::RunTools(calls) && calls@ == tool_calls@
                    }
                },
                (Phase::RunningTools, RoundEvent::ToolResults(results)) => if results_fit(
                    self@.pending_ids,
                    results@,
                ) {
                    &&& round_begun(
                        with_results(self@, result_messages(results@)),
                        records(result_messages(results@)),
                        r.0@,
                        r.1,
                    )
                    &&& r.0@.messages.len() == self@.messages.len() + results@.len()
                    &&& forall|i: int|
                        0 <= i < self@.messages.len() ==> #[trigger] r.0@.messages[i]
                            == self@.messages[i]
                    &&& forall|j: int|
                        0 <= j < results@.len() ==> r.0@.messages[self@.messages.len() + j]
                            == (#[trigger] results@[j]).1
                } else {
                    r.0@ == self@ && r.1.effects@.len() == 0 && r.1.request is Ignore
                },
                (Phase::Saving, RoundEvent::Saved) => {
                    &&& r.0@.phase == Phase::Done
                    &&& r.0@.iterations == self@.iterations
                    &&& match self@.pending_result {
                        Some(res) => {
                            &&& effects_are(r.1.effects@, reply(self@, res.content@))
                            &&& r.1.request matches Request::Finish(x) && x == res
                        },
                        None => {
                            &&& r.1.effects@.len() == 0
                            &&& r.1.request matches Request::Fail(e) && e matches AgentError::MaxIterationsExceeded(n) && n == self@.max_iterations
                        },
                    }
                },
                (Phase::Saving, RoundEvent::SaveFailed(error)) => {
                    &&& r.0@.phase == Phase::Done
                    &&& r.1.effects@.len() == 0
                    &&& r.1.request matches Request::Fail(e) && e matches AgentError::Session(x)
                        && x == error
                },
                _ => r.0@ == self@ && r.1.effects@.len() == 0 && r.1.request is Ignore,
            },
    {
        let ghost old_v = self@;
        let mut s = self;
        let phase = s.phase;
        match (phase, event) {
            (Phase::Waiting { retried }, RoundEvent::Failed { error, text }) => {
                if !retried && is_payload_too_large(text.as_str()) {
                    let mut messages: Vec<M> = Vec::new();
                    std::mem::swap(&mut messages, &mut s.messages);
                    s.messages = trim_for_retry(messages);
                    s.phase = Phase::Waiting { retried: true };
                    (s, Step { effects: Vec::new(), request: Request::CallModelTrimmed })
                } else {
                    s.phase = Phase::Done;
                    (
                        s,
                        Step {
                            effects: Vec::new(),
                            request: Request::Fail(AgentError::Provider(error)),
                        },
                    )
                }
            },
            (Phase::Waiting { .. }, RoundEvent::Answered { message, content, tool_calls }) => {
                let mut effects: Vec<Effect<M>> = Vec::new();
                let copy = message.clone();
                let e = Effect::RecordMessage(copy);
                let ghost x = EffectView::RecordMessage(message);
                proof {
                    lemma_effects_push(effects@, Seq::empty(), e, x);
                    assert(Seq::<EffectView<M>>::empty().push(x) =~= seq![x]);
                }
                effects.push(e);
                s.messages.push(message);
                if tool_calls.len() == 0 {
                    let text: &str = match &content {
                        Some(c) => c.as_str(),
                        None => "",
                    };
                    proof {
                        reveal_strlit("");
                        assert(""@ =~= Seq::<char>::empty());
                    }
                    assert(text@ == answer_text(content));
                    s.pending_result = Some(final_result(text));
                    s.phase = Phase::Saving;
                    (s, Step { effects, request: Request::SaveSession })
                } else {
                    let mut names: Vec<String> = Vec::new();
                    let mut ids: Vec<String> = Vec::new();
                    let mut i: usize = 0;
                    while i < tool_calls.len()
                        invariant
                            i <= tool_calls.len(),
                            views(names@) == call_names(tool_calls@).take(i as int),
                            views(ids@) == call_ids(tool_calls@).take(i as int),
                        decreases tool_calls.len() - i,
                    {
                        let ghost n0 = names@;
                        let ghost i0 = ids@;
                        names.push(tool_calls[i].name.clone());
                        ids.push(tool_calls[i].id.clone());
                        assert(views(names@) =~= views(n0).push(tool_calls@[i as int].name@));
                        assert(views(ids@) =~= views(i0).push(tool_calls@[i as int].id@));
                        assert(call_names(tool_calls@).take(i + 1) =~= call_names(tool_calls@).take(
                            i as int,
                        ).push(tool_calls@[i as int].name@));
                        assert(call_ids(tool_calls@).take(i + 1) =~= call_ids(tool_calls@).take(
                            i as int,
                        ).push(tool_calls@[i as int].id@));
                        i = i + 1;
                    }
                    assert(call_names(tool_calls@).take(tool_calls.len() as int) =~= call_names(
                        tool_calls@,
                    ));
                    assert(call_ids(tool_calls@).take(tool_calls.len() as int) =~= call_ids(
                        tool_calls@,
                    ));
                    if s.has_bus {
                        let text = progress_message(names.as_slice());
                        let e = Effect::Publish(
                            Outbound::Progress {
                                channel: s.channel.clone(),
                                chat_id: s.chat_id.clone(),
                                text,
                            },
                        );
                        proof {
                            lemma_effects_push(
                                effects@,
                                seq![x],
                                e,
                                progress(old_v, call_names(tool_calls@))[0],
                            );
                        }
                        effects.push(e);
                    }
                    assert(seq![x] + progress(old_v, call_names(tool_calls@)) =~= if s.has_bus {
                        seq![x].push(progress(old_v, call_names(tool_calls@))[0])
                    } else {
                        seq![x]
                    });
                    s.pending_ids = ids;
                    s.phase = Phase::RunningTools;
                    (s, Step { effects, request: Request::RunTools(tool_calls) })
                }
            },
            (Phase::RunningTools, RoundEvent::ToolResults(results)) => {
                if !Self::fits(&s.pending_ids, &results) {
                    return (s, Step { effects: Vec::new(), request: Request::Ignore });
                }
                let ghost ms = result_messages(results@);
                let mut effects: Vec<Effect<M>> = Vec::new();
                let ghost start_messages = s.messages@;
                let n = results.len();
                let mut rest = results;
                let ghost all = rest@;
                assert(effects_are(effects@, records(ms.take(0))));
                let mut i: usize = 0;
                while i < n
                    invariant
                        i <= n,
                        n == ms.len(),
                        ms == result_messages(all),
                        loop_inv(old_v),
                        old_v.phase == Phase::RunningTools,
                        s.iterations == old_v.iterations,
                        s.max_iterations == old_v.max_iterations,
                        s.model_calls@ == old_v.model_calls,
                        s.tool_rounds@ == old_v.tool_rounds,
                        s.channel@ == old_v.channel,
                        s.chat_id@ == old_v.chat_id,
                        s.has_bus == old_v.has_bus,
                        s.phase == old_v.phase,
                        s.pending_result == old_v.pending_result,
                        start_messages == old_v.messages,
                        all.len() == n,
                        rest@ == all.skip(i as int),
                        s.messages@ == start_messages + ms.take(i as int),
                        effects_are(effects@, records(ms.take(i as int))),
                    decreases n - i,
                {
                    assert(rest@[0] == all[i as int]);
                    let (_, m) = rest.remove(0);
                    assert(rest@ =~= all.skip(i + 1));
                    let copy = m.clone();
                    let e = Effect::RecordMessage(copy);
                    proof {
                        lemma_effects_push(effects@, records(ms.take(i as int)), e, EffectView::RecordMessage(ms[i as int]));
                        assert(records(ms.take(i + 1)) =~= records(ms.take(i as int)).push(
                            EffectView::RecordMessage(ms[i as int]),
                        ));
                        assert(ms.take(i + 1) =~= ms.take(i as int).push(ms[i as int]));
                    }
                    effects.push(e);
                    s.messages.push(m);
                    i = i + 1;
                }
                assert(ms.take(n as int) =~= ms);
                s.tool_rounds = Ghost(s.tool_rounds@ + 1);
                s.pending_ids = Vec::new();
                let ghost mid = s@;
                assert(mid.messages == with_results(old_v, ms).messages);
                s.begin_round(effects, Ghost(records(ms)))
            },
            (Phase::Saving, RoundEvent::Saved) => {
                s.phase = Phase::Done;
                match s.pending_result.take() {
                    Some(res) => {
                        let mut effects: Vec<Effect<M>> = Vec::new();
                        if s.has_bus {
                            let e = Effect::Publish(
                                Outbound::Reply {
                                    channel: s.channel.clone(),
                                    chat_id: s.chat_id.clone(),
                                    content: res.content.clone(),
                                },
                            );
                            proof {
                                lemma_effects_push(
                                    effects@,
                                    Seq::empty(),
                                    e,
                                    reply(old_v, res.content@)[0],
                                );
                                assert(Seq::<EffectView<M>>::empty().push(
                                    reply(old_v, res.content@)[0],
                                ) =~= reply(old_v, res.content@));
                            }
                            effects.push(e);
                        }
                        (s, Step { effects, request: Request::Finish(res) })
                    },
                    None => {
                        let n = s.max_iterations;
                        (
                            s,
                            Step {
                                effects: Vec::new(),
                                request: Request::Fail(AgentError::MaxIterationsExceeded(n)),
                            },
                        )
                    },
                }
            },
            (Phase::Saving, RoundEvent::SaveFailed(error)) => {
                s.phase = Phase::Done;
                (s, Step { effects: Vec::new(), request: Request::Fail(AgentError::Session(error)) })
            },
            (_, _) => (s, Step { effects: Vec::new(), request: Request::Ignore }),
        }
    }

    /// Whether tool results answer the pending calls, one per call in call order.
    fn fits(pending_ids: &Vec<String>, results: &Vec<(String, M)>) -> (r: bool)
        ensures
            r == results_fit(views(pending_ids@), results@),
    {
        if results.len() != pending_ids.len() {
            return false;
        }
        let mut i: usize = 0;
        while i < results.len()
            invariant
                i <= results.len(),
                results.len() == pending_ids.len(),
                forall|j: int| 0 <= j < i ==> (#[trigger] results@[j]).0@ == pending_ids@[j]@,
            decreases results.len() - i,
        {
            if !str_eq(results[i].0.as_str(), pending_ids[i].as_str()) {
                assert(results@[i as int].0@ != views(pending_ids@)[i as int]);
                return false;
            }
            i = i + 1;
        }
        true
    }
}

} // verus!
