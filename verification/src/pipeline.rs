//! The per-channel pipeline, as decisions.  A consumer loop outside this
//! crate takes each message from the queue and drives it through: the
//! deduplication verdict, the processor chain, the destinations, the status
//! writes and the reply — every decision is made here, with a contract, and
//! the loop only performs them.
//!
//! The chain is a machine: `advance` runs the verified processors (mapper,
//! flattener) until a script or filter needs the embedded interpreter, and
//! hands control out; `resume_after_script` and `resume_after_filter` take
//! the interpreter's answer and go on.  Every path ends in a `Done` whose
//! planned final status is `SENT`, `FILTERED` or `ERROR` — no message the
//! pipeline takes up is left `PROCESSING`.

use vstd::prelude::*;

use crate::hl7::{hl7_flatten, hl7_model};
use crate::json::{json_parse_of, json_text_of};
use crate::mapper::{apply_mapper, apply_mappings};
use crate::message::Message;
use crate::models::{DestinationConfig, ProcessorConfig, ProcessorType};
use crate::script::{filter_verdict, LuaOutcome};
use crate::status::MessageStatus;
use vstd::string::{StrSliceExecFns, StringExecFns, StringSliceAdditionalSpecFns};
use vstd::utf8::encode_utf8;

verus! {

/// How one message leaves the chain.  A failure keeps the message as it
/// stood, so that the error destination can still receive it.
pub enum ChainOutcome {
    Completed(Message),
    Filtered,
    Failed { msg: Message, error: String },
}

/// What the chain asks of its driver next.
pub enum ChainStep {
    RunScript { code: String, msg: Message, idx: usize },
    RunFilter { condition: String, msg: Message, idx: usize },
    Done(ChainOutcome),
}

/// The abstract next step, over the content characters.
pub enum SpecStep {
    Script { code: Seq<char>, content: Seq<char>, idx: int },
    Filter { condition: Seq<char>, content: Seq<char>, idx: int },
    Completed { content: Seq<char> },
    Failed,
}

/// Running the chain from processor `i` on a content until a script or
/// filter needs the interpreter, or the end or an error is reached.
pub open spec fn spec_advance(procs: Seq<ProcessorConfig>, content: Seq<char>, i: int) -> SpecStep
    decreases procs.len() - i,
{
    if i < 0 || i >= procs.len() {
        SpecStep::Completed { content }
    } else {
        match procs[i].kind {
            ProcessorType::Lua { code } => SpecStep::Script { code: code@, content, idx: i },
            ProcessorType::Filter { condition } => SpecStep::Filter {
                condition: condition@,
                content,
                idx: i,
            },
            ProcessorType::Router { .. } => spec_advance(procs, content, i + 1),
            ProcessorType::Hl7 { .. } => spec_advance(
                procs,
                json_text_of(hl7_model(encode_utf8(content))),
                i + 1,
            ),
            ProcessorType::Mapper { mappings } => match json_parse_of(content) {
                None => SpecStep::Failed,
                Some(m) => match apply_mappings(m, mappings@) {
                    None => SpecStep::Failed,
                    Some(m2) => spec_advance(procs, json_text_of(m2), i + 1),
                },
            },
        }
    }
}

/// The exec step answers to the abstract one: same kind, same content, same
/// position, and the message keeps its identity.
pub open spec fn step_matches(r: ChainStep, step: SpecStep, orig: Message) -> bool {
    match r {
        ChainStep::RunScript { code, msg, idx } => {
            &&& step matches SpecStep::Script { code: c, content, idx: si } && code@ == c
                && msg.content@ == content && idx as int == si
            &&& keeps_identity(msg, orig)
        },
        ChainStep::RunFilter { condition, msg, idx } => {
            &&& step matches SpecStep::Filter { condition: c, content, idx: si } && condition@ == c
                && msg.content@ == content && idx as int == si
            &&& keeps_identity(msg, orig)
        },
        ChainStep::Done(ChainOutcome::Completed(msg)) => {
            &&& step matches SpecStep::Completed { content } && msg.content@ == content
            &&& keeps_identity(msg, orig)
        },
        ChainStep::Done(ChainOutcome::Filtered) => false,
        ChainStep::Done(ChainOutcome::Failed { msg, error }) => {
            &&& step is Failed
            &&& keeps_identity(msg, orig)
        },
    }
}

/// Identity never changes in the chain: processors rewrite content only.
pub open spec fn keeps_identity(m: Message, orig: Message) -> bool {
    m.id == orig.id && m.channel_id == orig.channel_id && m.origin == orig.origin
}

pub struct PipelineProcessor {
    pub channel_id: u128,
    pub channel_name: String,
    pub processors: Vec<ProcessorConfig>,
    pub destinations: Vec<DestinationConfig>,
    pub error_destination: Option<DestinationConfig>,
}

impl PipelineProcessor {
    pub fn new(
        channel_id: u128,
        channel_name: String,
        processors: Vec<ProcessorConfig>,
        destinations: Vec<DestinationConfig>,
        error_destination: Option<DestinationConfig>,
    ) -> (r: Self)
        ensures
            r.channel_id == channel_id,
            r.channel_name == channel_name,
            r.processors == processors,
            r.destinations == destinations,
            r.error_destination == error_destination,
    {
        PipelineProcessor { channel_id, channel_name, processors, destinations, error_destination }
    }

    /// Runs the chain from processor `idx` until the interpreter is needed,
    /// the end is reached, or a verified processor fails.
    pub fn advance(&self, msg: Message, idx: usize) -> (r: ChainStep)
        ensures
            step_matches(r, spec_advance(self.processors@, msg.content@, idx as int), msg),
    {
        let n = self.processors.len();
        let mut cur = msg;
        let mut i: usize = idx;
        while i < n
            invariant
                n == self.processors@.len(),
                i <= n || i == idx,
                keeps_identity(cur, msg),
                spec_advance(self.processors@, msg.content@, idx as int) == spec_advance(
                    self.processors@,
                    cur.content@,
                    i as int,
                ),
            decreases n - i,
        {
            match &self.processors[i].kind {
                ProcessorType::Lua { code } => {
                    return ChainStep::RunScript { code: code.clone(), msg: cur, idx: i };
                },
                ProcessorType::Filter { condition } => {
                    return ChainStep::RunFilter { condition: condition.clone(), msg: cur, idx: i };
                },
                ProcessorType::Router { .. } => {
                    i += 1;
                },
                ProcessorType::Hl7 { .. } => {
                    let flat = hl7_flatten(cur.content.as_str());
                    cur = cur.with_content(flat);
                    i += 1;
                },
                ProcessorType::Mapper { mappings } => {
                    let backup = cur.duplicate();
                    match apply_mapper(mappings, cur) {
                        Ok(m2) => {
                            cur = m2;
                            i += 1;
                        },
                        Err(e) => {
                            return ChainStep::Done(
                                ChainOutcome::Failed { msg: backup, error: e },
                            );
                        },
                    }
                },
            }
        }
        ChainStep::Done(ChainOutcome::Completed(cur))
    }

    /// Takes the interpreter's answer for a script processor: a new content
    /// continues the chain, an interpreter error ends it.
    pub fn resume_after_script(&self, msg: Message, idx: usize, result: Result<String, String>)
        -> (r: ChainStep)
        requires
            idx < usize::MAX,
        ensures
            match result {
                Ok(content) => step_matches(
                    r,
                    spec_advance(self.processors@, content@, idx + 1),
                    msg,
                ),
                Err(e) => r matches ChainStep::Done(ChainOutcome::Failed { msg: m, error })
                    && m == msg && error == e,
            },
    {
        match result {
            Ok(content) => self.advance(msg.with_content(content), idx + 1),
            Err(e) => ChainStep::Done(ChainOutcome::Failed { msg, error: e }),
        }
    }

    /// Takes the interpreter's answer for a filter: only a boolean `false`
    /// filters the message out; `true` and every non-boolean result — nil
    /// included — continue the chain; an interpreter error ends it.
    pub fn resume_after_filter(
        &self,
        msg: Message,
        idx: usize,
        result: Result<LuaOutcome, String>,
    ) -> (r: ChainStep)
        requires
            idx < usize::MAX,
        ensures
            match result {
                Ok(outcome) => {
                    if outcome matches LuaOutcome::Bool(b) && !b {
                        r matches ChainStep::Done(ChainOutcome::Filtered)
                    } else {
                        step_matches(r, spec_advance(self.processors@, msg.content@, idx + 1), msg)
                    }
                },
                Err(e) => r matches ChainStep::Done(ChainOutcome::Failed { msg: m, error })
                    && m == msg && error == e,
            },
    {
        match result {
            Ok(outcome) => {
                if filter_verdict(&outcome) {
                    self.advance(msg, idx + 1)
                } else {
                    ChainStep::Done(ChainOutcome::Filtered)
                }
            },
            Err(e) => ChainStep::Done(ChainOutcome::Failed { msg, error: e }),
        }
    }
}

/// What a synchronous caller is told.
pub enum ReplyOutcome {
    Processed,
    FilteredOut,
    Duplicate,
    Rejected(String),
}

/// One effect the driver performs against the stores, the bus, the caller
/// or the destinations.
pub enum PipelineAction {
    MarkProcessed,
    SetStatus(MessageStatus, Option<String>),
    EmitMetric(MessageStatus),
    Reply(ReplyOutcome),
    RunDestinations,
    RunErrorDestination,
}

/// The mathematical shape of a reply.
pub enum ReplyModel {
    Processed,
    FilteredOut,
    Duplicate,
    Rejected(Seq<char>),
}

/// The mathematical shape of an effect.
pub enum ActionModel {
    MarkProcessed,
    SetStatus(MessageStatus, Option<Seq<char>>),
    EmitMetric(MessageStatus),
    Reply(ReplyModel),
    RunDestinations,
    RunErrorDestination,
}

/// The model of one effect.
pub open spec fn action_view(a: PipelineAction) -> ActionModel {
    match a {
        PipelineAction::MarkProcessed => ActionModel::MarkProcessed,
        PipelineAction::SetStatus(st, e) => ActionModel::SetStatus(
            st,
            match e {
                Some(t) => Some(t@),
                None => None,
            },
        ),
        PipelineAction::EmitMetric(st) => ActionModel::EmitMetric(st),
        PipelineAction::Reply(rep) => ActionModel::Reply(
            match rep {
                ReplyOutcome::Processed => ReplyModel::Processed,
                ReplyOutcome::FilteredOut => ReplyModel::FilteredOut,
                ReplyOutcome::Duplicate => ReplyModel::Duplicate,
                ReplyOutcome::Rejected(t) => ReplyModel::Rejected(t@),
            },
        ),
        PipelineAction::RunDestinations => ActionModel::RunDestinations,
        PipelineAction::RunErrorDestination => ActionModel::RunErrorDestination,
    }
}

/// The model of a whole plan.
pub open spec fn plan_view(p: Seq<PipelineAction>) -> Seq<ActionModel>
    decreases p.len(),
{
    if p.len() == 0 {
        Seq::empty()
    } else {
        plan_view(p.drop_last()).push(action_view(p.last()))
    }
}

/// The model of how one message left the chain.
pub open spec fn outcome_view(o: ChainOutcome) -> OutcomeModel {
    match o {
        ChainOutcome::Completed(_) => OutcomeModel::Completed,
        ChainOutcome::Filtered => OutcomeModel::Filtered,
        ChainOutcome::Failed { msg: _, error } => OutcomeModel::Failed(error@),
    }
}

pub enum OutcomeModel {
    Completed,
    Filtered,
    Failed(Seq<char>),
}

/// The effects when a message arrives: a duplicate is filtered with its
/// reason and answered kindly; a fresh message is recorded and marked
/// processing.
pub open spec fn spec_dedup_plan(is_duplicate: bool) -> Seq<ActionModel> {
    if is_duplicate {
        seq![
            ActionModel::SetStatus(MessageStatus::FILTERED, Some("Duplicate message"@)),
            ActionModel::Reply(ReplyModel::Duplicate),
        ]
    } else {
        seq![
            ActionModel::MarkProcessed,
            ActionModel::SetStatus(MessageStatus::PROCESSING, None),
            ActionModel::EmitMetric(MessageStatus::PROCESSING),
        ]
    }
}

/// The effects once the chain has decided: completion delivers and marks
/// sent; a filter marks filtered; a failure marks the error, answers the
/// caller with it, and diverts to the error destination.
pub open spec fn spec_outcome_plan(o: OutcomeModel) -> Seq<ActionModel> {
    match o {
        OutcomeModel::Completed => seq![
            ActionModel::RunDestinations,
            ActionModel::SetStatus(MessageStatus::SENT, None),
            ActionModel::EmitMetric(MessageStatus::SENT),
            ActionModel::Reply(ReplyModel::Processed),
        ],
        OutcomeModel::Filtered => seq![
            ActionModel::SetStatus(MessageStatus::FILTERED, None),
            ActionModel::Reply(ReplyModel::FilteredOut),
        ],
        OutcomeModel::Failed(e) => seq![
            ActionModel::EmitMetric(MessageStatus::ERROR),
            ActionModel::SetStatus(MessageStatus::ERROR, Some(e)),
            ActionModel::Reply(ReplyModel::Rejected(e)),
            ActionModel::RunErrorDestination,
        ],
    }
}

/// The effects for an arriving message, given the duplicate verdict.
pub fn dedup_plan(is_duplicate: bool) -> (r: Vec<PipelineAction>)
    ensures
        plan_view(r@) == spec_dedup_plan(is_duplicate),
{
    if is_duplicate {
        let mut r: Vec<PipelineAction> = Vec::new();
        r.push(
            PipelineAction::SetStatus(
                MessageStatus::FILTERED,
                Some(String::from_str("Duplicate message")),
            ),
        );
        r.push(PipelineAction::Reply(ReplyOutcome::Duplicate));
        proof {
            lemma_plan_view_two(r@);
            assert(plan_view(r@) =~~= spec_dedup_plan(true));
        }
        r
    } else {
        let mut r: Vec<PipelineAction> = Vec::new();
        r.push(PipelineAction::MarkProcessed);
        r.push(PipelineAction::SetStatus(MessageStatus::PROCESSING, None));
        r.push(PipelineAction::EmitMetric(MessageStatus::PROCESSING));
        proof {
            lemma_plan_view_three(r@);
            assert(plan_view(r@) =~~= spec_dedup_plan(false));
        }
        r
    }
}

/// The effects once the chain has decided.
pub fn outcome_plan(outcome: ChainOutcome) -> (r: Vec<PipelineAction>)
    ensures
        plan_view(r@) == spec_outcome_plan(outcome_view(outcome)),
{
    match outcome {
        ChainOutcome::Completed(_) => {
            let mut r: Vec<PipelineAction> = Vec::new();
            r.push(PipelineAction::RunDestinations);
            r.push(PipelineAction::SetStatus(MessageStatus::SENT, None));
            r.push(PipelineAction::EmitMetric(MessageStatus::SENT));
            r.push(PipelineAction::Reply(ReplyOutcome::Processed));
            proof {
                lemma_plan_view_four(r@);
                assert(plan_view(r@) =~~= spec_outcome_plan(OutcomeModel::Completed));
            }
            r
        },
        ChainOutcome::Filtered => {
            let mut r: Vec<PipelineAction> = Vec::new();
            r.push(PipelineAction::SetStatus(MessageStatus::FILTERED, None));
            r.push(PipelineAction::Reply(ReplyOutcome::FilteredOut));
            proof {
                lemma_plan_view_two(r@);
                assert(plan_view(r@) =~~= spec_outcome_plan(OutcomeModel::Filtered));
            }
            r
        },
        ChainOutcome::Failed { msg: _, error } => {
            let ghost etext = error@;
            let e2 = error.clone();
            let mut r: Vec<PipelineAction> = Vec::new();
            r.push(PipelineAction::EmitMetric(MessageStatus::ERROR));
            r.push(PipelineAction::SetStatus(MessageStatus::ERROR, Some(e2)));
            r.push(PipelineAction::Reply(ReplyOutcome::Rejected(error)));
            r.push(PipelineAction::RunErrorDestination);
            proof {
                lemma_plan_view_four(r@);
                assert(plan_view(r@) =~~= spec_outcome_plan(OutcomeModel::Failed(etext)));
            }
            r
        },
    }
}

/// Unrolls a two-action plan's view.
proof fn lemma_plan_view_two(p: Seq<PipelineAction>)
    requires
        p.len() == 2,
    ensures
        plan_view(p) == seq![action_view(p[0]), action_view(p[1])],
{
    assert(p.drop_last().drop_last() =~= Seq::<PipelineAction>::empty());
    assert(plan_view(Seq::<PipelineAction>::empty()) == Seq::<ActionModel>::empty());
    assert(p.drop_last().last() == p[0]);
    assert(p.last() == p[1]);
    assert(plan_view(p.drop_last()) =~~= seq![action_view(p[0])]);
    assert(plan_view(p) =~~= seq![action_view(p[0]), action_view(p[1])]);
}

/// Unrolls a three-action plan's view.
proof fn lemma_plan_view_three(p: Seq<PipelineAction>)
    requires
        p.len() == 3,
    ensures
        plan_view(p) == seq![action_view(p[0]), action_view(p[1]), action_view(p[2])],
{
    lemma_plan_view_two(p.drop_last());
    assert(p.drop_last()[0] == p[0]);
    assert(p.drop_last()[1] == p[1]);
    assert(plan_view(p) =~~= seq![action_view(p[0]), action_view(p[1]), action_view(p[2])]);
}

/// Unrolls a four-action plan's view.
proof fn lemma_plan_view_four(p: Seq<PipelineAction>)
    requires
        p.len() == 4,
    ensures
        plan_view(p) == seq![
            action_view(p[0]),
            action_view(p[1]),
            action_view(p[2]),
            action_view(p[3]),
        ],
{
    lemma_plan_view_three(p.drop_last());
    assert(p.drop_last()[0] == p[0]);
    assert(p.drop_last()[1] == p[1]);
    assert(p.drop_last()[2] == p[2]);
    assert(plan_view(p) =~~= seq![
        action_view(p[0]),
        action_view(p[1]),
        action_view(p[2]),
        action_view(p[3]),
    ]);
}

/// The last status a plan writes.
pub open spec fn final_status(plan: Seq<ActionModel>) -> Option<MessageStatus>
    decreases plan.len(),
{
    if plan.len() == 0 {
        None
    } else {
        match plan.last() {
            ActionModel::SetStatus(st, _) => Some(st),
            _ => final_status(plan.drop_last()),
        }
    }
}

/// Every message the pipeline takes up ends in `SENT`, `FILTERED` or
/// `ERROR`: whatever the chain decided, the plan's last status write is a
/// terminal one or `ERROR` — never `PROCESSING`, never `PENDING`.
pub proof fn lemma_every_outcome_terminal(o: OutcomeModel)
    ensures
        final_status(spec_outcome_plan(o)) matches Some(st) && (st.is_terminal() || st is ERROR),
{
    let plan = spec_outcome_plan(o);
    match o {
        OutcomeModel::Completed => {
            assert(plan.last() == plan[3]);
            assert(final_status(plan) == final_status(plan.drop_last()));
            assert(plan.drop_last().last() == plan[2]);
            assert(final_status(plan.drop_last()) == final_status(plan.drop_last().drop_last()));
            assert(plan.drop_last().drop_last().last() == plan[1]);
            assert(final_status(plan.drop_last().drop_last()) == Some(MessageStatus::SENT));
        },
        OutcomeModel::Filtered => {
            assert(plan.last() == plan[1]);
            assert(final_status(plan) == final_status(plan.drop_last()));
            assert(plan.drop_last().last() == plan[0]);
            assert(final_status(plan.drop_last()) == Some(MessageStatus::FILTERED));
        },
        OutcomeModel::Failed(e) => {
            assert(plan.last() == plan[3]);
            assert(final_status(plan) == final_status(plan.drop_last()));
            assert(plan.drop_last().last() == plan[2]);
            assert(final_status(plan.drop_last()) == final_status(plan.drop_last().drop_last()));
            assert(plan.drop_last().drop_last().last() == plan[1]);
            assert(final_status(plan.drop_last().drop_last()) == Some(MessageStatus::ERROR));
        },
    }
}

/// A duplicate, too, is left `FILTERED` — never stuck in `PROCESSING`.
pub proof fn lemma_duplicate_terminal()
    ensures
        final_status(spec_dedup_plan(true)) matches Some(st) && st.is_terminal(),
{
    let plan = spec_dedup_plan(true);
    assert(plan.last() == plan[1]);
    assert(final_status(plan) == final_status(plan.drop_last()));
    assert(plan.drop_last().last() == plan[0]);
    assert(final_status(plan.drop_last()) == Some(MessageStatus::FILTERED));
}

} // verus!
