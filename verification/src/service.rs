//! The span-tracking actor: the one owner of the spans that are open.
//!
//! The actor takes commands one at a time, in the order of their arrival.
//! Starting a span files it under the client's number; finishing a span
//! takes it out again and hands it to the caller, which reports it. The
//! actor neither waits nor fails: a command that names an unknown span is
//! passed over, and a number that is used twice keeps the later span, while
//! the earlier one is handed over as it stands.

use crate::command::{commands_view, tags_view, Command, CommandView};
use crate::context::TraceContext;
use crate::time::Timestamp;
use std::collections::HashMap;
use vstd::prelude::*;

verus! {

broadcast use vstd::std_specs::hash::group_hash_axioms;

/// A link from a span to an open span that it named when it started.
#[derive(Clone, Copy, Debug, PartialEq, Eq, Structural)]
pub enum SpanReference {
    /// The other span is the parent.
    ChildOf(TraceContext),
    /// The other span came before, without being the parent.
    FollowsFrom(TraceContext),
}

/// A span that has started and not finished.
#[derive(Debug)]
pub struct OpenSpan {
    pub context: TraceContext,
    pub operation_name: String,
    pub references: Vec<SpanReference>,
    pub tags: Vec<(String, String)>,
    pub start_time: Timestamp,
}

/// An open span, with its texts as sequences of characters.
pub struct OpenSpanView {
    pub context: TraceContext,
    pub operation_name: Seq<char>,
    pub references: Seq<SpanReference>,
    pub tags: Seq<(Seq<char>, Seq<char>)>,
    pub start_time: Timestamp,
}

impl View for OpenSpan {
    type V = OpenSpanView;

    open spec fn view(&self) -> OpenSpanView {
        OpenSpanView {
            context: self.context,
            operation_name: self.operation_name@,
            references: self.references@,
            tags: tags_view(self.tags@),
            start_time: self.start_time,
        }
    }
}

/// A span that has finished and awaits reporting.
#[derive(Debug)]
pub struct FinishedSpan {
    pub span: OpenSpan,
    pub finish_time: Timestamp,
}

/// A finished span, with its texts as sequences of characters.
pub struct FinishedSpanView {
    pub span: OpenSpanView,
    pub finish_time: Timestamp,
}

impl View for FinishedSpan {
    type V = FinishedSpanView;

    open spec fn view(&self) -> FinishedSpanView {
        FinishedSpanView { span: self.span@, finish_time: self.finish_time }
    }
}

/// The open spans by the clients' numbers.
pub type Registry = Map<u64, OpenSpanView>;

/// The context of the open span that `id` names, if it names one.
pub open spec fn resolved(registry: Registry, id: Option<u64>) -> Option<TraceContext> {
    match id {
        Some(key) => if registry.contains_key(key) {
            Some(registry[key].context)
        } else {
            None
        },
        None => None,
    }
}

/// The links of a new span: to its parent first, then to its predecessor.
pub open spec fn references_to(
    child_of: Option<TraceContext>,
    follows_from: Option<TraceContext>,
) -> Seq<SpanReference> {
    let first = match child_of {
        Some(parent) => seq![SpanReference::ChildOf(parent)],
        None => Seq::<SpanReference>::empty(),
    };
    let second = match follows_from {
        Some(predecessor) => seq![SpanReference::FollowsFrom(predecessor)],
        None => Seq::<SpanReference>::empty(),
    };
    first + second
}

/// The time that a command gives, or else the time at which it is handled.
pub open spec fn time_or(given: Option<Timestamp>, now: Timestamp) -> Timestamp {
    match given {
        Some(time) => time,
        None => now,
    }
}

/// The registry after one command.
pub open spec fn step(registry: Registry, command: CommandView, now: Timestamp) -> Registry {
    match command {
        CommandView::StartSpan { span_id, operation_name, child_of, follows_from, tags, time } => {
            let parent = resolved(registry, child_of);
            let predecessor = resolved(registry, follows_from);
            registry.insert(
                span_id,
                OpenSpanView {
                    context: TraceContext::derived(span_id, parent, predecessor),
                    operation_name,
                    references: references_to(parent, predecessor),
                    tags,
                    start_time: time_or(time, now),
                },
            )
        },
        CommandView::Finish { span_id, .. } => registry.remove(span_id),
    }
}

/// The span that leaves the registry under `span_id`, if one is open
/// there, finished at the time `at`.
pub open spec fn released(registry: Registry, span_id: u64, at: Timestamp) -> Option<
    FinishedSpanView,
> {
    if registry.contains_key(span_id) {
        Some(FinishedSpanView { span: registry[span_id], finish_time: at })
    } else {
        None
    }
}

/// The span that one command hands over for reporting, if it hands one
/// over: `Finish` the span it names, at the time it gives or else at `now`;
/// `StartSpan` the span that it displaces, at `now`.
pub open spec fn outcome(registry: Registry, command: CommandView, now: Timestamp) -> Option<
    FinishedSpanView,
> {
    match command {
        CommandView::StartSpan { span_id, .. } => released(registry, span_id, now),
        CommandView::Finish { span_id, finish_time } => released(
            registry,
            span_id,
            time_or(finish_time, now),
        ),
    }
}

/// A command together with the time at which the actor handles it.
pub struct Arrival {
    pub command: CommandView,
    pub at: Timestamp,
}

/// The commands of one batch as arrivals, all handled at the time `at`.
pub open spec fn arrivals(commands: Seq<CommandView>, at: Timestamp) -> Seq<Arrival> {
    Seq::new(commands.len(), |i: int| Arrival { command: commands[i], at })
}

/// The registry and the finished spans after the commands that arrived,
/// taken one after another in the order of their arrival.
pub open spec fn run(registry: Registry, arrived: Seq<Arrival>) -> (
    Registry,
    Seq<FinishedSpanView>,
)
    decreases arrived.len(),
{
    if arrived.len() == 0 {
        (registry, Seq::empty())
    } else {
        let before = run(registry, arrived.drop_last());
        let last = arrived.last();
        (
            step(before.0, last.command, last.at),
            match outcome(before.0, last.command, last.at) {
                Some(span) => before.1.push(span),
                None => before.1,
            },
        )
    }
}

/// Every open span is filed under the number that its context carries, and
/// is sampled.
pub open spec fn filed_by_span_id(registry: Registry) -> bool {
    forall|key: u64| #[trigger]
        registry.contains_key(key) ==> registry[key].context.span_id == key
            && registry[key].context.sampled
}

/// The views of a list of finished spans, in order.
pub open spec fn finished_view(spans: Seq<FinishedSpan>) -> Seq<FinishedSpanView> {
    Seq::new(spans.len(), |i: int| spans[i]@)
}

/// The span-tracking actor.
#[derive(Debug)]
pub struct Service {
    spans: HashMap<u64, OpenSpan>,
}

impl View for Service {
    type V = Registry;

    closed spec fn view(&self) -> Registry {
        Map::new(|key: u64| self.spans@.contains_key(key), |key: u64| self.spans@[key]@)
    }
}

impl Service {
    /// The actor's invariant: every open span is filed under its own
    /// number, and there are finitely many.
    pub open spec fn wf(&self) -> bool {
        &&& filed_by_span_id(self@)
        &&& self@.dom().finite()
    }

    /// An actor without open spans.
    pub fn new() -> (service: Service)
        ensures
            service.wf(),
            service@ == Registry::empty(),
    {
        let service = Service { spans: HashMap::new() };
        assert(service@ =~= Registry::empty());
        service
    }

    /// The context of the open span that `id` names, if it names one.
    pub fn resolve(&self, id: Option<u64>) -> (context: Option<TraceContext>)
        ensures
            context == resolved(self@, id),
    {
        match id {
            Some(key) => match self.spans.get(&key) {
                Some(span) => Some(span.context),
                None => None,
            },
            None => None,
        }
    }

    /// The number of open spans.
    pub fn len(&self) -> (count: usize)
        ensures
            count == self@.len(),
    {
        assert(self@.dom() =~= self.spans@.dom());
        self.spans.len()
    }

    /// Whether no span is open.
    pub fn is_empty(&self) -> (empty: bool)
        ensures
            empty == (self@ == Registry::empty()),
    {
        assert(self@.dom() =~= self.spans@.dom());
        let empty = self.spans.is_empty();
        assert(empty ==> self@ =~= Registry::empty());
        empty
    }

    /// Whether a span is open under the number `span_id`.
    pub fn contains(&self, span_id: u64) -> (open: bool)
        ensures
            open == self@.contains_key(span_id),
    {
        self.spans.contains_key(&span_id)
    }

    /// The span that is open under the number `span_id`.
    pub fn get(&self, span_id: u64) -> (found: Option<&OpenSpan>)
        ensures
            match found {
                Some(span) => self@.contains_key(span_id) && self@[span_id] == span@,
                None => !self@.contains_key(span_id),
            },
    {
        self.spans.get(&span_id)
    }

    /// Applies one command at the time `now` and returns the span that
    /// leaves the registry by it, if one does, for the caller to report.
    ///
    /// `StartSpan` files a new span under its number. Its context follows
    /// from the spans that are open when the command arrives; it starts at
    /// the time the command gives, or else at `now`. Where a span was open
    /// under the number already, the new span takes its place and the
    /// earlier one, which no client can name any more, is returned as
    /// finished at `now`.
    /// `Finish` takes the span out of the registry and returns it, finished
    /// at the time the command gives, or else at `now`; where no span is
    /// open under the number, nothing changes and nothing is returned.
    pub fn handle_command(&mut self, command: Command, now: Timestamp) -> (finished: Option<
        FinishedSpan,
    >)
        requires
            old(self).wf(),
        ensures
            final(self).wf(),
            final(self)@ == step(old(self)@, command@, now),
            match finished {
                Some(span) => outcome(old(self)@, command@, now) == Some(span@),
                None => outcome(old(self)@, command@, now) is None,
            },
    {
        match command {
            Command::StartSpan { span_id, operation_name, child_of, follows_from, tags, time } => {
                let parent = self.resolve(child_of);
                let predecessor = self.resolve(follows_from);
                let mut references: Vec<SpanReference> = Vec::new();
                if let Some(context) = parent {
                    references.push(SpanReference::ChildOf(context));
                }
                if let Some(context) = predecessor {
                    references.push(SpanReference::FollowsFrom(context));
                }
                assert(references@ =~= references_to(parent, predecessor));
                let start_time = match time {
                    Some(given) => given,
                    None => now,
                };
                let span = OpenSpan {
                    context: TraceContext::derive(span_id, parent, predecessor),
                    operation_name,
                    references,
                    tags,
                    start_time,
                };
                let ghost filed = span@;
                let displaced = self.spans.insert(span_id, span);
                assert(self@ =~= old(self)@.insert(span_id, filed));
                match displaced {
                    Some(span) => Some(FinishedSpan { span, finish_time: now }),
                    None => None,
                }
            },
            Command::Finish { span_id, finish_time } => {
                let removed = self.spans.remove(&span_id);
                assert(self@ =~= old(self)@.remove(span_id));
                match removed {
                    Some(span) => {
                        let finish_time = match finish_time {
                            Some(given) => given,
                            None => now,
                        };
                        Some(FinishedSpan { span, finish_time })
                    },
                    None => None,
                }
            },
        }
    }

    /// Applies a batch of commands in order, all at the time `now`, and
    /// returns the spans they finished, in the order of their finishing.
    pub fn drain(&mut self, commands: Vec<Command>, now: Timestamp) -> (finished: Vec<
        FinishedSpan,
    >)
        requires
            old(self).wf(),
        ensures
            final(self).wf(),
            final(self)@ == run(old(self)@, arrivals(commands_view(commands@), now)).0,
            finished_view(finished@) == run(
                old(self)@,
                arrivals(commands_view(commands@), now),
            ).1,
    {
        let ghost given = commands@;
        let ghost all = arrivals(commands_view(given), now);
        let mut finished: Vec<FinishedSpan> = Vec::new();
        proof {
            assert(all.subrange(0, 0) =~= Seq::<Arrival>::empty());
            assert(finished_view(finished@) =~= Seq::<FinishedSpanView>::empty());
        }
        for command in iter: commands
            invariant
                iter.seq() == given,
                all == arrivals(commands_view(given), now),
                self.wf(),
                self@ == run(old(self)@, all.subrange(0, iter.index() as int)).0,
                finished_view(finished@) == run(old(self)@, all.subrange(0, iter.index() as int)).1,
        {
            let ghost done = iter.index() as int;
            let ghost reported = finished_view(finished@);
            proof {
                assert(all.subrange(0, done + 1).drop_last() =~= all.subrange(0, done));
                assert(all.subrange(0, done + 1).last() == Arrival { command: command@, at: now });
            }
            match self.handle_command(command, now) {
                Some(span) => {
                    finished.push(span);
                    assert(finished_view(finished@) =~= reported.push(span@));
                },
                None => {},
            }
        }
        assert(all.subrange(0, all.len() as int) =~= all);
        finished
    }
}

/// Starting a span is owed a context that follows from the open spans it
/// names: the trace of an open parent, else that of an open predecessor,
/// else a trace of its own.
pub proof fn lemma_start_files_derived_context(
    registry: Registry,
    span_id: u64,
    operation_name: Seq<char>,
    child_of: Option<u64>,
    follows_from: Option<u64>,
    tags: Seq<(Seq<char>, Seq<char>)>,
    time: Option<Timestamp>,
    now: Timestamp,
)
    ensures
        ({
            let after = step(
                registry,
                CommandView::StartSpan {
                    span_id,
                    operation_name,
                    child_of,
                    follows_from,
                    tags,
                    time,
                },
                now,
            );
            &&& after.contains_key(span_id)
            &&& after[span_id].context == TraceContext::derived(
                span_id,
                resolved(registry, child_of),
                resolved(registry, follows_from),
            )
            &&& after[span_id].operation_name == operation_name
            &&& after[span_id].tags == tags
            &&& after[span_id].start_time == time_or(time, now)
            &&& forall|other: u64|
                other != span_id ==> (after.contains_key(other) <==> registry.contains_key(other))
                    && after[other] == registry[other]
        }),
{
}

/// A span that names an open parent joins the parent's trace, and its
/// parent identifier is the parent's number.
pub proof fn lemma_child_of_open_span(
    registry: Registry,
    span_id: u64,
    parent: u64,
    follows_from: Option<u64>,
)
    requires
        filed_by_span_id(registry),
        registry.contains_key(parent),
    ensures
        ({
            let context = TraceContext::derived(
                span_id,
                resolved(registry, Some(parent)),
                resolved(registry, follows_from),
            );
            &&& context.trace_id == registry[parent].context.trace_id
            &&& context.parent_id == parent
            &&& context == TraceContext::derived(span_id, resolved(registry, Some(parent)), None)
        }),
{
}

/// A reference to a span that is not open counts for nothing: the span
/// starts as if it had not named it.
pub proof fn lemma_dangling_reference_is_ignored(
    registry: Registry,
    span_id: u64,
    missing: u64,
    other: Option<u64>,
)
    requires
        !registry.contains_key(missing),
    ensures
        resolved(registry, Some(missing)) is None,
        TraceContext::derived(span_id, resolved(registry, Some(missing)), resolved(registry, other))
            == TraceContext::derived(span_id, None, resolved(registry, other)),
        TraceContext::derived(span_id, resolved(registry, other), resolved(registry, Some(missing)))
            == TraceContext::derived(span_id, resolved(registry, other), None),
{
}

/// Finishing under a number that has no open span changes nothing and
/// finishes nothing.
pub proof fn lemma_finish_unknown_changes_nothing(
    registry: Registry,
    span_id: u64,
    finish_time: Option<Timestamp>,
    now: Timestamp,
)
    requires
        !registry.contains_key(span_id),
    ensures
        step(registry, CommandView::Finish { span_id, finish_time }, now) == registry,
        step(registry, CommandView::Finish { span_id, finish_time }, now).len() == registry.len(),
        outcome(registry, CommandView::Finish { span_id, finish_time }, now) is None,
{
    assert(registry.remove(span_id) =~= registry);
}

/// Finishing a span a second time changes nothing and finishes nothing.
pub proof fn lemma_finish_again_changes_nothing(
    registry: Registry,
    span_id: u64,
    first_time: Option<Timestamp>,
    first_now: Timestamp,
    second_time: Option<Timestamp>,
    second_now: Timestamp,
)
    ensures
        ({
            let once = step(
                registry,
                CommandView::Finish { span_id, finish_time: first_time },
                first_now,
            );
            let again = CommandView::Finish { span_id, finish_time: second_time };
            &&& !once.contains_key(span_id)
            &&& step(once, again, second_now) == once
            &&& step(once, again, second_now).len() == once.len()
            &&& outcome(once, again, second_now) is None
        }),
{
    let once = registry.remove(span_id);
    assert(once.remove(span_id) =~= once);
}

/// Finishing an open span takes exactly that span out of the registry and
/// hands it over as it was filed.
pub proof fn lemma_finish_open_span(
    registry: Registry,
    span_id: u64,
    finish_time: Option<Timestamp>,
    now: Timestamp,
)
    requires
        registry.contains_key(span_id),
        registry.dom().finite(),
    ensures
        ({
            let command = CommandView::Finish { span_id, finish_time };
            &&& !step(registry, command, now).contains_key(span_id)
            &&& step(registry, command, now).len() + 1 == registry.len()
            &&& outcome(registry, command, now) == Some(
                FinishedSpanView { span: registry[span_id], finish_time: time_or(finish_time, now) },
            )
        }),
{
}

/// Starting a span under a number that is in use hands the earlier span
/// over, finished at the time of the command, and leaves as many spans open
/// as before; under a free number it hands nothing over and leaves one
/// more open.
pub proof fn lemma_start_displaces(
    registry: Registry,
    span_id: u64,
    operation_name: Seq<char>,
    child_of: Option<u64>,
    follows_from: Option<u64>,
    tags: Seq<(Seq<char>, Seq<char>)>,
    time: Option<Timestamp>,
    now: Timestamp,
)
    requires
        registry.dom().finite(),
    ensures
        ({
            let command = CommandView::StartSpan {
                span_id,
                operation_name,
                child_of,
                follows_from,
                tags,
                time,
            };
            if registry.contains_key(span_id) {
                &&& outcome(registry, command, now) == Some(
                    FinishedSpanView { span: registry[span_id], finish_time: now },
                )
                &&& step(registry, command, now).len() == registry.len()
            } else {
                &&& outcome(registry, command, now) is None
                &&& step(registry, command, now).len() == registry.len() + 1
            }
        }),
{
}

/// How many of the commands that arrived start a span.
pub open spec fn starts(arrived: Seq<Arrival>) -> nat
    decreases arrived.len(),
{
    if arrived.len() == 0 {
        0
    } else {
        starts(arrived.drop_last()) + if arrived.last().command is StartSpan {
            1nat
        } else {
            0nat
        }
    }
}

/// No command loses a span or doubles one: the spans that are open after
/// it, and the one it hands over, are the spans that were open before it
/// and the one it starts.
pub proof fn lemma_step_conserves_spans(registry: Registry, command: CommandView, now: Timestamp)
    requires
        registry.dom().finite(),
    ensures
        step(registry, command, now).dom().finite(),
        step(registry, command, now).len() + (if outcome(registry, command, now) is Some {
            1nat
        } else {
            0nat
        }) == registry.len() + (if command is StartSpan {
            1nat
        } else {
            0nat
        }),
{
}

/// Nor does any run of commands: every span that was open or was started
/// is open still or has been handed over, once.
pub proof fn lemma_run_conserves_spans(registry: Registry, arrived: Seq<Arrival>)
    requires
        registry.dom().finite(),
    ensures
        run(registry, arrived).0.dom().finite(),
        run(registry, arrived).0.len() + run(registry, arrived).1.len() == registry.len() + starts(
            arrived,
        ),
    decreases arrived.len(),
{
    if arrived.len() > 0 {
        lemma_run_conserves_spans(registry, arrived.drop_last());
        lemma_step_conserves_spans(
            run(registry, arrived.drop_last()).0,
            arrived.last().command,
            arrived.last().at,
        );
    }
}

/// Every command keeps each open span filed under its own number.
pub proof fn lemma_step_keeps_filing(registry: Registry, command: CommandView, now: Timestamp)
    requires
        filed_by_span_id(registry),
    ensures
        filed_by_span_id(step(registry, command, now)),
        registry.dom().finite() ==> step(registry, command, now).dom().finite(),
{
}

/// So does every run of commands.
pub proof fn lemma_run_keeps_filing(registry: Registry, arrived: Seq<Arrival>)
    requires
        filed_by_span_id(registry),
    ensures
        filed_by_span_id(run(registry, arrived).0),
        registry.dom().finite() ==> run(registry, arrived).0.dom().finite(),
    decreases arrived.len(),
{
    if arrived.len() > 0 {
        lemma_run_keeps_filing(registry, arrived.drop_last());
        lemma_step_keeps_filing(
            run(registry, arrived.drop_last()).0,
            arrived.last().command,
            arrived.last().at,
        );
    }
}

/// A run of one command is that command alone.
pub proof fn lemma_run_of_one(registry: Registry, command: CommandView, now: Timestamp)
    ensures
        run(registry, seq![Arrival { command, at: now }]).0 == step(registry, command, now),
        run(registry, seq![Arrival { command, at: now }]).1 == match outcome(
            registry,
            command,
            now,
        ) {
            Some(span) => seq![span],
            None => Seq::<FinishedSpanView>::empty(),
        },
{
    let one = seq![Arrival { command, at: now }];
    assert(one.drop_last() =~= Seq::<Arrival>::empty());
    assert(one.last() == Arrival { command, at: now });
    assert(run(registry, one.drop_last()) == (registry, Seq::<FinishedSpanView>::empty()));
    assert(Seq::<FinishedSpanView>::empty().push(outcome(registry, command, now)->0) =~= seq![
        outcome(registry, command, now)->0,
    ]);
}

/// However the commands that arrive are cut into batches, the outcome is
/// that of taking them one after another in the order of their arrival:
/// the registry after two batches is the registry after their
/// concatenation, and so are the finished spans, with none lost, doubled or
/// out of order.
pub proof fn lemma_batches_compose(registry: Registry, first: Seq<Arrival>, second: Seq<Arrival>)
    ensures
        run(registry, first + second).0 == run(run(registry, first).0, second).0,
        run(registry, first + second).1 == run(registry, first).1 + run(
            run(registry, first).0,
            second,
        ).1,
    decreases second.len(),
{
    let middle = run(registry, first);
    if second.len() == 0 {
        assert(first + second =~= first);
        assert(middle.1 + Seq::<FinishedSpanView>::empty() =~= middle.1);
    } else {
        let whole = first + second;
        assert(whole.drop_last() =~= first + second.drop_last());
        assert(whole.last() == second.last());
        lemma_batches_compose(registry, first, second.drop_last());
        let before = run(middle.0, second.drop_last());
        match outcome(before.0, second.last().command, second.last().at) {
            Some(span) => {
                assert((middle.1 + before.1).push(span) =~= middle.1 + before.1.push(span));
            },
            None => {},
        }
    }
}

/// Two batches handled at two times leave what their commands leave when
/// they are taken one by one, each at the time of its batch.
pub proof fn lemma_two_batches_are_one_run(
    registry: Registry,
    first: Seq<CommandView>,
    first_now: Timestamp,
    second: Seq<CommandView>,
    second_now: Timestamp,
)
    ensures
        ({
            let after_first = run(registry, arrivals(first, first_now));
            let after_second = run(after_first.0, arrivals(second, second_now));
            let whole = run(registry, arrivals(first, first_now) + arrivals(second, second_now));
            &&& whole.0 == after_second.0
            &&& whole.1 == after_first.1 + after_second.1
        }),
{
    lemma_batches_compose(registry, arrivals(first, first_now), arrivals(second, second_now));
}

} // verus!
