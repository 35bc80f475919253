use jaeger_remote_tracer::command::Command;
use jaeger_remote_tracer::context::TraceContext;
use jaeger_remote_tracer::service::{FinishedSpan, Service, SpanReference};
use jaeger_remote_tracer::time::Timestamp;

const NOW: Timestamp = Timestamp { secs: 1_700_000_000, nanos: 5 };

fn start(span_id: u64, name: &str, child_of: Option<u64>, follows_from: Option<u64>) -> Command {
    Command::StartSpan {
        span_id,
        operation_name: name.to_string(),
        child_of,
        follows_from,
        tags: Vec::new(),
        time: None,
    }
}

fn finish(span_id: u64) -> Command {
    Command::Finish { span_id, finish_time: None }
}

fn context_of(service: &Service, span_id: u64) -> TraceContext {
    match service.get(span_id) {
        Some(span) => span.context,
        None => panic!("no span is open under {}", span_id),
    }
}

fn ids(spans: &[FinishedSpan]) -> Vec<u64> {
    spans.iter().map(|finished| finished.span.context.span_id).collect()
}

#[test]
fn new_service_has_no_open_span() {
    let service = Service::new();
    assert_eq!(service.len(), 0);
    assert!(service.is_empty());
    assert!(!service.contains(0));
    assert!(service.get(1).is_none());
    assert_eq!(service.resolve(Some(1)), None);
    assert_eq!(service.resolve(None), None);
}

#[test]
fn root_and_child_are_reported_in_the_order_of_their_finishing() {
    let mut service = Service::new();
    assert!(service.handle_command(start(1, "root", None, None), NOW).is_none());
    assert!(service.handle_command(start(2, "child", Some(1), None), NOW).is_none());
    assert_eq!(service.len(), 2);

    let root = context_of(&service, 1);
    let child = context_of(&service, 2);
    assert_eq!(root, TraceContext { trace_id: 1, span_id: 1, parent_id: 0, sampled: true });
    assert_eq!(child.trace_id, root.trace_id);
    assert_eq!(child, TraceContext { trace_id: 1, span_id: 2, parent_id: 1, sampled: true });

    let mut reported: Vec<FinishedSpan> = Vec::new();
    if let Some(span) = service.handle_command(finish(1), NOW) {
        reported.push(span);
    }
    if let Some(span) = service.handle_command(finish(2), NOW) {
        reported.push(span);
    }
    assert!(service.is_empty());
    assert_eq!(service.len(), 0);
    assert_eq!(ids(&reported), vec![1, 2]);
    assert_eq!(reported[0].span.operation_name, "root");
    assert_eq!(reported[1].span.operation_name, "child");
    assert_eq!(reported[1].span.context.trace_id, 1);
    assert_eq!(reported[1].span.references, vec![SpanReference::ChildOf(root)]);
    assert!(reported[0].span.references.is_empty());
}

#[test]
fn root_and_child_drained_as_one_batch() {
    let mut service = Service::new();
    let reported = service.drain(
        vec![
            start(1, "root", None, None),
            start(2, "child", Some(1), None),
            finish(1),
            finish(2),
        ],
        NOW,
    );
    assert!(service.is_empty());
    assert_eq!(ids(&reported), vec![1, 2]);
    assert_eq!(reported[1].span.context.trace_id, reported[0].span.context.trace_id);
    assert_eq!(reported[1].span.context.parent_id, 1);
}

#[test]
fn finish_of_an_unknown_span_does_nothing() {
    let mut service = Service::new();
    assert!(service.handle_command(finish(99), NOW).is_none());
    assert!(service.is_empty());
    assert_eq!(service.len(), 0);
    assert!(service.drain(vec![finish(99)], NOW).is_empty());
    assert!(service.is_empty());
}

#[test]
fn finish_of_an_unknown_span_leaves_the_others() {
    let mut service = Service::new();
    service.handle_command(start(1, "a", None, None), NOW);
    service.handle_command(start(2, "b", None, None), NOW);
    assert!(service.handle_command(finish(99), NOW).is_none());
    assert_eq!(service.len(), 2);
    assert!(service.contains(1));
    assert!(service.contains(2));
    assert_eq!(context_of(&service, 1).trace_id, 1);
}

#[test]
fn finish_twice_reports_once() {
    let mut service = Service::new();
    service.handle_command(start(1, "a", None, None), NOW);
    service.handle_command(start(2, "b", None, None), NOW);
    assert!(service.handle_command(finish(1), NOW).is_some());
    assert_eq!(service.len(), 1);
    assert!(service.handle_command(finish(1), NOW).is_none());
    assert_eq!(service.len(), 1);
    assert!(service.contains(2));
    assert!(!service.contains(1));
}

#[test]
fn start_under_a_used_number_keeps_the_later_span() {
    let mut service = Service::new();
    service.handle_command(start(1, "first", None, None), NOW);
    service.handle_command(start(5, "other", None, None), NOW);
    let later = Timestamp { secs: NOW.secs + 9, nanos: 1 };
    let displaced = match service.handle_command(start(1, "second", Some(5), None), later) {
        Some(span) => span,
        None => panic!("the earlier span was not handed over"),
    };
    assert_eq!(displaced.span.operation_name, "first");
    assert_eq!(displaced.span.context.trace_id, 1);
    assert_eq!(displaced.span.start_time, NOW);
    assert_eq!(displaced.finish_time, later);
    assert_eq!(service.len(), 2);
    let kept = match service.get(1) {
        Some(span) => span,
        None => panic!("no span is open under 1"),
    };
    assert_eq!(kept.operation_name, "second");
    assert_eq!(kept.context.trace_id, 5);
    assert_eq!(kept.start_time, later);
    let reported = service.drain(vec![finish(1), finish(1)], NOW);
    assert_eq!(reported.len(), 1);
    assert_eq!(reported[0].span.operation_name, "second");
}

#[test]
fn start_under_a_free_number_hands_nothing_over() {
    let mut service = Service::new();
    assert!(service.handle_command(start(1, "a", None, None), NOW).is_none());
    assert!(service.handle_command(start(2, "b", None, None), NOW).is_none());
    assert!(service.handle_command(finish(1), NOW).is_some());
    assert!(service.handle_command(start(1, "c", None, None), NOW).is_none());
    assert_eq!(service.len(), 2);
}

#[test]
fn every_started_span_is_open_or_handed_over_once() {
    let mut service = Service::new();
    let reported = service.drain(
        vec![
            start(1, "a", None, None),
            start(1, "b", None, None),
            start(2, "c", Some(1), None),
            finish(7),
            finish(2),
            finish(2),
            start(3, "d", None, None),
            start(1, "e", None, None),
        ],
        NOW,
    );
    assert_eq!(service.len() + reported.len(), 5);
    assert_eq!(service.len(), 2);
    let names: Vec<&str> =
        reported.iter().map(|finished| finished.span.operation_name.as_str()).collect();
    assert_eq!(names, vec!["a", "c", "b"]);
}

#[test]
fn span_that_names_itself_as_parent_joins_the_span_it_replaces() {
    let mut service = Service::new();
    service.handle_command(start(1, "first", None, None), NOW);
    let displaced = service.handle_command(start(1, "second", Some(1), None), NOW);
    assert_eq!(service.len(), 1);
    assert_eq!(
        context_of(&service, 1),
        TraceContext { trace_id: 1, span_id: 1, parent_id: 1, sampled: true }
    );
    match displaced {
        Some(span) => assert_eq!(span.span.operation_name, "first"),
        None => panic!("the earlier span was not handed over"),
    }
}

#[test]
fn reference_to_a_span_that_is_not_open_is_ignored() {
    let mut service = Service::new();
    service.handle_command(start(3, "orphan", Some(1), Some(2)), NOW);
    assert_eq!(
        context_of(&service, 3),
        TraceContext { trace_id: 3, span_id: 3, parent_id: 0, sampled: true }
    );
    match service.get(3) {
        Some(span) => assert!(span.references.is_empty()),
        None => panic!("no span is open under 3"),
    }
}

#[test]
fn reference_to_a_finished_span_is_ignored() {
    let mut service = Service::new();
    service.handle_command(start(1, "root", None, None), NOW);
    service.handle_command(finish(1), NOW);
    service.handle_command(start(2, "late", Some(1), None), NOW);
    assert_eq!(context_of(&service, 2).trace_id, 2);
    assert_eq!(context_of(&service, 2).parent_id, 0);
}

#[test]
fn follower_joins_the_trace_of_an_open_predecessor() {
    let mut service = Service::new();
    service.handle_command(start(1, "root", None, None), NOW);
    service.handle_command(start(2, "next", None, Some(1)), NOW);
    assert_eq!(
        context_of(&service, 2),
        TraceContext { trace_id: 1, span_id: 2, parent_id: 1, sampled: true }
    );
    match service.get(2) {
        Some(span) => assert_eq!(
            span.references,
            vec![SpanReference::FollowsFrom(context_of(&service, 1))]
        ),
        None => panic!("no span is open under 2"),
    }
}

#[test]
fn parent_decides_where_both_references_are_open() {
    let mut both = Service::new();
    both.drain(vec![start(1, "a", None, None), start(10, "b", None, None)], NOW);
    both.handle_command(start(3, "c", Some(1), Some(10)), NOW);

    let mut parent_only = Service::new();
    parent_only.drain(vec![start(1, "a", None, None), start(10, "b", None, None)], NOW);
    parent_only.handle_command(start(3, "c", Some(1), None), NOW);

    assert_eq!(context_of(&both, 3), context_of(&parent_only, 3));
    assert_eq!(context_of(&both, 3).trace_id, 1);
    assert_eq!(context_of(&both, 3).parent_id, 1);
    match both.get(3) {
        Some(span) => assert_eq!(
            span.references,
            vec![
                SpanReference::ChildOf(context_of(&both, 1)),
                SpanReference::FollowsFrom(context_of(&both, 10)),
            ]
        ),
        None => panic!("no span is open under 3"),
    }
}

#[test]
fn predecessor_decides_where_the_parent_is_not_open() {
    let mut service = Service::new();
    service.handle_command(start(10, "b", None, None), NOW);
    service.handle_command(start(3, "c", Some(1), Some(10)), NOW);
    assert_eq!(context_of(&service, 3).trace_id, 10);
    assert_eq!(context_of(&service, 3).parent_id, 10);
}

#[test]
fn grandchild_inherits_the_trace_of_the_root() {
    let mut service = Service::new();
    service.drain(
        vec![
            start(7, "root", None, None),
            start(8, "child", Some(7), None),
            start(9, "grandchild", Some(8), None),
        ],
        NOW,
    );
    assert_eq!(
        context_of(&service, 9),
        TraceContext { trace_id: 7, span_id: 9, parent_id: 8, sampled: true }
    );
    assert_eq!(service.resolve(Some(9)), Some(context_of(&service, 9)));
}

#[test]
fn times_default_to_the_time_of_handling() {
    let mut service = Service::new();
    service.handle_command(start(1, "a", None, None), NOW);
    let later = Timestamp { secs: NOW.secs + 3, nanos: 0 };
    let reported = match service.handle_command(finish(1), later) {
        Some(span) => span,
        None => panic!("the span was not reported"),
    };
    assert_eq!(reported.span.start_time, NOW);
    assert_eq!(reported.finish_time, later);
}

#[test]
fn given_times_are_kept() {
    let mut service = Service::new();
    let started = Timestamp { secs: 10, nanos: 20 };
    let ended = Timestamp { secs: 30, nanos: 40 };
    service.handle_command(
        Command::StartSpan {
            span_id: 1,
            operation_name: "a".to_string(),
            child_of: None,
            follows_from: None,
            tags: vec![("k".to_string(), "v".to_string()), ("k".to_string(), "w".to_string())],
            time: Some(started),
        },
        NOW,
    );
    let reported = match service
        .handle_command(Command::Finish { span_id: 1, finish_time: Some(ended) }, NOW)
    {
        Some(span) => span,
        None => panic!("the span was not reported"),
    };
    assert_eq!(reported.span.start_time, started);
    assert_eq!(reported.finish_time, ended);
    assert_eq!(
        reported.span.tags,
        vec![("k".to_string(), "v".to_string()), ("k".to_string(), "w".to_string())]
    );
    assert_eq!(reported.span.operation_name, "a");
}

#[test]
fn batches_give_what_the_commands_give_one_by_one() {
    let commands = || {
        vec![
            start(1, "a", None, None),
            start(2, "b", Some(1), None),
            finish(3),
            start(3, "c", None, Some(2)),
            finish(2),
            start(2, "d", Some(3), None),
            finish(1),
            finish(2),
            finish(2),
        ]
    };

    let mut one_by_one = Service::new();
    let mut reported_one_by_one: Vec<FinishedSpan> = Vec::new();
    for command in commands() {
        if let Some(span) = one_by_one.handle_command(command, NOW) {
            reported_one_by_one.push(span);
        }
    }

    let mut whole = Service::new();
    let reported_whole = whole.drain(commands(), NOW);

    let mut split = Service::new();
    let mut all = commands();
    let tail = all.split_off(4);
    let mut reported_split = split.drain(all, NOW);
    reported_split.extend(split.drain(tail, NOW));

    assert_eq!(ids(&reported_one_by_one), vec![2, 1, 2]);
    assert_eq!(ids(&reported_whole), vec![2, 1, 2]);
    assert_eq!(ids(&reported_split), vec![2, 1, 2]);
    for service in [&one_by_one, &whole, &split] {
        assert_eq!(service.len(), 1);
        assert_eq!(
            context_of(service, 3),
            TraceContext { trace_id: 1, span_id: 3, parent_id: 2, sampled: true }
        );
    }
    assert_eq!(reported_whole[2].span.operation_name, "d");
    assert_eq!(reported_whole[2].span.context.trace_id, 1);
    assert_eq!(reported_whole[2].span.context.parent_id, 3);
}

#[test]
fn empty_batch_changes_nothing() {
    let mut service = Service::new();
    service.handle_command(start(1, "a", None, None), NOW);
    assert!(service.drain(Vec::new(), NOW).is_empty());
    assert_eq!(service.len(), 1);
}
