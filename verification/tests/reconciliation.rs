use debank_trace_block::candidates::inspect_logs;
use debank_trace_block::event::{
    with_event_index, with_pending_event_index, DebankEvent, EventPayloadKey,
};
use debank_trace_block::matching::match_receipt_logs;
use debank_trace_block::primitives::Address;
use debank_trace_block::reconcile::reconcile_persisted_events;
use debank_trace_block::trace::{find_root_trace, root_trace_misclassified, DebankTrace};

fn trace(id: &str, trace_address: Vec<usize>, subtraces: usize) -> DebankTrace<()> {
    DebankTrace {
        id: id.to_string(),
        trace_address,
        subtraces,
        self_storage_change: false,
        storage_change: false,
        body: (),
    }
}

fn debank_id(event: &DebankEvent) -> String {
    format!("{}/{}", event.parent_trace_id, event.pos_in_parent_trace)
}

#[test]
fn receipt_reconciliation_handles_handler_and_reverted_logs() {
    fn event(marker: u8, idx: usize, parent_trace_id: &str) -> DebankEvent {
        DebankEvent {
            contract_id: Address([marker; 20]),
            selector: format!("0x{marker:02x}"),
            topics: vec![format!("0x{marker:064x}")],
            data: vec![marker],
            parent_trace_id: parent_trace_id.to_string(),
            idx,
            ..Default::default()
        }
    }

    let root = trace("root", vec![], 2);
    let captured_b = event(0xb0, 0, "child");
    let reverted = event(0xee, 1, "child");
    let captured_c = event(0xc0, 2, "child");
    let persisted = vec![
        event(0xa0, 0, ""),
        event(0xb0, 0, ""),
        event(0xc0, 0, ""),
        event(0xd0, 0, ""),
    ];
    let mut next_event_index = 0;

    let (events, error_events) = reconcile_persisted_events(
        vec![captured_b, captured_c],
        vec![reverted],
        persisted,
        Some(&root),
        false,
        &mut next_event_index,
        debank_id,
    );

    assert_eq!(
        events
            .iter()
            .map(|event| event.selector.as_str())
            .collect::<Vec<_>>(),
        vec!["0xa0", "0xb0", "0xc0", "0xd0"]
    );
    assert_eq!(error_events.len(), 1);
    assert_eq!(error_events[0].selector, "0xee");
    assert_eq!(error_events[0].idx, 2);
    assert_eq!(
        events.iter().map(|event| event.idx).collect::<Vec<_>>(),
        vec![0, 1, 2, 3]
    );
    assert_eq!(next_event_index, 4);
    assert_eq!(events[0].parent_trace_id, "root");
    assert_eq!(events[0].pos_in_parent_trace, 2);
    assert_eq!(events[1].parent_trace_id, "child");
    assert_eq!(events[3].parent_trace_id, "root");
    assert_eq!(events[3].pos_in_parent_trace, 3);
}

#[test]
fn receipt_reconciliation_does_not_match_a_reverted_duplicate() {
    let root = trace("root", vec![], 0);
    let reverted = DebankEvent {
        contract_id: Address([0xaa; 20]),
        selector: "0x01".to_string(),
        parent_trace_id: "reverted-child".to_string(),
        idx: 0,
        ..Default::default()
    };
    let successful = DebankEvent {
        parent_trace_id: "successful-child".to_string(),
        idx: 1,
        ..reverted.clone()
    };
    let persisted = DebankEvent {
        parent_trace_id: String::new(),
        idx: 0,
        ..reverted.clone()
    };
    let mut next_event_index = 0;

    let (events, error_events) = reconcile_persisted_events(
        vec![successful],
        vec![reverted],
        vec![persisted],
        Some(&root),
        false,
        &mut next_event_index,
        debank_id,
    );

    assert_eq!(events.len(), 1);
    assert_eq!(events[0].parent_trace_id, "successful-child");
    assert_eq!(error_events.len(), 1);
    assert_eq!(error_events[0].parent_trace_id, "reverted-child");
}

#[test]
fn event_idx_follows_block_log_index_across_failed_and_successful_txs() {
    fn event(marker: u8, parent_trace_id: &str) -> DebankEvent {
        DebankEvent {
            contract_id: Address([marker; 20]),
            selector: format!("0x{marker:02x}"),
            parent_trace_id: parent_trace_id.to_string(),
            ..Default::default()
        }
    }
    let root = trace("root", vec![], 0);
    let mut next_event_index = 0;

    // Failed tx: a log emitted before the revert is not in the receipt, while the handler's fee
    // log is persisted and occupies log index 0.
    let (failed_receipt_events, failed_reverted_events) = reconcile_persisted_events(
        Vec::new(),
        vec![event(0xee, "reverted")],
        vec![event(0xfe, "")],
        Some(&root),
        false,
        &mut next_event_index,
        debank_id,
    );
    // Successful tx: both logs are persisted and follow the failed tx's fee log.
    let (success_events, success_reverted_events) = reconcile_persisted_events(
        vec![event(0xa0, "child"), event(0xb0, "child")],
        Vec::new(),
        vec![event(0xa0, ""), event(0xb0, "")],
        Some(&root),
        false,
        &mut next_event_index,
        debank_id,
    );

    assert_eq!(failed_receipt_events.len(), 1);
    assert_eq!(failed_receipt_events[0].selector, "0xfe");
    assert_eq!(failed_receipt_events[0].idx, 0);
    assert_eq!(failed_reverted_events.len(), 1);
    assert_eq!(failed_reverted_events[0].idx, 0);
    assert!(success_reverted_events.is_empty());
    assert_eq!(
        success_events
            .iter()
            .map(|event| (event.selector.as_str(), event.idx))
            .collect::<Vec<_>>(),
        vec![("0xa0", 1), ("0xb0", 2)]
    );
    assert_eq!(next_event_index, 3);
}

/// A log of payload `selector`, seen under `parent` as the inspector's log number `idx`.
fn seen(selector: &str, parent: &str, idx: usize) -> DebankEvent {
    DebankEvent {
        id: format!("seen-{idx}"),
        selector: selector.to_string(),
        parent_trace_id: parent.to_string(),
        idx,
        ..Default::default()
    }
}

/// A log of payload `selector` in a receipt.
fn logged(selector: &str) -> DebankEvent {
    seen(selector, "", 0)
}

fn places(events: &[DebankEvent]) -> Vec<(&str, &str, usize)> {
    events
        .iter()
        .map(|e| (e.selector.as_str(), e.parent_trace_id.as_str(), e.idx))
        .collect()
}

#[test]
fn inspected_logs_are_sorted_stably() {
    let events = vec![seen("a", "x", 3), seen("b", "x", 1), seen("c", "x", 3)];
    let error_events = vec![seen("d", "y", 1), seen("e", "y", 0), seen("f", "y", 3)];

    let logs = inspect_logs(events, error_events, false);

    assert_eq!(
        logs.iter()
            .map(|log| (log.event.selector.as_str(), log.receipt_eligible))
            .collect::<Vec<_>>(),
        vec![
            ("e", false),
            ("b", true),
            ("d", false),
            ("a", true),
            ("c", true),
            ("f", false),
        ]
    );
}

#[test]
fn matching_takes_the_first_fitting_log_behind_the_last() {
    let events = vec![
        seen("a", "x", 0),
        seen("b", "x", 1),
        seen("a", "x", 2),
        seen("c", "x", 3),
    ];
    let logs = inspect_logs(events, vec![], false);

    let receipt = vec![logged("b"), logged("a"), logged("b"), logged("c"), logged("a")];
    assert_eq!(
        match_receipt_logs(&logs, &receipt),
        vec![Some(1), Some(2), None, Some(3), None]
    );
    assert_eq!(match_receipt_logs(&logs, &vec![]), vec![]);
    assert_eq!(match_receipt_logs(&vec![], &receipt), vec![None; 5]);
}

#[test]
fn every_part_of_the_payload_counts_for_matching() {
    let base = DebankEvent {
        contract_id: Address([1; 20]),
        selector: "s".to_string(),
        topics: vec!["t".to_string()],
        data: vec![1],
        ..Default::default()
    };
    let logs = inspect_logs(vec![base.clone()], vec![], false);
    let matched = |event: DebankEvent| match_receipt_logs(&logs, &vec![event])[0];

    assert_eq!(matched(base.clone()), Some(0));
    let placed_elsewhere = DebankEvent {
        id: "i".to_string(),
        parent_trace_id: "p".to_string(),
        pos_in_parent_trace: 4,
        idx: 9,
        ..base.clone()
    };
    assert!(EventPayloadKey::from(&placed_elsewhere) == EventPayloadKey::from(&base));
    assert_eq!(matched(placed_elsewhere), Some(0));
    assert_eq!(
        matched(DebankEvent { contract_id: Address([2; 20]), ..base.clone() }),
        None
    );
    assert_eq!(matched(DebankEvent { selector: "x".to_string(), ..base.clone() }), None);
    assert_eq!(matched(DebankEvent { topics: vec![], ..base.clone() }), None);
    assert_eq!(matched(DebankEvent { data: vec![1, 1], ..base.clone() }), None);
    let split = DebankEvent {
        topics: vec!["t".to_string(), String::new()],
        ..base.clone()
    };
    assert!(EventPayloadKey::from(&split) != EventPayloadKey::from(&base));
    assert_eq!(matched(split), None);
}

#[test]
fn receipt_logs_keep_payload_and_log_index_in_order() {
    let root = trace("root", vec![], 0);
    let mut next = 10;

    let (events, error_events) = reconcile_persisted_events(
        vec![seen("b", "child", 0)],
        vec![],
        vec![logged("a"), logged("b"), logged("c")],
        Some(&root),
        false,
        &mut next,
        debank_id,
    );

    assert_eq!(
        places(&events),
        vec![("a", "root", 10), ("b", "child", 11), ("c", "root", 12)]
    );
    assert!(error_events.is_empty());
    assert_eq!(next, 13);
}

#[test]
fn handler_logs_go_behind_the_members_of_the_root() {
    let root = trace("root", vec![], 3);
    let mut next = 0;

    let (events, _) = reconcile_persisted_events(
        vec![seen("a", "root", 0), seen("b", "root", 1), seen("c", "child", 2)],
        vec![seen("d", "root", 3)],
        vec![logged("h1"), logged("a"), logged("h2")],
        Some(&root),
        false,
        &mut next,
        debank_id,
    );

    // Three calls and three logs stand under the root already.
    assert_eq!(events[0].pos_in_parent_trace, 6);
    assert_eq!(events[0].id, "root/6");
    assert_eq!(events[1].id, "seen-0");
    assert_eq!(events[1].pos_in_parent_trace, 0);
    assert_eq!(events[2].pos_in_parent_trace, 7);
    assert_eq!(events[2].id, "root/7");
}

#[test]
fn without_a_root_handler_logs_go_under_no_trace() {
    let mut next = 0;

    let (events, _) = reconcile_persisted_events::<(), _>(
        vec![seen("a", "", 0)],
        vec![],
        vec![logged("h")],
        None,
        false,
        &mut next,
        debank_id,
    );

    assert_eq!(events[0].parent_trace_id, "");
    assert_eq!(events[0].pos_in_parent_trace, 1);
}

#[test]
fn every_inspected_log_ends_up_in_one_list() {
    let root = trace("root", vec![], 0);
    let mut next = 0;

    let (events, error_events) = reconcile_persisted_events(
        vec![seen("a", "x", 0), seen("b", "x", 2), seen("c", "x", 4)],
        vec![seen("d", "y", 1), seen("e", "y", 3)],
        vec![logged("a"), logged("c")],
        Some(&root),
        false,
        &mut next,
        debank_id,
    );

    assert_eq!(places(&events), vec![("a", "x", 0), ("c", "x", 1)]);
    assert_eq!(
        places(&error_events),
        vec![("d", "y", 1), ("b", "x", 1), ("e", "y", 1)]
    );
}

#[test]
fn trailing_inspector_only_logs_come_before_handler_logs() {
    let root = trace("root", vec![], 0);
    let mut next = 0;

    let (events, error_events) = reconcile_persisted_events(
        vec![seen("a", "x", 0)],
        vec![seen("e", "y", 1), seen("f", "y", 2)],
        vec![logged("a"), logged("h"), logged("h")],
        Some(&root),
        false,
        &mut next,
        debank_id,
    );

    assert_eq!(
        places(&events),
        vec![("a", "x", 0), ("h", "root", 1), ("h", "root", 2)]
    );
    // They take the index behind the last recognised log, which a handler log has too.
    assert_eq!(places(&error_events), vec![("e", "y", 1), ("f", "y", 1)]);
}

#[test]
fn error_events_match_only_where_they_are_eligible() {
    let root = trace("root", vec![], 0);
    let run = |eligible: bool| {
        let mut next = 0;
        reconcile_persisted_events(
            vec![],
            vec![seen("a", "y", 0)],
            vec![logged("a")],
            Some(&root),
            eligible,
            &mut next,
            debank_id,
        )
    };

    let (events, error_events) = run(true);
    assert_eq!(places(&events), vec![("a", "y", 0)]);
    assert!(error_events.is_empty());

    let (events, error_events) = run(false);
    assert_eq!(places(&events), vec![("a", "root", 0)]);
    assert_eq!(places(&error_events), vec![("a", "y", 0)]);
}

#[test]
fn reverted_logs_leave_the_receipt_logs_as_they_are() {
    let root = trace("root", vec![], 1);
    let run = |error_events: Vec<DebankEvent>| {
        let mut next = 2;
        reconcile_persisted_events(
            vec![seen("a", "x", 1), seen("b", "root", 3), seen("a", "y", 4)],
            error_events,
            vec![logged("a"), logged("h"), logged("a")],
            Some(&root),
            false,
            &mut next,
            debank_id,
        )
    };
    let reverted = vec![seen("a", "r", 0), seen("a", "root", 2), seen("h", "r", 5)];

    let (with_errors, left) = run(reverted);
    let (without_errors, _) = run(vec![]);

    assert_eq!(places(&with_errors), places(&without_errors));
    assert_eq!(
        places(&with_errors),
        vec![("a", "x", 2), ("h", "root", 3), ("a", "y", 4)]
    );
    assert_eq!(with_errors[0].id, without_errors[0].id);
    assert_eq!(with_errors[2].id, without_errors[2].id);
    // A reverted log under the root takes a position there all the same.
    assert_eq!(without_errors[1].pos_in_parent_trace, 2);
    assert_eq!(with_errors[1].pos_in_parent_trace, 3);
    for parent in ["r", "root"] {
        assert!(left.iter().any(|e| e.selector == "a" && e.parent_trace_id == parent));
    }
    assert!(left.iter().any(|e| e.selector == "h"));
}

#[test]
fn equal_logs_all_keep_their_traces() {
    let root = trace("root", vec![], 0);
    let mut next = 4;
    let events = vec![seen("a", "x", 0), seen("a", "y", 1), seen("b", "z", 2)];

    let (events, error_events) = reconcile_persisted_events(
        events,
        vec![],
        vec![logged("a"), logged("a"), logged("b")],
        Some(&root),
        false,
        &mut next,
        debank_id,
    );

    assert_eq!(
        places(&events),
        vec![("a", "x", 4), ("a", "y", 5), ("b", "z", 6)]
    );
    assert!(error_events.is_empty());
}

#[test]
fn many_equal_payloads_are_matched_in_order() {
    let events: Vec<DebankEvent> = (0..300)
        .map(|i| seen(if i % 3 == 0 { "a" } else { "b" }, "x", i))
        .collect();
    let logs = inspect_logs(events, vec![], false);
    let receipt: Vec<DebankEvent> = (0..150)
        .map(|i| logged(if i % 2 == 0 { "a" } else { "b" }))
        .collect();

    let matches = match_receipt_logs(&logs, &receipt);

    let mut from = 0;
    for (log, found) in receipt.iter().zip(&matches) {
        let expected = (from..logs.len()).find(|i| logs[*i].event.selector == log.selector);
        assert_eq!(*found, expected);
        if let Some(index) = expected {
            from = index + 1;
        }
    }
}

#[test]
fn log_indices_are_consumed_or_only_taken() {
    let mut next = 7;

    let numbered = with_event_index(seen("a", "x", 0), &mut next);
    assert_eq!((numbered.idx, next), (7, 8));
    let pending = with_pending_event_index(seen("b", "x", 3), next);
    assert_eq!((pending.idx, next), (8, 8));
    assert_eq!(pending.id, "seen-3");
}

#[test]
fn the_root_trace_is_looked_for_among_successful_calls_first() {
    let traces = vec![trace("child", vec![0], 0), trace("root", vec![], 0)];
    let error_traces = vec![trace("failed-child", vec![1], 0), trace("failed", vec![], 0)];
    let none = vec![trace("child", vec![0], 0)];

    assert_eq!(find_root_trace(&traces, &error_traces).unwrap().id, "root");
    assert_eq!(find_root_trace(&none, &error_traces).unwrap().id, "failed");
    assert!(find_root_trace(&none, &none).is_none());
    assert!(root_trace_misclassified(&error_traces));
    assert!(!root_trace_misclassified(&none));
}
