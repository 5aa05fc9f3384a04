use labuf::buffer::Buffered;
use labuf::scripted::ScriptedSource;
use labuf::source::{Pull, Source};

#[test]
fn laziness_construction_pulls_nothing() {
    let source = ScriptedSource::<i32, i32>::new(vec![Pull::Item(1), Pull::Item(2)]);
    let lab = source.buffered();
    let (source, queue) = lab.destructure();
    assert_eq!(source.pull_count(), 0);
    assert!(queue.is_empty());
}

#[test]
fn peek_idempotence_second_call_pulls_nothing() {
    let mut lab =
        ScriptedSource::<i32, i32>::new(vec![Pull::Item(1), Pull::Item(2), Pull::Item(3)])
            .buffered();

    assert_eq!(lab.peek_n(1), Ok(Some(&2)));
    assert_eq!(lab.iter().pull_count(), 2);
    assert_eq!(lab.peek_n(1), Ok(Some(&2)));
    assert_eq!(lab.iter().pull_count(), 2);
}

#[test]
fn peek_then_advance_yield_the_same_item() {
    let mut lab = ScriptedSource::<i32, i32>::new(vec![Pull::Item(6), Pull::Item(7)]).buffered();

    assert_eq!(lab.peek_n(0), Ok(Some(&6)));
    assert_eq!(lab.next(), Ok(Some(6)));
    assert_eq!(lab.peek_n(0), Ok(Some(&7)));
    assert_eq!(lab.next(), Ok(Some(7)));
}

#[test]
fn windowed_exhaustion_is_contiguous() {
    let mut lab = ScriptedSource::<i32, i32>::new(vec![Pull::Item(1), Pull::Item(2)]).buffered();
    assert_eq!(
        lab.peek_multiple(5),
        Ok(vec![Some(&1), Some(&2), None, None, None])
    );
}

#[test]
fn windowed_peek_stops_at_an_early_end_signal() {
    let mut lab =
        ScriptedSource::<i32, i32>::new(vec![Pull::Item(1), Pull::End, Pull::Item(2)]).buffered();
    assert_eq!(lab.peek_multiple(3), Ok(vec![Some(&1), None, None]));
}

#[test]
fn failure_preserves_prefix() {
    let mut lab = ScriptedSource::<i32, &str>::new(vec![
        Pull::Item(10),
        Pull::Fail("boom"),
        Pull::Item(11),
    ])
    .buffered();

    assert_eq!(lab.peek_n(1), Err("boom"));
    assert_eq!(lab.iter().pull_count(), 2);
    assert_eq!(lab.peek_n(0), Ok(Some(&10)));
    assert_eq!(lab.iter().pull_count(), 2);
    assert_eq!(lab.peek_n(1), Ok(Some(&11)));
}

#[test]
fn failing_pull_is_retried_verbatim() {
    let mut lab = ScriptedSource::<i32, &str>::new(vec![
        Pull::Fail("first"),
        Pull::Fail("second"),
        Pull::Item(1),
    ])
    .buffered();

    assert_eq!(lab.peek(), Err("first"));
    assert_eq!(lab.peek(), Err("second"));
    assert_eq!(lab.peek(), Ok(Some(&1)));
}

#[test]
fn end_of_sequence_is_requeried_on_a_later_call() {
    let mut lab =
        ScriptedSource::<i32, i32>::new(vec![Pull::Item(1), Pull::End, Pull::Item(2)]).buffered();

    assert_eq!(lab.peek_n(1), Ok(None));
    assert_eq!(lab.peek_n(1), Ok(Some(&2)));
}

#[test]
fn peek_mut_updates_the_buffered_element_in_place() {
    let mut lab = ScriptedSource::<i32, i32>::new(vec![Pull::Item(1), Pull::Item(2)]).buffered();

    match lab.peek_mut() {
        Ok(Some(m)) => *m = 99,
        other => panic!("expected a buffered element, got {:?}", other.is_ok()),
    }
    assert_eq!(lab.peek(), Ok(Some(&99)));
    assert_eq!(lab.next(), Ok(Some(99)));
    assert_eq!(lab.peek(), Ok(Some(&2)));
}

#[test]
fn peek_n_mut_updates_only_the_addressed_element() {
    let mut lab =
        ScriptedSource::<i32, i32>::new(vec![Pull::Item(1), Pull::Item(2), Pull::Item(3)])
            .buffered();

    match lab.peek_n_mut(1) {
        Ok(Some(m)) => *m = 20,
        _ => panic!("expected a buffered element"),
    }
    assert_eq!(lab.next(), Ok(Some(1)));
    assert_eq!(lab.next(), Ok(Some(20)));
    assert_eq!(lab.next(), Ok(Some(3)));
}

#[test]
fn peek_multiple_mut_updates_each_slot_in_place() {
    let mut lab =
        ScriptedSource::<i32, i32>::new(vec![Pull::Item(1), Pull::Item(2), Pull::Item(3)])
            .buffered();

    let mut pack = lab.peek_multiple_mut(2).unwrap();
    assert_eq!(pack.len(), 2);
    if let Some(m) = pack[0].take() {
        *m = 10;
    }
    if let Some(m) = pack[1].take() {
        *m = 20;
    }
    drop(pack);
    assert_eq!(lab.next(), Ok(Some(10)));
    assert_eq!(lab.next(), Ok(Some(20)));
    assert_eq!(lab.next(), Ok(Some(3)));
}

#[test]
fn peek_multiple_mut_pads_the_tail_with_none() {
    let mut lab = ScriptedSource::<i32, i32>::new(vec![Pull::Item(1)]).buffered();

    let pack = lab.peek_multiple_mut(3).unwrap();
    assert_eq!(pack.len(), 3);
    assert!(pack[0].is_some());
    assert!(pack[1].is_none());
    assert!(pack[2].is_none());
}

#[test]
fn peek_multiple_mut_on_failing_source_reports_the_error() {
    let mut lab = ScriptedSource::<i32, i32>::new(vec![Pull::Fail(9)]).buffered();
    assert_eq!(lab.peek_multiple_mut(1), Err(9));
}

#[test]
fn peek_n_mut_past_the_end_finds_nothing() {
    let mut lab = ScriptedSource::<i32, i32>::new(vec![Pull::Item(1)]).buffered();
    assert_eq!(lab.peek_n_mut(1), Ok(None));
}

#[test]
fn a_single_immediate_consumption_never_queues() {
    let mut lab = ScriptedSource::<i32, i32>::new(vec![Pull::Item(8)]).buffered();
    assert_eq!(lab.next(), Ok(Some(8)));
    let (source, queue) = lab.destructure();
    assert_eq!(source.pull_count(), 1);
    assert!(queue.is_empty());
}

#[test]
fn cloning_duplicates_queue_and_source_without_pulls() {
    let mut lab = ScriptedSource::<i32, i32>::new(vec![Pull::Item(1), Pull::Item(2)]).buffered();
    assert_eq!(lab.peek(), Ok(Some(&1)));
    assert_eq!(lab.iter().pull_count(), 1);

    let mut copy = lab.clone();
    assert_eq!(lab.iter().pull_count(), 1);

    assert_eq!(copy.next(), Ok(Some(1)));
    assert_eq!(copy.next(), Ok(Some(2)));
    assert_eq!(copy.next(), Ok(None));

    assert_eq!(lab.next(), Ok(Some(1)));
    assert_eq!(lab.next(), Ok(Some(2)));
    assert_eq!(lab.next(), Ok(None));
}

#[test]
fn an_exhausted_script_keeps_answering_no_element() {
    let mut source = ScriptedSource::<i32, i32>::new(vec![]);
    assert_eq!(source.next(), Ok(None));
    assert_eq!(source.next(), Ok(None));
    assert_eq!(source.pull_count(), 2);
}
