use etw_gecko::context_switch::{ContextSwitchHandler, OffCpuSampleGroup, ThreadContextSwitchData};

#[test]
fn a_new_thread_is_unknown() {
    let data = ThreadContextSwitchData::new();
    assert_eq!(data.off_cpu_since, None);
    assert_eq!(data.on_cpu_since, None);
    assert_eq!(data.accumulated_on_cpu, 0);
    assert_eq!(data.last_sample_timestamp, None);
    assert_eq!(ThreadContextSwitchData::default(), data);
}

#[test]
fn switch_in_after_a_long_sleep_gives_a_group() {
    let handler = ContextSwitchHandler::new(100);
    let mut data = ThreadContextSwitchData::new();
    handler.handle_switch_out(1300, &mut data);
    assert_eq!(data.off_cpu_since, Some(1300));
    assert_eq!(data.on_cpu_since, None);
    let group = handler.handle_switch_in(1900, &mut data);
    assert_eq!(
        group,
        Some(OffCpuSampleGroup { begin_timestamp: 1300, end_timestamp: 1900, sample_count: 6 })
    );
    assert_eq!(data.off_cpu_since, None);
    assert_eq!(data.on_cpu_since, Some(1900));
}

#[test]
fn switch_in_after_a_short_sleep_gives_no_group() {
    let handler = ContextSwitchHandler::new(100);
    let mut data = ThreadContextSwitchData::new();
    handler.handle_switch_out(1300, &mut data);
    assert_eq!(handler.handle_switch_in(1399, &mut data), None);
    handler.handle_switch_out(1400, &mut data);
    let group = handler.handle_switch_in(1500, &mut data);
    assert_eq!(
        group,
        Some(OffCpuSampleGroup { begin_timestamp: 1400, end_timestamp: 1500, sample_count: 1 })
    );
    handler.handle_switch_out(1600, &mut data);
    let group = handler.handle_switch_in(1799, &mut data);
    assert_eq!(group.unwrap().sample_count, 1);
}

#[test]
fn the_default_interval_needs_a_long_sleep() {
    let handler = ContextSwitchHandler::new(122100);
    let mut data = ThreadContextSwitchData::new();
    handler.handle_switch_out(1300, &mut data);
    assert_eq!(handler.handle_switch_in(1900, &mut data), None);
    handler.handle_switch_out(2000, &mut data);
    let group = handler.handle_switch_in(2000 + 122100 * 3 + 5, &mut data).unwrap();
    assert_eq!(group.sample_count, 3);
    assert_eq!(group.begin_timestamp, 2000);
    assert_eq!(group.end_timestamp, 2000 + 122100 * 3 + 5);
}

#[test]
fn switch_in_of_an_unknown_thread_gives_no_group() {
    let handler = ContextSwitchHandler::new(100);
    let mut data = ThreadContextSwitchData::new();
    assert_eq!(handler.handle_switch_in(5000, &mut data), None);
    assert_eq!(data.on_cpu_since, Some(5000));
}

#[test]
fn an_interval_of_zero_gives_no_group() {
    let handler = ContextSwitchHandler::new(0);
    let mut data = ThreadContextSwitchData::new();
    handler.handle_switch_out(10, &mut data);
    assert_eq!(handler.handle_switch_in(10_000, &mut data), None);
}

#[test]
fn a_group_is_returned_once() {
    let handler = ContextSwitchHandler::new(100);
    let mut data = ThreadContextSwitchData::new();
    handler.handle_switch_out(1300, &mut data);
    assert!(handler.handle_switch_in(1900, &mut data).is_some());
    assert_eq!(handler.handle_on_cpu_sample(2000, &mut data), None);
    assert_eq!(handler.handle_switch_in(2500, &mut data), None);
}

#[test]
fn a_sample_stands_in_for_a_switch_in_that_was_not_seen() {
    let handler = ContextSwitchHandler::new(100);
    let mut data = ThreadContextSwitchData::new();
    handler.handle_switch_out(1000, &mut data);
    let group = handler.handle_on_cpu_sample(1250, &mut data);
    assert_eq!(
        group,
        Some(OffCpuSampleGroup { begin_timestamp: 1000, end_timestamp: 1250, sample_count: 2 })
    );
    assert_eq!(data.off_cpu_since, None);
    assert_eq!(data.on_cpu_since, Some(1250));
    assert_eq!(data.last_sample_timestamp, Some(1250));
    assert_eq!(data.accumulated_on_cpu, 0);
}

#[test]
fn running_time_accumulates_until_it_is_consumed() {
    let handler = ContextSwitchHandler::new(100);
    let mut data = ThreadContextSwitchData::new();
    assert_eq!(handler.handle_on_cpu_sample(1200, &mut data), None);
    assert_eq!(handler.consume_cpu_delta(&mut data), 0);
    handler.handle_switch_out(1300, &mut data);
    assert_eq!(data.accumulated_on_cpu, 100);
    handler.handle_switch_in(1900, &mut data);
    assert_eq!(data.accumulated_on_cpu, 100);
    handler.handle_on_cpu_sample(2000, &mut data);
    assert_eq!(data.accumulated_on_cpu, 200);
    assert_eq!(handler.consume_cpu_delta(&mut data), 200);
    assert_eq!(handler.consume_cpu_delta(&mut data), 0);
    assert_eq!(data.on_cpu_since, Some(2000));
}

#[test]
fn switch_out_of_a_thread_that_is_not_running_accumulates_nothing() {
    let handler = ContextSwitchHandler::new(100);
    let mut data = ThreadContextSwitchData::new();
    handler.handle_switch_out(700, &mut data);
    assert_eq!(data.accumulated_on_cpu, 0);
    handler.handle_switch_out(900, &mut data);
    assert_eq!(data.accumulated_on_cpu, 0);
    assert_eq!(data.off_cpu_since, Some(900));
}

#[test]
fn times_that_run_backwards_count_as_no_time() {
    let handler = ContextSwitchHandler::new(100);
    let mut data = ThreadContextSwitchData::new();
    handler.handle_switch_in(2000, &mut data);
    handler.handle_switch_out(1500, &mut data);
    assert_eq!(data.accumulated_on_cpu, 0);
    assert_eq!(handler.handle_switch_in(1000, &mut data), None);
}

#[test]
fn accumulated_time_stops_at_the_largest_number() {
    let handler = ContextSwitchHandler::new(100);
    let mut data = ThreadContextSwitchData {
        off_cpu_since: None,
        on_cpu_since: Some(0),
        accumulated_on_cpu: u64::MAX - 5,
        last_sample_timestamp: None,
    };
    handler.handle_switch_out(100, &mut data);
    assert_eq!(data.accumulated_on_cpu, u64::MAX);
}
