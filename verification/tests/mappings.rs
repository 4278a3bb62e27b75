use etw_gecko::handles::LibraryHandle;
use etw_gecko::lib_mappings::{
    LibMappingAdd, LibMappingInfo, LibMappingOp, LibMappingOpQueue, LibMappings, ResolvedAddress,
};

fn add(start: u64, end: u64, relative: u32, lib: usize) -> LibMappingOp {
    LibMappingOp::Add(LibMappingAdd {
        start_avma: start,
        end_avma: end,
        relative_address_at_start: relative,
        info: LibMappingInfo::new_lib(LibraryHandle(lib)),
    })
}

fn found(relative: u32, lib: usize) -> Option<ResolvedAddress> {
    Some(ResolvedAddress { relative_address: relative, info: LibMappingInfo::new_lib(LibraryHandle(lib)) })
}

#[test]
fn addresses_resolve_inside_a_mapping() {
    let mut log = LibMappingOpQueue::new();
    log.push(10, add(0x1000, 0x2000, 0, 1));
    let mut replay = LibMappings::new(log);
    assert_eq!(replay.convert_address(0x1800), None);
    replay.advance_to(10);
    assert_eq!(replay.convert_address(0x1000), found(0, 1));
    assert_eq!(replay.convert_address(0x1800), found(0x800, 1));
    assert_eq!(replay.convert_address(0x1fff), found(0xfff, 1));
    assert_eq!(replay.convert_address(0x2000), None);
    assert_eq!(replay.convert_address(0xfff), None);
}

#[test]
fn relative_addresses_start_where_the_mapping_says() {
    let mut log = LibMappingOpQueue::new();
    log.push(0, add(0x5000, 0x6000, 0x300, 2));
    let mut replay = LibMappings::new(log);
    replay.advance_to(0);
    assert_eq!(replay.convert_address(0x5010), found(0x310, 2));
}

#[test]
fn relative_addresses_that_do_not_fit_are_not_resolved() {
    let mut log = LibMappingOpQueue::new();
    log.push(0, add(0, u64::MAX, 0xffff_fff0, 2));
    let mut replay = LibMappings::new(log);
    replay.advance_to(0);
    assert_eq!(replay.convert_address(0xf), found(0xffff_ffff, 2));
    assert_eq!(replay.convert_address(0x10), None);
}

#[test]
fn the_log_is_replayed_up_to_the_time_asked_for() {
    let mut log = LibMappingOpQueue::new();
    log.push(10, add(0x1000, 0x2000, 0, 1));
    log.push(20, add(0x3000, 0x4000, 0, 2));
    log.push(30, LibMappingOp::Remove { start_avma: 0x1000 });
    assert_eq!(log.len(), 3);
    let mut replay = LibMappings::new(log);
    replay.advance_to(9);
    assert_eq!(replay.convert_address(0x1000), None);
    replay.advance_to(19);
    assert_eq!(replay.convert_address(0x1000), found(0, 1));
    assert_eq!(replay.convert_address(0x3000), None);
    replay.advance_to(20);
    assert_eq!(replay.convert_address(0x3000), found(0, 2));
    replay.advance_to(29);
    assert_eq!(replay.convert_address(0x1000), found(0, 1));
    replay.advance_to(30);
    assert_eq!(replay.convert_address(0x1000), None);
    assert_eq!(replay.convert_address(0x3000), found(0, 2));
}

#[test]
fn the_replay_never_goes_back() {
    let mut log = LibMappingOpQueue::new();
    log.push(10, add(0x1000, 0x2000, 0, 1));
    let mut replay = LibMappings::new(log);
    replay.advance_to(50);
    replay.advance_to(5);
    assert_eq!(replay.convert_address(0x1000), found(0, 1));
}

#[test]
fn the_latest_mapping_wins_where_mappings_overlap() {
    let mut log = LibMappingOpQueue::new();
    log.push(10, add(0x1000, 0x3000, 0, 1));
    log.push(20, add(0x2000, 0x4000, 0, 2));
    let mut replay = LibMappings::new(log);
    replay.advance_to(20);
    assert_eq!(replay.convert_address(0x1800), found(0x800, 1));
    assert_eq!(replay.convert_address(0x2800), found(0x800, 2));
    assert_eq!(replay.convert_address(0x3800), found(0x1800, 2));
}

#[test]
fn a_mapping_replaces_the_one_that_started_at_the_same_address() {
    let mut log = LibMappingOpQueue::new();
    log.push(10, add(0x1000, 0x3000, 0, 1));
    log.push(20, add(0x1000, 0x2000, 0, 2));
    let mut replay = LibMappings::new(log);
    replay.advance_to(20);
    assert_eq!(replay.convert_address(0x1800), found(0x800, 2));
    assert_eq!(replay.convert_address(0x2800), None);
}

#[test]
fn removing_the_latest_mapping_shows_the_one_below() {
    let mut log = LibMappingOpQueue::new();
    log.push(10, add(0x1000, 0x3000, 0, 1));
    log.push(20, add(0x2000, 0x4000, 0, 2));
    log.push(30, LibMappingOp::Remove { start_avma: 0x2000 });
    log.push(40, LibMappingOp::Remove { start_avma: 0x9999 });
    let mut replay = LibMappings::new(log);
    replay.advance_to(100);
    assert_eq!(replay.convert_address(0x2800), found(0x1800, 1));
    assert_eq!(replay.convert_address(0x3800), None);
}

#[test]
fn an_entry_out_of_order_holds_the_replay_up() {
    let mut log = LibMappingOpQueue::new();
    log.push(50, add(0x1000, 0x2000, 0, 1));
    log.push(10, add(0x3000, 0x4000, 0, 2));
    let mut replay = LibMappings::new(log);
    replay.advance_to(20);
    assert_eq!(replay.convert_address(0x3000), None);
    replay.advance_to(50);
    assert_eq!(replay.convert_address(0x3000), found(0, 2));
    assert_eq!(replay.convert_address(0x1000), found(0, 1));
}

#[test]
fn a_log_can_be_copied() {
    let mut log = LibMappingOpQueue::new();
    log.push(10, add(0x1000, 0x2000, 0, 1));
    let copy = log.copy();
    assert_eq!(copy.ops, log.ops);
    assert_eq!(LibMappingOpQueue::default().len(), 0);
    let jit = LibMappingInfo::new_jit_function(LibraryHandle(3), 7);
    assert_eq!(jit.jit_symbol, Some(7));
    assert_eq!(jit.lib_handle, LibraryHandle(3));
}
