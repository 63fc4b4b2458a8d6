use ixy_net::{Error, NullSender, Phy, SimNic};

/// Drive one empty transmit poll so the bridge replenishes its free queue
/// from the pool without staging or sending anything.
fn warmed_phy(entry: usize, quota: usize) -> Phy<SimNic> {
    let mut nic = SimNic::new(entry);
    nic.set_quota(quota);
    let mut phy = Phy::new(nic);
    let mut ns = NullSender {};
    let r = phy.tx(0, &mut ns);
    assert_eq!(r, Ok(0));
    phy
}

#[test]
fn truncation_yields_exactly_requested_length() {
    let mut phy = warmed_phy(1500, 1);
    let mut units = phy.stage_tx(1, 0);
    let t = units[0].take_token().expect("token present");
    let mut p = t.consume(64).expect("64 <= 1500");
    assert_eq!(p.len(), 64);
    assert_eq!(p.capacity(), 1500);
    // The view is writable over exactly those 64 bytes.
    p.write_at(0, 1);
    p.write_at(63, 2);
    assert_eq!(p.byte_at(0), 1);
    assert_eq!(p.byte_at(63), 2);
    assert_eq!(p.byte_at(32), 0);
}

#[test]
fn capacity_violation_fails_and_keeps_the_buffer() {
    let mut phy = warmed_phy(1500, 1);
    let mut units = phy.stage_tx(1, 0);
    let t = units[0].take_token().expect("token present");
    let tag = t.tag();
    let (t, e) = t.consume(1501).expect_err("1501 > 1500");
    assert_eq!(e, Error::CapacityExceeded);
    // The failed consume handed the token back, buffer untouched:
    // same identity, same capacity, full allocated length still there.
    assert_eq!(t.tag(), tag);
    assert_eq!(t.capacity(), 1500);
    let p = t.consume(1500).expect("retry at capacity succeeds");
    assert_eq!(p.len(), 1500);
    assert_eq!(p.byte_at(747), 0);
}

#[test]
fn token_take_is_one_shot() {
    let mut phy = warmed_phy(100, 1);
    let mut units = phy.stage_tx(1, 0);
    assert!(units[0].take_token().is_some());
    assert!(units[0].take_token().is_none());
}

#[test]
fn handle_starts_unqueued_with_given_stamp() {
    let mut phy = warmed_phy(100, 2);
    let mut units = phy.stage_tx(2, 77);
    assert_eq!(units[0].handle().timestamp(), 77);
    assert!(!units[0].handle().queued());
    units[0].queue().expect("queueing always succeeds here");
    assert!(units[0].handle().queued());
    assert!(!units[1].handle().queued());
}

#[test]
fn handle_capabilities_support_nothing() {
    let mut phy = warmed_phy(100, 1);
    let units = phy.stage_tx(1, 0);
    let caps = units[0].handle().capabilities();
    assert!(!caps.ipv4);
    assert!(!caps.icmpv4);
    assert!(!caps.udp);
    assert!(!caps.tcp);
}

#[test]
fn personality_reports_pool_entry_size() {
    let phy = warmed_phy(1500, 1);
    let personality = phy.personality();
    assert_eq!(personality.max_transmission_unit, 1500);
    assert_eq!(personality.max_burst_size, None);
    assert!(!personality.checksums.ipv4);
    assert!(!personality.checksums.icmpv4);
    assert!(!personality.checksums.udp);
    assert!(!personality.checksums.tcp);
}

#[test]
fn pool_allocates_at_most_its_quota() {
    let mut phy = warmed_phy(100, 2);
    let units = phy.stage_tx(10, 0);
    assert_eq!(units.len(), 2);
    assert_eq!(phy.absorb_tx(units), 0);
}

#[test]
fn sim_rejects_oversize_frames() {
    let mut nic = SimNic::new(4);
    assert_eq!(nic.push_incoming(vec![1, 2, 3, 4]), Ok(()));
    let r = nic.push_incoming(vec![1, 2, 3, 4, 5]);
    assert_eq!(r, Err(vec![1, 2, 3, 4, 5]));
    assert_eq!(nic.incoming_count(), 1);
}

#[test]
fn consume_zero_length_is_allowed() {
    let mut phy = warmed_phy(100, 1);
    let mut units = phy.stage_tx(1, 0);
    let t = units[0].take_token().expect("token present");
    let p = t.consume(0).expect("zero fits");
    assert_eq!(p.len(), 0);
    assert_eq!(p.capacity(), 100);
}

#[test]
fn receive_needs_companion_buffers() {
    // Frames have arrived, but the pool cannot supply companion buffers:
    // no exchange unit can be built, and the frames wait in the bridge.
    let mut nic = SimNic::new(64);
    nic.push_incoming(vec![1, 2]).expect("fits");
    let mut phy = Phy::new(nic);
    assert_eq!(phy.stage_rx(8, 0).len(), 0);
    let mut none = ixy_net::RetainAll {};
    let r = phy.rx(8, &mut none);
    assert_eq!(r, Ok(0));
    assert_eq!(phy.ixy().sent_count(), 0);
}
