use ixy_net::{
    FillSender, NullSender, Phy, QueueAllSender, RetainAll, RetainNone, SimNic, BATCH_SIZE,
};

/// Drive one empty transmit poll so the bridge replenishes its free queue
/// from the pool without staging or sending anything.
fn warm_up(phy: &mut Phy<SimNic>) {
    let mut ns = NullSender {};
    let r = phy.tx(0, &mut ns);
    assert_eq!(r, Ok(0));
}

#[test]
fn flush_order_preserved_on_partial_drain() {
    let mut nic = SimNic::new(100);
    nic.set_quota(35);
    nic.push_accept(0); // the warm-up poll's flush sends nothing
    nic.push_accept(1); // the flush under test accepts a single buffer
    let mut phy = Phy::new(nic);
    warm_up(&mut phy);

    let mut units = phy.stage_tx(3, 0);
    assert_eq!(units.len(), 3);
    let mut tags = Vec::new();
    let mut want = 10;
    for u in units.iter_mut() {
        let t = u.take_token().expect("fresh unit carries a token");
        tags.push(t.tag());
        let p = t.consume(want).expect("length fits capacity");
        u.submit(p);
        want += 10;
    }
    let queued = phy.absorb_tx(units);
    assert_eq!(queued, 3);

    // The driver accepts only the first buffer.
    let accepted = phy.flush();
    assert_eq!(accepted, 1);
    assert_eq!(phy.ixy().sent_count(), 1);
    assert_eq!(phy.ixy().sent_at(0).tag(), tags[0]);
    assert_eq!(phy.ixy().sent_at(0).len(), 10);

    // The two left behind keep their order for the next flush.
    let accepted = phy.flush();
    assert_eq!(accepted, 2);
    assert_eq!(phy.ixy().sent_at(1).tag(), tags[1]);
    assert_eq!(phy.ixy().sent_at(1).len(), 20);
    assert_eq!(phy.ixy().sent_at(2).tag(), tags[2]);
    assert_eq!(phy.ixy().sent_at(2).len(), 30);
}

#[test]
fn end_to_end_fill_one_and_flush() {
    let mut nic = SimNic::new(1500);
    nic.set_quota(3);
    let mut phy = Phy::new(nic);
    warm_up(&mut phy); // allocates the pool's three buffers

    let mut units = phy.stage_tx(3, 0);
    assert_eq!(units.len(), 3);

    // Fill exactly one buffer with 64 bytes through its transmit token.
    let t = units[0].take_token().expect("fresh unit carries a token");
    assert_eq!(t.capacity(), 1500);
    let mut p = t.consume(64).expect("64 fits 1500");
    assert_eq!(p.len(), 64);
    let mut i = 0;
    while i < 64 {
        p.write_at(i, 0xAB);
        i += 1;
    }
    units[0].submit(p);

    let queued = phy.absorb_tx(units);
    assert_eq!(queued, 1);

    // An accept-everything driver takes the one filled buffer.
    let accepted = phy.flush();
    assert_eq!(accepted, 1);
    assert_eq!(phy.flush(), 0); // the ready queue is empty now

    let sim = phy.ixy();
    assert_eq!(sim.sent_count(), 1);
    assert_eq!(sim.sent_at(0).len(), 64);
    assert_eq!(sim.sent_at(0).payload(), &[0xABu8; 64][..]);
}

#[test]
fn starvation_transmit_does_zero_work() {
    let nic = SimNic::new(1500); // quota stays zero: the pool is exhausted
    let mut phy = Phy::new(nic);
    let mut sender = FillSender { frame_len: 64, marker: 1 };
    let r = phy.tx(100, &mut sender);
    assert_eq!(r, Ok(0));
    assert_eq!(phy.ixy().sent_count(), 0);
    assert_eq!(phy.stage_tx(100, 0).len(), 0);
}

#[test]
fn batch_bound_transmit() {
    let mut nic = SimNic::new(256);
    nic.set_quota(200); // the pool reports far more than one batch
    let mut phy = Phy::new(nic);
    let mut sender = FillSender { frame_len: 32, marker: 7 };
    let r = phy.tx(50, &mut sender);
    assert_eq!(r, Ok(BATCH_SIZE)); // at most 32 pairs reached the callback
    assert_eq!(phy.ixy().sent_count(), BATCH_SIZE);
}

#[test]
fn batch_bound_receive() {
    let mut nic = SimNic::new(256);
    nic.set_quota(200);
    for k in 0..100u8 {
        nic.push_incoming(vec![k]).expect("one byte fits");
    }
    let mut phy = Phy::new(nic);
    let mut receptor = RetainAll {};
    let r = phy.rx(50, &mut receptor);
    assert_eq!(r, Ok(BATCH_SIZE)); // at most 32 pairs reached the callback
}

#[test]
fn staging_respects_caller_maximum() {
    let mut nic = SimNic::new(256);
    nic.set_quota(200);
    let mut phy = Phy::new(nic);
    warm_up(&mut phy);
    assert_eq!(phy.stage_tx(5, 0).len(), 5);
}

#[test]
fn zero_copy_retransmit_by_identity() {
    let mut nic = SimNic::new(128);
    nic.set_quota(40);
    nic.push_incoming(vec![1, 2, 3]).expect("fits");
    let mut phy = Phy::new(nic);
    let mut receptor = RetainAll {};
    let r = phy.rx(8, &mut receptor);
    assert_eq!(r, Ok(1)); // the one received frame was retained

    // The retained buffer went out on the wire unchanged: same bytes,
    // and the driver saw exactly one frame.
    let sim = phy.ixy();
    assert_eq!(sim.sent_count(), 1);
    assert_eq!(sim.sent_at(0).payload(), &[1u8, 2, 3][..]);
}

#[test]
fn receive_drop_leaves_nothing_queued() {
    let mut nic = SimNic::new(128);
    nic.set_quota(40);
    nic.push_incoming(vec![9, 9]).expect("fits");
    let mut phy = Phy::new(nic);
    let mut receptor = RetainNone {};
    let r = phy.rx(8, &mut receptor);
    assert_eq!(r, Ok(0));
    assert_eq!(phy.ixy().sent_count(), 0);
}

#[test]
fn receive_exchange_with_reply() {
    let mut nic = SimNic::new(128);
    nic.set_quota(40);
    nic.push_incoming(vec![5, 6, 7, 8]).expect("fits");
    nic.push_incoming(vec![10, 11]).expect("fits");
    let mut phy = Phy::new(nic);
    let mut receptor = RetainNone {};
    let r = phy.rx(0, &mut receptor); // replenish both queues, stage nothing
    assert_eq!(r, Ok(0));

    let mut units = phy.stage_rx(8, 42);
    assert_eq!(units.len(), 2);
    assert_eq!(units[0].payload(), &[5u8, 6, 7, 8][..]);
    assert_eq!(units[1].payload(), &[10u8, 11][..]);
    assert_eq!(units[0].handle().timestamp(), 42);

    // Keep the first frame for forwarding and answer it too.
    units[0].queue().expect("queueing always succeeds here");
    let frame0 = units[0].payload().to_vec();
    let frame0_tag = units[0].frame_tag();
    let t = units[0].take_companion().expect("companion present");
    let mut reply = t.consume(2).expect("fits");
    reply.write_at(0, 0xEE);
    reply.write_at(1, 0xFF);
    units[0].submit(reply);

    let queued = phy.absorb_rx(units);
    assert_eq!(queued, 2); // the retained frame and the reply

    let accepted = phy.flush();
    assert_eq!(accepted, 2);
    let sim = phy.ixy();
    // Retained frame first — by identity, bytes untouched — then the reply.
    assert_eq!(sim.sent_at(0).tag(), frame0_tag);
    assert_eq!(sim.sent_at(0).payload(), &frame0[..]);
    assert_eq!(sim.sent_at(1).payload(), &[0xEEu8, 0xFF][..]);
}

#[test]
fn ownership_tags_stay_unique() {
    let mut nic = SimNic::new(64);
    nic.set_quota(200);
    for k in 0..10u8 {
        nic.push_incoming(vec![k; 4]).expect("fits");
    }
    let mut phy = Phy::new(nic);
    let mut receptor = RetainAll {};
    let mut sender = QueueAllSender {};
    let r = phy.rx(6, &mut receptor);
    assert_eq!(r, Ok(6));
    let r = phy.tx(6, &mut sender);
    assert_eq!(r, Ok(6));
    let r = phy.rx(6, &mut receptor);
    assert_eq!(r, Ok(4));
    phy.flush();
    phy.flush();

    // Every buffer that ever reached the driver carries a distinct tag.
    let sim = phy.ixy();
    let mut tags = Vec::new();
    for i in 0..sim.sent_count() {
        tags.push(sim.sent_at(i).tag());
    }
    assert_eq!(tags.len(), 16);
    let mut sorted = tags.clone();
    sorted.sort();
    sorted.dedup();
    assert_eq!(sorted.len(), tags.len());
}

#[test]
fn enqueue_triggers_flush_at_batch_size() {
    let mut nic = SimNic::new(64);
    nic.set_quota(40);
    let mut phy = Phy::new(nic);
    warm_up(&mut phy);

    let mut units = phy.stage_tx(BATCH_SIZE, 0);
    assert_eq!(units.len(), BATCH_SIZE);
    let mut flushed = 0;
    for u in units.iter_mut() {
        let t = u.take_token().expect("token present");
        let p = t.consume(5).expect("fits");
        flushed = phy.enqueue(p);
    }
    // The final enqueue filled the ready queue to one batch and the
    // accept-everything driver took the lot at once.
    assert_eq!(flushed, BATCH_SIZE);
    assert_eq!(phy.ixy().sent_count(), BATCH_SIZE);
    assert_eq!(phy.flush(), 0);
    // The emptied units have nothing left to reclaim.
    assert_eq!(phy.absorb_tx(units), 0);
}

#[test]
fn queue_without_consume_sends_buffer_as_staged() {
    let mut nic = SimNic::new(100);
    nic.set_quota(35);
    let mut phy = Phy::new(nic);
    warm_up(&mut phy);

    let mut units = phy.stage_tx(2, 0);
    assert_eq!(units.len(), 2);
    units[1].queue().expect("queueing always succeeds here");
    let queued = phy.absorb_tx(units);
    assert_eq!(queued, 1);
    let accepted = phy.flush();
    assert_eq!(accepted, 1);
    // The buffer went out at its allocated full length.
    assert_eq!(phy.ixy().sent_at(0).len(), 100);
}

#[test]
fn into_inner_returns_the_device() {
    let mut nic = SimNic::new(321);
    nic.set_quota(1);
    let phy = Phy::new(nic);
    assert_eq!(phy.ixy().incoming_count(), 0);
    let nic = phy.into_inner();
    assert_eq!(nic.sent_count(), 0);
}
