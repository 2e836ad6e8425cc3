use bmw::slabs::{ReadChain, ReadEvent, ReadNext, ReadSlabs, ReadTally, NO_SLAB};

fn chain_data(slabs: &ReadSlabs, c: &ReadChain) -> Vec<u8> {
    let mut out = vec![];
    let mut cur = c.first_slab;
    while let Some(ch) = slabs.next_chunk(c, cur) {
        out.extend(ch.data);
        cur = ch.next;
    }
    out
}

#[test]
fn reads_fill_slabs_in_order() {
    let mut slabs = ReadSlabs::new(25, 10);
    let mut c = ReadChain::new();
    assert_eq!(c.first_slab, NO_SLAB);

    let p = slabs.prepare(&mut c).unwrap();
    assert!(p.fresh);
    assert_eq!(p.space, 21);
    assert_eq!(p.prev_last, NO_SLAB);
    slabs.commit(&mut c, b"hello");
    assert_eq!(c.slab_offset, 5);
    assert_eq!(chain_data(&slabs, &c), b"hello".to_vec());

    let p = slabs.prepare(&mut c).unwrap();
    assert!(!p.fresh);
    assert_eq!(p.space, 16);
    slabs.commit(&mut c, b"0123456789abcdef");
    assert_eq!(c.slab_offset, 21);

    let p = slabs.prepare(&mut c).unwrap();
    assert!(p.fresh);
    assert_eq!(p.space, 21);
    assert_ne!(c.first_slab, c.last_slab);
    slabs.commit(&mut c, b"xyz");
    assert_eq!(chain_data(&slabs, &c), b"hello0123456789abcdefxyz".to_vec());

    let first = slabs.next_chunk(&c, c.first_slab).unwrap();
    assert_eq!(first.data, b"hello0123456789abcdef".to_vec());
    assert_eq!(first.next, c.last_slab);
    let second = slabs.next_chunk(&c, first.next).unwrap();
    assert_eq!(second.data, b"xyz".to_vec());
    assert_eq!(second.next, NO_SLAB);
    assert!(slabs.next_chunk(&c, NO_SLAB).is_none());

    // clearing through the first slab leaves the data after it
    let first_id = c.first_slab;
    slabs.clear_through(&mut c, first_id);
    assert_eq!(chain_data(&slabs, &c), b"xyz".to_vec());
    assert_eq!(c.first_slab, c.last_slab);

    slabs.clear_all(&mut c);
    assert_eq!(c.first_slab, NO_SLAB);
    assert_eq!(c.last_slab, NO_SLAB);
    assert!(chain_data(&slabs, &c).is_empty());
}

#[test]
fn out_of_slabs() {
    let mut slabs = ReadSlabs::new(25, 1);
    let mut c = ReadChain::new();
    slabs.prepare(&mut c).unwrap();
    slabs.commit(&mut c, b"012345678901234567890");
    assert!(slabs.prepare(&mut c).is_none());

    // a freed slab can be used again, by another chain
    slabs.clear_all(&mut c);
    let mut d = ReadChain::new();
    assert!(slabs.prepare(&mut d).is_some());
}

#[test]
fn idle_read_gives_the_fresh_slab_back() {
    let mut slabs = ReadSlabs::new(25, 1);
    let mut c = ReadChain::new();
    let p = slabs.prepare(&mut c).unwrap();
    slabs.finish_idle_read(&mut c, p);
    assert_eq!(c.first_slab, NO_SLAB);
    assert_eq!(c.last_slab, NO_SLAB);
    // the slab is free again
    let mut d = ReadChain::new();
    assert!(slabs.prepare(&mut d).is_some());
}

#[test]
fn idle_read_on_a_partly_filled_slab_changes_nothing() {
    let mut slabs = ReadSlabs::new(25, 2);
    let mut c = ReadChain::new();
    slabs.prepare(&mut c).unwrap();
    slabs.commit(&mut c, b"abc");
    let p = slabs.prepare(&mut c).unwrap();
    slabs.finish_idle_read(&mut c, p);
    assert_eq!(chain_data(&slabs, &c), b"abc".to_vec());
}

#[test]
fn clearing_a_slab_not_in_the_chain_clears_all() {
    let mut slabs = ReadSlabs::new(25, 3);
    let mut c = ReadChain::new();
    slabs.prepare(&mut c).unwrap();
    slabs.commit(&mut c, b"abc");
    slabs.clear_through(&mut c, NO_SLAB);
    assert_eq!(c.first_slab, NO_SLAB);
}

#[test]
fn idle_read_after_a_full_slab_keeps_the_data() {
    let mut slabs = ReadSlabs::new(25, 2);
    let mut c = ReadChain::new();
    slabs.prepare(&mut c).unwrap();
    slabs.commit(&mut c, b"012345678901234567890");
    let p = slabs.prepare(&mut c).unwrap();
    assert!(p.fresh);
    slabs.finish_idle_read(&mut c, p);
    assert_eq!(c.first_slab, c.last_slab);
    assert_eq!(c.slab_offset, 21);
    assert_eq!(chain_data(&slabs, &c), b"012345678901234567890".to_vec());
    // the slab given back can be taken again, and reading goes on after the data
    let p = slabs.prepare(&mut c).unwrap();
    assert!(p.fresh);
    slabs.commit(&mut c, b"x");
    assert_eq!(chain_data(&slabs, &c), b"012345678901234567890x".to_vec());
}

#[test]
fn cleared_slabs_are_free_again() {
    let mut slabs = ReadSlabs::new(25, 2);
    let mut c = ReadChain::new();
    slabs.prepare(&mut c).unwrap();
    slabs.commit(&mut c, b"012345678901234567890");
    slabs.prepare(&mut c).unwrap();
    slabs.commit(&mut c, b"abc");
    let first = c.first_slab;
    slabs.clear_through(&mut c, first);
    // one slab was freed: another chain can take it
    let mut d = ReadChain::new();
    assert!(slabs.prepare(&mut d).is_some());
    let mut e = ReadChain::new();
    assert!(slabs.prepare(&mut e).is_none());
}

#[test]
fn read_steps_decide_when_to_close() {
    let mut slabs = ReadSlabs::new(25, 1);
    let mut c = ReadChain::new();
    let mut tally = ReadTally { count: 0, sum: 0 };

    let p = slabs.prepare(&mut c);
    let next = slabs.read_step(&mut c, p, ReadEvent::Bytes(b"hello".to_vec()), &mut tally);
    assert_eq!(next, ReadNext::CallOnRead);
    assert_eq!(tally, ReadTally { count: 1, sum: 5 });
    assert_eq!(chain_data(&slabs, &c), b"hello".to_vec());

    let p = slabs.prepare(&mut c);
    assert_eq!(slabs.read_step(&mut c, p, ReadEvent::WouldBlock, &mut tally), ReadNext::Done);
    assert_eq!(chain_data(&slabs, &c), b"hello".to_vec());

    let p = slabs.prepare(&mut c);
    assert_eq!(slabs.read_step(&mut c, p, ReadEvent::Bytes(vec![]), &mut tally), ReadNext::Close);
    let p = slabs.prepare(&mut c);
    assert_eq!(slabs.read_step(&mut c, p, ReadEvent::Failed, &mut tally), ReadNext::Close);
    assert_eq!(tally, ReadTally { count: 1, sum: 5 });

    // a full slab and no free one: the connection is closed
    let p = slabs.prepare(&mut c).unwrap();
    slabs.commit(&mut c, &b"0123456789abcdef"[..p.space]);
    let p = slabs.prepare(&mut c);
    assert!(p.is_none());
    assert_eq!(slabs.read_step(&mut c, p, ReadEvent::WouldBlock, &mut tally), ReadNext::Close);
}
