use fastloop::timer::TimerWheel;
use fastloop::{SLOT_DURATION_MS, WHEEL_SIZE};

#[test]
fn fresh_wheel_fires_nothing() {
    let mut w = TimerWheel::new();
    for _ in 0..10 {
        assert!(w.tick().is_empty());
    }
}

#[test]
fn zero_delay_fires_on_next_tick() {
    let mut w = TimerWheel::new();
    let (id, entry) = w.schedule(0, 5);
    assert_eq!(id, 1);
    assert_eq!(entry.id, 1);
    assert_eq!(entry.slot, 0);
    let fired = w.tick();
    assert_eq!(fired, vec![5]);
    assert!(w.tick().is_empty());
}

#[test]
fn delay_fires_after_its_ticks() {
    let mut w = TimerWheel::new();
    // 50 ms is five slots ahead: slots 0..=4 pass silently, the sixth tick
    // drains slot 5.
    let (_, entry) = w.schedule(50, 9);
    assert_eq!(entry.slot, 5);
    for _ in 0..5 {
        assert!(w.tick().is_empty());
    }
    assert_eq!(w.tick(), vec![9]);
}

#[test]
fn cancelled_timer_never_fires() {
    let mut w = TimerWheel::new();
    let (_, entry) = w.schedule(50, 4);
    entry.cancel(&mut w);
    for _ in 0..10 {
        assert!(w.tick().is_empty());
    }
}

#[test]
fn cancel_after_schedule_then_tick_is_quiet() {
    let mut w = TimerWheel::new();
    let (_, entry) = w.schedule(0, 2);
    w.cancel(&entry);
    assert!(w.tick().is_empty());
}

#[test]
fn full_revolution_delay_wraps_to_current_slot() {
    let mut w = TimerWheel::new();
    let wrap_ms = WHEEL_SIZE as u64 * SLOT_DURATION_MS;
    let (_, entry) = w.schedule(wrap_ms, 3);
    // 2560 ms nominally, but the wheel wraps: the entry sits in the slot the
    // cursor points at and fires on the very next tick.
    assert_eq!(entry.slot, 0);
    assert_eq!(w.tick(), vec![3]);
}

#[test]
fn long_delay_wraps_into_nearer_slot() {
    let mut w = TimerWheel::new();
    let (_, entry) = w.schedule(2570, 8);
    assert_eq!(entry.slot, 1);
    assert!(w.tick().is_empty());
    assert_eq!(w.tick(), vec![8]);
}

#[test]
fn expiration_slot_wraps_modulo_wheel() {
    let w = TimerWheel::new();
    assert_eq!(w.expiration_slot(0), 0);
    assert_eq!(w.expiration_slot(9), 0);
    assert_eq!(w.expiration_slot(10), 1);
    assert_eq!(w.expiration_slot(2550), 255);
    assert_eq!(w.expiration_slot(2560), 0);
    assert_eq!(w.expiration_slot(2561), 0);
}

#[test]
fn ids_strictly_increase() {
    let mut w = TimerWheel::new();
    let (id1, _) = w.schedule(0, 1);
    let (id2, _) = w.schedule(100, 2);
    let (id3, _) = w.schedule(5000, 3);
    assert_eq!((id1, id2, id3), (1, 2, 3));
}

#[test]
fn same_slot_fires_in_schedule_order() {
    let mut w = TimerWheel::new();
    w.schedule(0, 11);
    w.schedule(5, 22);
    w.schedule(9, 33);
    assert_eq!(w.tick(), vec![11, 22, 33]);
}

#[test]
fn cancel_one_of_two_fires_the_other() {
    let mut w = TimerWheel::new();
    let (_, first) = w.schedule(0, 11);
    let (_, _second) = w.schedule(0, 22);
    w.cancel(&first);
    assert_eq!(w.tick(), vec![22]);
}

#[test]
fn cursor_advances_one_slot_per_tick() {
    let mut w = TimerWheel::new();
    // An entry one full revolution ahead comes up again only after exactly
    // WHEEL_SIZE ticks: the cursor moves one slot per tick, modulo the ring.
    for _ in 0..3 {
        assert!(w.tick().is_empty());
    }
    let (_, entry) = w.schedule(0, 7);
    assert_eq!(entry.slot, 3);
    assert_eq!(w.tick(), vec![7]);
    let (_, late) = w.schedule(2550, 9);
    assert_eq!(late.slot, 3);
    for _ in 0..255 {
        assert!(w.tick().is_empty());
    }
    assert_eq!(w.tick(), vec![9]);
}

#[test]
fn cursor_moves_one_slot_per_tick_modulo_ring() {
    let mut w = TimerWheel::new();
    assert_eq!(w.cursor(), 0);
    w.tick();
    assert_eq!(w.cursor(), 1);
    w.tick();
    assert_eq!(w.cursor(), 2);
    for _ in 0..(WHEEL_SIZE - 2) {
        w.tick();
    }
    assert_eq!(w.cursor(), 0);
}
