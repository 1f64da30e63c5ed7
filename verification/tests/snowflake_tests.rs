use maelstrom::snowflake::Snowflake;

#[test]
fn step_composes_timestamp_worker_and_sequence() {
    let mut g = Snowflake::new(3);
    let id = g.step(100).expect("forward clock yields an id");
    assert_eq!(id, (100 << 17) | (3 << 12));
    // Same second: the sequence advances.
    let id2 = g.step(100).expect("same second yields an id");
    assert_eq!(id2, (100 << 17) | (3 << 12) | 1);
    // Fresh second: the sequence restarts.
    let id3 = g.step(101).expect("fresh second yields an id");
    assert_eq!(id3, (101 << 17) | (3 << 12));
}

#[test]
fn step_fails_when_clock_moves_backward() {
    let mut g = Snowflake::new(0);
    g.step(100).expect("forward clock yields an id");
    assert_eq!(g.step(99), None);
    // The failed tick left the state alone: the same second still works.
    let id = g.step(100).expect("same second still yields an id");
    assert_eq!(id, (100 << 17) | 1);
}

#[test]
fn step_ids_strictly_increase_while_the_clock_advances() {
    let mut g = Snowflake::new(7);
    let mut last = g.step(1000).expect("id");
    // 4095 more ids within the same second use up the sequence range;
    // each exceeds the one before.
    for _ in 0..4095 {
        let id = g.step(1000).expect("forward clock must yield an id");
        assert!(id > last, "id {} did not exceed {}", id, last);
        last = id;
    }
    // A fresh second restarts the sequence and still exceeds everything.
    let id = g.step(1001).expect("fresh second yields an id");
    assert!(id > last);
}

#[test]
fn spent_second_yields_nothing_until_the_clock_ticks() {
    let mut g = Snowflake::new(0);
    let mut last = g.step(500).expect("id");
    for _ in 0..4095 {
        last = g.step(500).expect("id");
    }
    // All 4096 slots of second 500 are spent: no id without a fresh second,
    // so no slot is ever handed out twice.
    assert_eq!(g.step(500), None);
    assert_eq!(g.step(500), None);
    // The next second hands out ids again, beyond everything before.
    let fresh = g.step(501).expect("fresh second yields an id");
    assert!(fresh > last);
}

#[test]
fn next_yields_ids_and_never_repeats_in_a_short_run() {
    let mut g = Snowflake::new(1);
    let mut seen = Vec::new();
    for _ in 0..100 {
        let id = g.next().expect("wall clock moves forward");
        assert!(!seen.contains(&id), "duplicate id {}", id);
        seen.push(id);
    }
}
