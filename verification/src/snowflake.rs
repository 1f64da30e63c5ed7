//! The unique-id generator: ids compose the wall-clock second, the worker
//! id and an intra-second sequence number into one `u64`
//! (`timestamp << 17 | worker << 12 | sequence`).

use vstd::prelude::*;

verus! {

/// Bits reserved for the worker id.
pub const WORKER_ID_BITS: u64 = 5;

/// Bits reserved for the intra-second sequence.
pub const SEQUENCE_BITS: u64 = 12;

/// The largest worker id the layout can hold.
pub const MAX_WORKER_ID: u64 = 31;

/// The largest intra-second sequence value: once it is reached, the second
/// is spent and yields no further ids.
pub const MAX_SEQUENCE: u64 = 4095;

/// Relies on std::time::SystemTime: the wall clock, in whole seconds since
/// the Unix epoch (zero if the clock stands before it). The result depends
/// on when the call happens, so nothing is promised of it.
#[verifier::external_body]
fn now_seconds() -> u64 {
    match std::time::SystemTime::now().duration_since(std::time::UNIX_EPOCH) {
        Ok(d) => d.as_secs(),
        Err(_) => 0,
    }
}

/// Relies on std::time::Instant: waits about a millisecond, as backpressure
/// after the intra-second sequence rolled over, so the wall clock can tick
/// past the exhausted second.
#[verifier::external_body]
fn pause_briefly() {
    let start = std::time::Instant::now();
    while start.elapsed() < std::time::Duration::from_millis(1) {
        std::hint::spin_loop();
    }
}

/// One generator's private state: the worker id it was built with and the
/// last second it handed ids out in.
pub struct Snowflake {
    seed: u64,
    sequence: u64,
    last_timestamp: u64,
}

/// Mathematical model of `Snowflake`.
pub struct SnowflakeV {
    pub seed: u64,
    pub sequence: u64,
    pub last_timestamp: u64,
}

impl View for Snowflake {
    type V = SnowflakeV;

    closed spec fn view(&self) -> SnowflakeV {
        SnowflakeV {
            seed: self.seed,
            sequence: self.sequence,
            last_timestamp: self.last_timestamp,
        }
    }
}

/// The id composed of one clock reading, one worker and one sequence value.
pub open spec fn compose_id(ts: u64, seed: u64, sequence: u64) -> u64 {
    (ts << 17u64) | (seed << 12u64) | sequence
}

/// A generator state whose fields fit the id layout.
pub open spec fn snow_wf(st: SnowflakeV) -> bool {
    st.seed <= MAX_WORKER_ID && st.sequence <= MAX_SEQUENCE
}

/// One tick of the generator for the wall-clock reading `ts`: fails if the
/// clock moved backward, and fails — emitting nothing rather than risking a
/// duplicate — when the second's 4096 sequence slots are spent; otherwise
/// the sequence advances within the same second and restarts at zero in a
/// fresh one.
pub open spec fn snow_step(st: SnowflakeV, ts: u64) -> Option<(SnowflakeV, u64)> {
    if ts < st.last_timestamp {
        None
    } else if ts == st.last_timestamp {
        if st.sequence >= MAX_SEQUENCE {
            None
        } else {
            let nseq = (st.sequence + 1) as u64;
            Some(
                (
                    SnowflakeV { seed: st.seed, sequence: nseq, last_timestamp: ts },
                    compose_id(ts, st.seed, nseq),
                ),
            )
        }
    } else {
        Some(
            (
                SnowflakeV { seed: st.seed, sequence: 0, last_timestamp: ts },
                compose_id(ts, st.seed, 0),
            ),
        )
    }
}

/// The relation `next` guarantees between the state before the call, the
/// state after it, and its result, for the clock reading `ts` it saw.
pub open spec fn next_follows_step(pre: SnowflakeV, post: SnowflakeV, r: Option<u64>, ts: u64) -> bool {
    match r {
        Some(id) => snow_step(pre, ts) == Some((post, id)),
        None => snow_step(pre, ts) is None && post == pre,
    }
}

impl Snowflake {
    /// A fresh generator for one worker.
    pub fn new(seed: u64) -> (r: Self)
        requires
            seed <= MAX_WORKER_ID,
        ensures
            r@ == (SnowflakeV { seed, sequence: 0, last_timestamp: 0 }),
            snow_wf(r@),
    {
        Snowflake { seed, sequence: 0, last_timestamp: 0 }
    }

    /// Advances the state by one tick of `snow_step` for the given clock
    /// reading and yields the composed id, or nothing when the clock moved
    /// backward or the second's sequence slots are spent (the state is then
    /// unchanged).
    pub fn step(&mut self, ts: u64) -> (r: Option<u64>)
        ensures
            ({
                let sp = snow_step(old(self)@, ts);
                match r {
                    Some(id) => sp == Some((final(self)@, id)),
                    None => sp is None && final(self)@ == old(self)@,
                }
            }),
            snow_wf(old(self)@) ==> snow_wf(final(self)@),
    {
        if ts < self.last_timestamp {
            return None;
        }
        if ts == self.last_timestamp {
            if self.sequence >= MAX_SEQUENCE {
                return None;
            }
            self.sequence = self.sequence + 1;
        } else {
            self.sequence = 0;
        }
        self.last_timestamp = ts;
        Some((ts << 17u64) | (self.seed << 12u64) | self.sequence)
    }

    /// Draws the next unique id: reads the wall clock and advances the
    /// state by one `snow_step` of the second it saw. When the current
    /// second's 4096 slots are spent, it blocks in short pauses until the
    /// clock ticks past that second — the rollover backpressure — so no
    /// slot is ever handed out twice; if the clock refuses to advance for
    /// several seconds, or moved backward, it yields nothing.
    pub fn next(&mut self) -> (r: Option<u64>)
        ensures
            (exists|ts: u64| #[trigger] next_follows_step(old(self)@, final(self)@, r, ts)),
            snow_wf(old(self)@) ==> snow_wf(final(self)@),
    {
        let mut ts = now_seconds();
        let mut tries: u64 = 0;
        while ts == self.last_timestamp && self.sequence >= MAX_SEQUENCE && tries < 4096
            invariant
                *self == *old(self),
                tries <= 4096,
            decreases 4096 - tries,
        {
            pause_briefly();
            ts = now_seconds();
            tries = tries + 1;
        }
        let r = self.step(ts);
        proof {
            assert(next_follows_step(old(self)@, self@, r, ts));
        }
        r
    }
}

/// Within the id layout's ranges, the composed id is the place-value sum
/// of its three parts, so it orders ids by timestamp first, then sequence.
pub proof fn lemma_compose_id_linear(ts: u64, seed: u64, sequence: u64)
    requires
        ts < 0x8000_0000_0000,
        seed <= MAX_WORKER_ID,
        sequence <= MAX_SEQUENCE,
    ensures
        compose_id(ts, seed, sequence) == ts * 131072 + seed * 4096 + sequence,
{
    assert(((ts << 17u64) | (seed << 12u64) | sequence) == ts * 131072 + seed * 4096
        + sequence) by (bit_vector)
        requires
            ts < 0x8000_0000_0000u64,
            seed <= 31u64,
            sequence <= 4095u64,
    ;
}

/// Ids from consecutive successful ticks strictly increase whenever the
/// wall clock does not move backward — so across such a run the generator
/// never yields the same id twice. (A spent second yields no id at all, so
/// no successful tick ever reuses a slot.)
pub proof fn lemma_ids_strictly_increase(st: SnowflakeV, ts1: u64, ts2: u64)
    requires
        snow_wf(st),
        ts1 < 0x8000_0000_0000,
        ts2 < 0x8000_0000_0000,
        ts1 <= ts2,
        snow_step(st, ts1) is Some,
        snow_step(snow_step(st, ts1)->Some_0.0, ts2) is Some,
    ensures
        snow_step(snow_step(st, ts1)->Some_0.0, ts2)->Some_0.1 > snow_step(st, ts1)->Some_0.1,
{
    let (st1, id1) = snow_step(st, ts1)->Some_0;
    let (st2, id2) = snow_step(st1, ts2)->Some_0;
    lemma_compose_id_linear(ts1, st.seed, st1.sequence);
    lemma_compose_id_linear(ts2, st.seed, st2.sequence);
}

} // verus!
