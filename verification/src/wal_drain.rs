//! The drainer of the write-ahead log: deliver the next record, move the checkpoint
//! when it is acknowledged, wait and try again when it is not. Delays are in
//! nanoseconds.

use crate::retry::{saturating_mul, scaled};
use crate::kafka::ProduceError;
use crate::wal::{body_of, encodable, frame_of, Entry, Record, Wal};
use vstd::prelude::*;

verus! {

/// Tuning of the durable buffer.
#[derive(Clone, Copy, Debug)]
pub struct WalConfig {
    /// The longest the log may grow; an append past it is dropped.
    pub max_bytes: u64,
    /// Reclaim the delivered bytes once there are this many.
    pub compact_threshold: u64,
    /// The delay after a first failed delivery; it doubles up to the cap.
    pub base_backoff: u128,
    /// The longest delay.
    pub max_backoff: u128,
    /// How often the log is flushed to disk.
    pub sync_interval: u128,
}

impl Default for WalConfig {
    fn default() -> (r: Self)
        ensures
            r.max_bytes == 256 * 1024 * 1024,
            r.compact_threshold == 8 * 1024 * 1024,
            r.base_backoff == 100_000_000,
            r.max_backoff == 5_000_000_000,
            r.sync_interval == 200_000_000,
    {
        WalConfig {
            max_bytes: 268_435_456,
            compact_threshold: 8_388_608,
            base_backoff: 100_000_000,
            max_backoff: 5_000_000_000,
            sync_interval: 200_000_000,
        }
    }
}

/// What the drainer does with what the log holds.
pub enum DrainStep {
    /// Deliver this record.
    Deliver(Record),
    /// Nothing waits: flush and reclaim, then park until a record arrives or this
    /// long has passed.
    Settle(u128),
}

/// What the drainer does once a delivery has ended.
pub enum SentStep {
    /// Commit the record up to this offset, and flush and reclaim if told so.
    Commit { next: u64, sync: bool },
    /// The record stays in the log: wait this long and deliver it again.
    RetryAfter(u128),
}

/// The drainer between two steps.
#[derive(Clone, Copy, Debug)]
pub struct Drain {
    pub cfg: WalConfig,
    /// The delay after the next failure.
    pub backoff: u128,
}

/// The delay after one more failure: twice as long, up to the cap.
pub open spec fn longer(backoff: u128, cfg: WalConfig) -> u128 {
    let twice = scaled(backoff, 2);
    if twice <= cfg.max_backoff {
        twice as u128
    } else {
        cfg.max_backoff
    }
}

impl Drain {
    /// A drainer that has not failed yet.
    pub fn new(cfg: WalConfig) -> (r: Self)
        ensures
            r.cfg == cfg,
            r.backoff == cfg.base_backoff,
    {
        Drain { cfg, backoff: cfg.base_backoff }
    }

    /// Decides what to do with the next record of the log, if there is one.
    pub fn polled(&self, record: Option<Record>) -> (r: DrainStep)
        ensures
            match record {
                Some(rec) => r == DrainStep::Deliver(rec),
                None => r == DrainStep::Settle(self.cfg.sync_interval),
            },
    {
        match record {
            Some(rec) => DrainStep::Deliver(rec),
            None => DrainStep::Settle(self.cfg.sync_interval),
        }
    }

    /// Takes the outcome of a delivery. `next` is the offset just past the record and
    /// `since_sync` the time since the log was last flushed. Only an acknowledged
    /// record is committed.
    pub fn drain(&mut self, acknowledged: bool, next: u64, since_sync: u128) -> (r: SentStep)
        ensures
            final(self).cfg == old(self).cfg,
            if acknowledged {
                &&& r == (SentStep::Commit { next, sync: since_sync >= old(self).cfg.sync_interval })
                &&& final(self).backoff == old(self).cfg.base_backoff
            } else {
                &&& r == SentStep::RetryAfter(old(self).backoff)
                &&& final(self).backoff == longer(old(self).backoff, old(self).cfg)
            },
    {
        if acknowledged {
            self.backoff = self.cfg.base_backoff;
            SentStep::Commit { next, sync: since_sync >= self.cfg.sync_interval }
        } else {
            let wait = self.backoff;
            let twice = saturating_mul(wait, 2);
            self.backoff = if twice <= self.cfg.max_backoff {
                twice
            } else {
                self.cfg.max_backoff
            };
            SentStep::RetryAfter(wait)
        }
    }
}

/// The delay after `n` failures in a row.
pub open spec fn delay_after(cfg: WalConfig, n: nat) -> u128
    decreases n,
{
    if n == 0 {
        cfg.base_backoff
    } else {
        longer(delay_after(cfg, (n - 1) as nat), cfg)
    }
}

/// However long the broker stays away, the delay between two tries stays within its
/// cap, so an undelivered record is tried again and again.
pub proof fn law_delay_stays_within_its_cap(cfg: WalConfig, n: nat)
    requires
        n > 0,
    ensures
        delay_after(cfg, n) <= cfg.max_backoff,
{
}

/// A record that could not be put into the log.
pub fn log_full() -> (r: ProduceError)
    ensures
        r.reason@ == "capture WAL full, record dropped"@,
{
    ProduceError { reason: "capture WAL full, record dropped" }
}

/// The frame a record is put into the log as and where it goes. A record that cannot be
/// framed, or for which the log has no room, is dropped.
pub fn produce(wal: &Wal, topic: &str, key: &[u8], payload: &[u8]) -> (r: Result<
    (u64, Vec<u8>),
    ProduceError,
>)
    ensures
        ({
            let e = Entry { topic: topic@, key: key@, payload: payload@ };
            let fits = encodable(e) && body_of(e).len() <= u32::MAX && wal@.end + 8 + body_of(
                e,
            ).len() <= wal@.max_bytes;
            match r {
                Ok((at, frame)) => fits && at == wal@.end && frame@ == frame_of(body_of(e)),
                Err(error) => !fits && error.reason@ == "capture WAL full, record dropped"@,
            }
        }),
{
    match wal.append(topic, key, payload) {
        Some(placed) => Ok(placed),
        None => Err(log_full()),
    }
}

} // verus!
