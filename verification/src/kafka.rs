//! Queue-backed traffic capture: the envelope of a captured exchange, where it is
//! sent, and how hard delivery is tried. Delays are in nanoseconds.

use crate::retry::{saturating_mul, scaled};
use crate::types::{clone_bytes, clone_text, opt};
use vstd::prelude::*;

verus! {

/// One captured exchange, ready to be serialised: the replay wire format.
#[derive(Debug, PartialEq, Eq)]
pub struct CaptureEnvelope {
    /// The proxy's correlation id for the exchange.
    pub request_id: String,
    /// The request method, such as `POST`.
    pub method: String,
    pub path: String,
    /// The query string without the `?`.
    pub query: Option<String>,
    /// The request headers, in order.
    pub headers: Vec<(String, String)>,
    pub body: Vec<u8>,
    /// The status the proxy returned.
    pub response_status: u16,
    pub response_body: Vec<u8>,
}

/// A captured exchange as it was seen.
#[derive(Debug)]
pub struct CaptureRecord {
    pub request_id: String,
    /// The name of the method, in any case.
    pub method: String,
    pub path: String,
    pub query: Option<String>,
    pub headers: Vec<(String, String)>,
    pub body: Vec<u8>,
    pub response_status: u16,
    pub response_body: Vec<u8>,
}

/// The upper-case form of a text, as `str::to_uppercase` gives it.
pub uninterp spec fn uppercase(s: Seq<char>) -> Seq<char>;

/// `str::to_uppercase`.
#[verifier::external_body]
fn to_uppercase(s: &str) -> (r: String)
    ensures
        r@ == uppercase(s@),
{
    s.to_uppercase()
}

/// The texts of header pairs.
pub open spec fn pairs(h: Seq<(String, String)>) -> Seq<(Seq<char>, Seq<char>)> {
    h.map_values(|p: (String, String)| (p.0@, p.1@))
}

fn clone_pairs(h: &[(String, String)]) -> (r: Vec<(String, String)>)
    ensures
        pairs(r@) == pairs(h@),
{
    let mut out: Vec<(String, String)> = Vec::new();
    let mut i: usize = 0;
    while i < h.len()
        invariant
            0 <= i <= h@.len(),
            out@.len() == i,
            forall|j: int| 0 <= j < i ==> #[trigger] out@[j] == h@[j],
        decreases h@.len() - i,
    {
        out.push((h[i].0.clone(), h[i].1.clone()));
        i += 1;
    }
    assert(pairs(out@) =~= pairs(h@));
    out
}

impl CaptureEnvelope {
    /// The envelope of an exchange: everything verbatim, the method in upper case.
    pub fn from_record(record: &CaptureRecord) -> (r: Self)
        ensures
            r.request_id@ == record.request_id@,
            r.method@ == uppercase(record.method@),
            r.path@ == record.path@,
            opt(r.query) == opt(record.query),
            pairs(r.headers@) == pairs(record.headers@),
            r.body@ == record.body@,
            r.response_status == record.response_status,
            r.response_body@ == record.response_body@,
    {
        CaptureEnvelope {
            request_id: record.request_id.clone(),
            method: to_uppercase(record.method.as_str()),
            path: record.path.clone(),
            query: clone_text(&record.query),
            headers: clone_pairs(record.headers.as_slice()),
            body: clone_bytes(record.body.as_slice()),
            response_status: record.response_status,
            response_body: clone_bytes(record.response_body.as_slice()),
        }
    }
}

/// A failure to hand a record to the queue.
#[derive(Clone, Copy, Debug)]
pub struct ProduceError {
    /// A short reason, never a captured value.
    pub reason: &'static str,
}

/// A produced record: topic, key and payload.
pub type Produced = (String, Vec<u8>, Vec<u8>);

/// A captured record as values.
pub ghost struct Sent {
    pub topic: Seq<char>,
    pub key: Seq<u8>,
    pub payload: Seq<u8>,
}

pub open spec fn sent(p: Seq<Produced>) -> Seq<Sent> {
    p.map_values(|x: Produced| Sent { topic: x.0@, key: x.1@, payload: x.2@ })
}

/// Where envelopes are sent.
pub trait Producer {
    /// What the producer was handed so far, oldest first.
    spec fn handed(&self) -> Seq<Sent>;

    /// Hands one serialised envelope over, under `key`, for `topic`. Whether it is
    /// accepted is the producer's to say.
    fn produce(&mut self, topic: &str, key: &[u8], payload: &[u8]) -> (r: Result<(), ProduceError>)
        ensures
            final(self).handed() == old(self).handed().push(
                (Sent { topic: topic@, key: key@, payload: payload@ }),
            ),
    ;
}

/// A producer that keeps what it is handed, oldest first.
#[derive(Debug)]
pub struct InMemoryProducer {
    produced: Vec<Produced>,
}

impl View for InMemoryProducer {
    type V = Seq<Sent>;

    closed spec fn view(&self) -> Seq<Sent> {
        sent(self.produced@)
    }
}

impl InMemoryProducer {
    /// A producer that was handed nothing.
    pub fn new() -> (r: Self)
        ensures
            r@ == Seq::<Sent>::empty(),
    {
        let r = InMemoryProducer { produced: Vec::new() };
        assert(r@ =~= Seq::<Sent>::empty());
        r
    }

    /// What was produced so far, oldest first.
    pub fn produced(&self) -> (r: Vec<Produced>)
        ensures
            sent(r@) == self@,
    {
        let mut out: Vec<Produced> = Vec::new();
        let mut i: usize = 0;
        while i < self.produced.len()
            invariant
                0 <= i <= self.produced@.len(),
                sent(out@) == self@.take(i as int),
            decreases self.produced@.len() - i,
        {
            let ghost before = out@;
            let p = &self.produced[i];
            out.push((p.0.clone(), clone_bytes(p.1.as_slice()), clone_bytes(p.2.as_slice())));
            assert(sent(out@) =~= sent(before).push(sent(out@).last()));
            assert(sent(out@) =~= self@.take(i + 1));
            i += 1;
        }
        assert(self@.take(i as int) =~= self@);
        out
    }
}

impl Default for InMemoryProducer {
    fn default() -> (r: Self)
        ensures
            r@ == Seq::<Sent>::empty(),
    {
        InMemoryProducer::new()
    }
}

impl Producer for InMemoryProducer {
    open spec fn handed(&self) -> Seq<Sent> {
        self@
    }

    fn produce(&mut self, topic: &str, key: &[u8], payload: &[u8]) -> (r: Result<(), ProduceError>)
        ensures
            r is Ok,
    {
        self.produced.push((topic.to_owned(), clone_bytes(key), clone_bytes(payload)));
        assert(self@ =~= old(self)@.push(Sent { topic: topic@, key: key@, payload: payload@ }));
        Ok(())
    }
}

/// Captures exchanges to one topic through a producer.
#[derive(Debug)]
pub struct KafkaCapture<P> {
    pub producer: P,
    pub topic: String,
}

impl<P> KafkaCapture<P> {
    /// Captures to `topic` through `producer`.
    pub fn new(producer: P, topic: String) -> (r: Self)
        ensures
            r.producer == producer,
            r.topic == topic,
    {
        KafkaCapture { producer, topic }
    }
}

impl<P: Producer> KafkaCapture<P> {
    /// Sends a serialised envelope under the request id. An envelope that could not
    /// be serialised is dropped, and a producer that refuses it is not asked again:
    /// capture never fails the exchange.
    pub fn capture(&mut self, envelope: &CaptureEnvelope, serialized: Option<Vec<u8>>)
        ensures
            final(self).topic == old(self).topic,
            final(self).producer.handed() == match serialized {
                Some(payload) => old(self).producer.handed().push(
                    Sent {
                        topic: old(self).topic@,
                        key: vstd::utf8::encode_utf8(envelope.request_id@),
                        payload: payload@,
                    },
                ),
                None => old(self).producer.handed(),
            },
    {
        match serialized {
            Some(payload) => {
                let _ = self.producer.produce(
                    self.topic.as_str(),
                    envelope.request_id.as_str().as_bytes(),
                    payload.as_slice(),
                );
            },
            None => {},
        }
    }
}

/// How hard each record is delivered, and how many may be under way.
#[derive(Clone, Copy, Debug)]
pub struct DeliveryConfig {
    /// The most records under way at once; one more is dropped.
    pub max_inflight: usize,
    /// Attempts for one record in all.
    pub max_attempts: u32,
    /// The delay before the first retry; it doubles after each failed attempt.
    pub base_backoff: u128,
}

impl Default for DeliveryConfig {
    fn default() -> (r: Self)
        ensures
            r.max_inflight == 1024,
            r.max_attempts == 4,
            r.base_backoff == 50_000_000,
    {
        DeliveryConfig { max_inflight: 1024, max_attempts: 4, base_backoff: 50_000_000 }
    }
}

/// Bounds the records under way.
#[derive(Debug)]
pub struct Delivery {
    inflight: usize,
    cfg: DeliveryConfig,
}

impl Delivery {
    /// How many records are under way.
    pub closed spec fn inflight(self) -> nat {
        self.inflight as nat
    }

    pub closed spec fn config(self) -> DeliveryConfig {
        self.cfg
    }

    #[verifier::type_invariant]
    spec fn bounded(self) -> bool {
        self.inflight <= self.cfg.max_inflight
    }

    /// Nothing is under way.
    pub fn new(cfg: DeliveryConfig) -> (r: Self)
        ensures
            r.inflight() == 0,
            r.config() == cfg,
    {
        Delivery { inflight: 0, cfg }
    }

    /// Takes a slot for one record, or drops the record where none is free.
    pub fn spawn(&mut self) -> (r: Result<(), ProduceError>)
        ensures
            final(self).config() == old(self).config(),
            final(self).inflight() <= final(self).config().max_inflight,
            match r {
                Ok(()) => old(self).inflight() < old(self).config().max_inflight
                    && final(self).inflight() == old(self).inflight() + 1,
                Err(e) => old(self).inflight() == old(self).config().max_inflight
                    && final(self).inflight() == old(self).inflight() && e.reason@
                    == "capture buffer saturated, record dropped"@,
            },
    {
        proof {
            use_type_invariant(&*self);
        }
        if self.inflight >= self.cfg.max_inflight {
            return Err(ProduceError { reason: "capture buffer saturated, record dropped" });
        }
        *self = Delivery { inflight: self.inflight + 1, cfg: self.cfg };
        Ok(())
    }

    /// Delivery of one record has ended: its slot is free again.
    pub fn finished(&mut self)
        requires
            old(self).inflight() > 0,
        ensures
            final(self).config() == old(self).config(),
            final(self).inflight() == old(self).inflight() - 1,
    {
        proof {
            use_type_invariant(&*self);
        }
        *self = Delivery { inflight: self.inflight - 1, cfg: self.cfg };
    }
}

/// What follows an attempt to send a record.
#[derive(Clone, Copy, Debug, PartialEq, Eq, Structural)]
pub enum SendStep {
    /// The record is delivered, or given up.
    Done,
    /// Wait this long and send again.
    RetryAfter(u128),
}

/// The delivery of one record.
#[derive(Clone, Copy, Debug)]
pub struct Attempts {
    /// The attempt under way, counted from 1.
    pub attempt: u32,
    /// The delay before the next retry.
    pub backoff: u128,
    pub max_attempts: u32,
}

impl Attempts {
    /// Before the first attempt; `None` where no attempt is allowed.
    pub fn start(cfg: DeliveryConfig) -> (r: Option<Self>)
        ensures
            match r {
                Some(a) => cfg.max_attempts > 0 && a.attempt == 1 && a.backoff == cfg.base_backoff
                    && a.max_attempts == cfg.max_attempts,
                None => cfg.max_attempts == 0,
            },
    {
        if cfg.max_attempts == 0 {
            return None;
        }
        Some(Attempts { attempt: 1, backoff: cfg.base_backoff, max_attempts: cfg.max_attempts })
    }

    /// What follows the attempt under way.
    pub open spec fn step(self, delivered: bool) -> SendStep {
        if !delivered && self.attempt < self.max_attempts {
            SendStep::RetryAfter(self.backoff)
        } else {
            SendStep::Done
        }
    }

    /// The next attempt.
    pub open spec fn next(self) -> Attempts {
        Attempts {
            attempt: (self.attempt + 1) as u32,
            backoff: scaled(self.backoff, 2) as u128,
            ..self
        }
    }

    /// The attempt that ends the delivery, when the `i`-th attempt delivers where
    /// `outcomes[i]` says so; attempts past the end of `outcomes` fail.
    pub open spec fn last_attempt(self, outcomes: Seq<bool>) -> nat
        decreases self.max_attempts - self.attempt,
    {
        let delivered = self.attempt < outcomes.len() && outcomes[self.attempt as int];
        if self.step(delivered) is Done {
            self.attempt as nat
        } else {
            self.next().last_attempt(outcomes)
        }
    }

    /// Takes the outcome of an attempt. A failure short of the last attempt is
    /// retried after the backoff, which doubles.
    pub fn deliver(self, delivered: bool) -> (r: (Self, SendStep))
        ensures
            r.1 == self.step(delivered),
            r.0 == if r.1 is Done {
                self
            } else {
                self.next()
            },
    {
        if delivered || self.attempt >= self.max_attempts {
            return (self, SendStep::Done);
        }
        (
            Attempts {
                attempt: self.attempt + 1,
                backoff: saturating_mul(self.backoff, 2),
                max_attempts: self.max_attempts,
            },
            SendStep::RetryAfter(self.backoff),
        )
    }
}

/// Delivery stops at the first success, or after exactly the attempts it is allowed.
pub proof fn law_delivery_stops(a: Attempts, outcomes: Seq<bool>)
    requires
        a.attempt <= a.max_attempts,
    ensures
        a.attempt <= a.last_attempt(outcomes) <= a.max_attempts,
        forall|i: int|
            a.attempt <= i < a.last_attempt(outcomes) && i < outcomes.len() ==> !outcomes[i],
        a.last_attempt(outcomes) < a.max_attempts ==> outcomes[a.last_attempt(outcomes) as int],
    decreases a.max_attempts - a.attempt,
{
    let delivered = a.attempt < outcomes.len() && outcomes[a.attempt as int];
    if !(a.step(delivered) is Done) {
        law_delivery_stops(a.next(), outcomes);
    }
}

} // verus!
