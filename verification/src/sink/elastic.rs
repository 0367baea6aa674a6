//! Elasticsearch and OpenSearch through the HTTP bulk API.

use std::time::Duration;

use vstd::arithmetic::div_mod::*;
use vstd::prelude::*;

use crate::batching;
use crate::config::ElasticSinkConfig;
use crate::duration;
use crate::json;
use crate::json::Json;
use crate::proto;
use crate::proto::LogBatch;
use crate::sink;
use crate::sink::encode;
use crate::sink::retry;
use crate::sink::retry::{Action, Delivery};
use crate::sink::SinkError;
use crate::text;

verus! {

// ---------------------------------------------------------------------------
// Bodies
// ---------------------------------------------------------------------------

/// The line that announces a document, without its line end. The name of the
/// index stands in it as it is.
pub open spec fn action_line(index: Seq<char>) -> Seq<char> {
    "{\"index\":{\"_index\":\""@ + index + "\"}}"@
}

/// The line with the JSON document of a record, without its line end.
pub open spec fn document_line(r: proto::RecordView) -> Seq<char> {
    json::json_text(Json::Object(encode::record_entries(r)))
}

/// The body of a bulk request: two lines for each record.
pub open spec fn bulk_text(index: Seq<char>, records: Seq<proto::RecordView>) -> Seq<char>
    decreases records.len(),
{
    if records.len() == 0 {
        seq![]
    } else {
        action_line(index) + "\n"@ + document_line(records[0]) + "\n"@ + bulk_text(
            index,
            records.skip(1),
        )
    }
}

/// The lines of the body of a bulk request. The last one is empty, since every
/// line has a line end.
pub open spec fn bulk_lines(index: Seq<char>, records: Seq<proto::RecordView>) -> Seq<Seq<char>>
    decreases records.len(),
{
    if records.len() == 0 {
        seq![seq![]]
    } else {
        seq![action_line(index), document_line(records[0])] + bulk_lines(index, records.skip(1))
    }
}

proof fn lemma_first_line(line: Seq<char>, rest: Seq<char>)
    requires
        !line.contains('\n'),
    ensures
        text::pieces(line + "\n"@ + rest, '\n') == seq![line] + text::pieces(rest, '\n'),
{
    reveal_strlit("\n");
    let s = line + "\n"@ + rest;
    text::lemma_first_at(s, '\n');
    let i = text::first_at(s, '\n');
    if i < line.len() {
        assert(s[i] == line[i]);
        assert(line.contains(line[i]));
    }
    assert(s[line.len() as int] == '\n');
    assert(i == line.len());
    assert(s.take(i) =~= line);
    assert(s.skip(i + 1) =~= rest);
}

proof fn lemma_lines(index: Seq<char>, records: Seq<proto::RecordView>)
    requires
        !index.contains('\n'),
        forall|i: int|
            0 <= i < records.len() ==> !document_line(#[trigger] records[i]).contains('\n'),
    ensures
        text::pieces(bulk_text(index, records), '\n') == bulk_lines(index, records),
    decreases records.len(),
{
    if records.len() > 0 {
        let tail = bulk_text(index, records.skip(1));
        let action = action_line(index);
        let document = document_line(records[0]);
        assert forall|i: int| 0 <= i < records.skip(1).len() implies !document_line(
            #[trigger] records.skip(1)[i],
        ).contains('\n') by {
            assert(records.skip(1)[i] == records[i + 1]);
        }
        lemma_lines(index, records.skip(1));
        reveal_strlit("{\"index\":{\"_index\":\"");
        reveal_strlit("\"}}");
        assert(!action.contains('\n')) by {
            let a = "{\"index\":{\"_index\":\""@;
            let b = "\"}}"@;
            if action.contains('\n') {
                let k = choose|k: int| 0 <= k < action.len() && action[k] == '\n';
                if a.len() <= k < a.len() + index.len() {
                    assert(index.contains(index[k - a.len()]));
                }
            }
        }
        assert(bulk_text(index, records) =~= action + "\n"@ + (document + "\n"@ + tail));
        lemma_first_line(action, document + "\n"@ + tail);
        lemma_first_line(document, tail);
        assert(seq![action] + (seq![document] + text::pieces(tail, '\n')) =~= bulk_lines(
            index,
            records,
        ));
    } else {
        assert(text::pieces(seq![], '\n') =~= seq![seq![]]);
    }
}

/// The body for the records from one position up to, not including, another.
fn bulk_range(index: &str, records: &[proto::LogRecord], from: usize, to: usize) -> (r: String)
    requires
        from <= to <= records@.len(),
        encode::records_fit(proto::records_view(records@)),
    ensures
        r@ == bulk_text(
            index@,
            proto::records_view(records@).subrange(from as int, to as int),
        ),
        !index@.contains('\n') ==> text::pieces(r@, '\n') == bulk_lines(
            index@,
            proto::records_view(records@).subrange(from as int, to as int),
        ),
{
    let ghost all = proto::records_view(records@).subrange(from as int, to as int);
    let action: String = text::join3("{\"index\":{\"_index\":\"", index, "\"}}");
    let mut r: String = String::new();
    let mut i: usize = from;
    assert(all.skip(0) =~= all);
    assert(r@ + bulk_text(index@, all) =~= bulk_text(index@, all));
    while i < to
        invariant
            from <= i <= to <= records@.len(),
            encode::records_fit(proto::records_view(records@)),
            all == proto::records_view(records@).subrange(from as int, to as int),
            action@ == action_line(index@),
            r@ + bulk_text(index@, all.skip(i - from)) == bulk_text(index@, all),
            forall|k: int| 0 <= k < i - from ==> !document_line(#[trigger] all[k]).contains('\n'),
        decreases to - i,
    {
        let ghost before = r@;
        assert(all[i - from] == records@[i as int]@);
        assert(proto::records_view(records@)[i as int] == records@[i as int]@);
        let doc: serde_json::Value = encode::record_to_json(&records[i]);
        let line: String = json::render(&doc);
        r.append(action.as_str());
        r.append("\n");
        r.append(line.as_str());
        r.append("\n");
        i += 1;
        proof {
            let old_tail = all.skip(i - 1 - from);
            assert(old_tail[0] == all[i - 1 - from]);
            assert(old_tail.skip(1) =~= all.skip(i - from));
            assert(r@ + bulk_text(index@, all.skip(i - from)) =~= before + bulk_text(
                index@,
                old_tail,
            ));
        }
    }
    assert(all.skip(i - from) =~= seq![]);
    assert(r@ + seq![] =~= r@);
    proof {
        if !index@.contains('\n') {
            lemma_lines(index@, all);
        }
    }
    r
}

/// The body of a bulk request with all records of a batch. If the name of the
/// index is one line, each document has its own line, and so has the action
/// before it.
pub fn build_bulk_body(index: &str, batch: &LogBatch) -> (r: String)
    requires
        encode::records_fit(proto::records_view(batch.records@)),
    ensures
        r@ == bulk_text(index@, proto::records_view(batch.records@)),
        !index@.contains('\n') ==> text::pieces(r@, '\n') == bulk_lines(
            index@,
            proto::records_view(batch.records@),
        ),
{
    let n: usize = batch.records.len();
    assert(proto::records_view(batch.records@).subrange(0, n as int) =~= proto::records_view(
        batch.records@,
    ));
    bulk_range(index, batch.records.as_slice(), 0, n)
}

/// The bodies of the bulk requests for a batch, each with at most `size`
/// records; with a size of zero there is no limit.
pub open spec fn bulk_texts(
    index: Seq<char>,
    records: Seq<proto::RecordView>,
    size: nat,
) -> Seq<Seq<char>> {
    batching::chunks(records, size).map_values(
        |part: Seq<proto::RecordView>| bulk_text(index, part),
    )
}

/// The bodies of the bulk requests for a batch, each with at most `size`
/// records; with a size of zero there is no limit.
pub fn build_bulk_bodies(index: &str, batch: &LogBatch, size: usize) -> (r: Vec<String>)
    requires
        encode::records_fit(proto::records_view(batch.records@)),
    ensures
        text::all(r@) == bulk_texts(index@, proto::records_view(batch.records@), size as nat),
{
    let n: usize = batch.records.len();
    let ghost all = proto::records_view(batch.records@);
    let mut r: Vec<String> = Vec::new();
    let mut from: usize = 0;
    assert(all.skip(0) =~= all);
    assert(text::all(r@) + bulk_texts(index@, all, size as nat) =~= bulk_texts(
        index@,
        all,
        size as nat,
    ));
    while from < n
        invariant
            from <= n,
            n == batch.records@.len(),
            all == proto::records_view(batch.records@),
            encode::records_fit(all),
            text::all(r@) + bulk_texts(index@, all.skip(from as int), size as nat) == bulk_texts(
                index@,
                all,
                size as nat,
            ),
        decreases n - from,
    {
        let ghost rest = all.skip(from as int);
        let ghost before = text::all(r@);
        let to: usize = if size == 0 || n - from <= size {
            n
        } else {
            from + size
        };
        let body: String = bulk_range(index, batch.records.as_slice(), from, to);
        proof {
            let part = all.subrange(from as int, to as int);
            let parts = batching::chunks(rest, size as nat);
            let next = batching::chunks(all.skip(to as int), size as nat);
            if to == n {
                assert(part =~= rest);
                assert(all.skip(to as int) =~= seq![]);
                assert(parts =~= seq![part] + next);
            } else {
                assert(part =~= rest.take(size as int));
                assert(rest.skip(size as int) =~= all.skip(to as int));
            }
            assert(parts == seq![part] + next);
            assert(bulk_texts(index@, rest, size as nat) =~= seq![bulk_text(index@, part)]
                + bulk_texts(index@, all.skip(to as int), size as nat));
        }
        r.push(body);
        assert(text::all(r@) =~= before.push(body@));
        assert(text::all(r@) + bulk_texts(index@, all.skip(to as int), size as nat) =~= before
            + bulk_texts(index@, rest, size as nat));
        from = to;
    }
    assert(all.skip(from as int) =~= seq![]);
    assert(text::all(r@) + bulk_texts(index@, seq![], size as nat) =~= text::all(r@));
    r
}

// ---------------------------------------------------------------------------
// Requests
// ---------------------------------------------------------------------------

/// The text without the slashes at its end.
pub open spec fn without_slashes(s: Seq<char>) -> Seq<char>
    decreases s.len(),
{
    if s.len() > 0 && s.last() == '/' {
        without_slashes(s.drop_last())
    } else {
        s
    }
}

/// Where the bulk requests for a node go.
pub open spec fn bulk_address(address: Seq<char>) -> Seq<char> {
    without_slashes(address) + "/_bulk"@
}

/// Where the bulk requests for a node go.
pub fn bulk_url(address: &str) -> (r: String)
    ensures
        r@ == bulk_address(address@),
{
    let chars: Vec<char> = text::chars_of(address);
    let mut n: usize = chars.len();
    assert(chars@.take(n as int) =~= chars@);
    while n > 0 && chars[n - 1] == '/'
        invariant
            n <= chars@.len(),
            without_slashes(chars@) == without_slashes(chars@.take(n as int)),
        decreases n,
    {
        n -= 1;
        assert(chars@.take(n + 1).drop_last() =~= chars@.take(n as int));
    }
    let kept: Vec<char> = text::range_of(chars.as_slice(), 0, n);
    assert(kept@ =~= chars@.take(n as int));
    text::join2(text::string_of(kept.as_slice()).as_str(), "/_bulk")
}

/// What the answer to a bulk request means: a status from 200 to 299 is a
/// success, and every other status a rejection. `status` is the status line and
/// `body` what came with it.
pub fn bulk_outcome(code: u16, status: &str, body: &str) -> (r: Result<(), SinkError>)
    ensures
        if 200 <= code <= 299 {
            r is Ok
        } else {
            r matches Err(e) && e@ == sink::SinkFault::Rejected(status@ + ": "@ + body@)
        },
{
    if 200 <= code && code <= 299 {
        Ok(())
    } else {
        Err(SinkError::Rejected(text::join3(status, ": ", body)))
    }
}

/// Which of `n` addresses a request goes to, by the number of requests before it.
pub open spec fn turn(counter: nat, n: nat) -> int {
    counter as int % n as int
}

/// An Elasticsearch or OpenSearch sink: what its requests are made of.
pub struct ElasticSink {
    pub label: String,
    pub addresses: Vec<String>,
    pub index: String,
    pub username: Option<String>,
    pub password: Option<String>,
    pub batch_size: usize,
    pub round_robin: usize,
    pub retry_attempts: u32,
    pub retry_backoff: Duration,
}

impl ElasticSink {
    /// A sink that begins with the first address.
    pub fn new(label: &str, cfg: &ElasticSinkConfig) -> (r: Self)
        ensures
            r.label@ == label@,
            text::all(r.addresses@) == cfg@.addresses,
            r.index@ == cfg@.index,
            text::optional(r.username) == cfg@.username,
            text::optional(r.password) == cfg@.password,
            r.batch_size == cfg.batch_size,
            r.round_robin == 0,
            r.retry_attempts == cfg.retry_attempts,
            duration::duration_nanos(r.retry_backoff) == cfg@.retry_backoff,
    {
        ElasticSink {
            label: label.to_owned(),
            addresses: text::copy_all(cfg.addresses.as_slice()),
            index: cfg.index.clone(),
            username: text::copy_optional(&cfg.username),
            password: text::copy_optional(&cfg.password),
            batch_size: cfg.batch_size,
            round_robin: 0,
            retry_attempts: cfg.retry_attempts,
            retry_backoff: cfg.retry_backoff,
        }
    }

    /// The address for the next request: the addresses are taken in turn.
    pub fn next_address(&mut self) -> (r: String)
        requires
            old(self).addresses@.len() > 0,
        ensures
            r@ == old(self).addresses@[turn(
                old(self).round_robin as nat,
                old(self).addresses@.len(),
            )]@,
            *final(self) == (ElasticSink {
                round_robin: if old(self).round_robin == usize::MAX {
                    0
                } else {
                    (old(self).round_robin + 1) as usize
                },
                ..*old(self)
            }),
    {
        let i: usize = self.round_robin % self.addresses.len();
        self.round_robin = self.round_robin.wrapping_add(1);
        self.addresses[i].clone()
    }

    /// The user name and the password to send, if both are set.
    pub fn credential(&self) -> (r: Option<(String, String)>)
        ensures
            match (text::optional(self.username), text::optional(self.password)) {
                (Some(u), Some(p)) => r matches Some(c) && c.0@ == u && c.1@ == p,
                _ => r is None,
            },
    {
        match (&self.username, &self.password) {
            (Some(u), Some(p)) => Some((u.clone(), p.clone())),
            _ => None,
        }
    }
}

/// Of `n` requests in a row exactly one goes to each of `n` addresses, as long as
/// the counter does not start over.
pub proof fn law_addresses_take_turns(counter: nat, n: nat, address: nat)
    requires
        address < n,
        counter + n <= usize::MAX,
    ensures
        exists|i: nat| i < n && #[trigger] turn(counter + i, n) == address,
        forall|i: nat, j: nat|
            i < n && j < n && #[trigger] turn(counter + i, n) == #[trigger] turn(counter + j, n)
                ==> i == j,
{
    let first = turn(counter, n);
    let i = if first <= address {
        (address - first) as nat
    } else {
        (address - first + n) as nat
    };
    lemma_fundamental_div_mod(counter as int, n as int);
    let q = counter as int / n as int;
    if first <= address {
        assert(counter + i == q * n + address) by (nonlinear_arith)
            requires
                counter == n * q + first,
                i == address - first,
        ;
        lemma_fundamental_div_mod_converse((counter + i) as int, n as int, q, address as int);
    } else {
        assert(counter + i == (q + 1) * n + address) by (nonlinear_arith)
            requires
                counter == n * q + first,
                i == address - first + n,
        ;
        lemma_fundamental_div_mod_converse((counter + i) as int, n as int, q + 1, address as int);
    }
    assert(turn(counter + i, n) == address);
    assert forall|i: nat, j: nat|
        i < n && j < n && #[trigger] turn(counter + i, n) == #[trigger] turn(
            counter + j,
            n,
        ) implies i == j by {
        lemma_same_turn((counter + i) as int, (counter + j) as int, n as int);
    }
}

proof fn lemma_same_turn(a: int, b: int, n: int)
    requires
        n > 0,
        -n < b - a < n,
        a % n == b % n,
    ensures
        a == b,
{
    lemma_fundamental_div_mod(a, n);
    lemma_fundamental_div_mod(b, n);
    let k = b / n - a / n;
    assert(b - a == n * k) by (nonlinear_arith)
        requires
            a == n * (a / n) + a % n,
            b == n * (b / n) + b % n,
            a % n == b % n,
            k == b / n - a / n,
    ;
    assert(k == 0) by (nonlinear_arith)
        requires
            n > 0,
            -n < n * k < n,
    ;
}

// ---------------------------------------------------------------------------
// Deliveries
// ---------------------------------------------------------------------------

/// The delivery of a batch: one bulk request after the other, each with its own
/// tries.
pub struct BulkSend {
    bodies: Vec<String>,
    at: usize,
    retry_attempts: u32,
    retry_backoff: Duration,
    delivery: Delivery,
}

impl BulkSend {
    /// The bodies of all requests.
    pub closed spec fn bodies(&self) -> Seq<Seq<char>> {
        text::all(self.bodies@)
    }

    /// How many requests have succeeded.
    pub closed spec fn finished(&self) -> nat {
        self.at as nat
    }

    /// How many tries of the present request have failed.
    pub closed spec fn failures(&self) -> nat {
        self.delivery.failures()
    }

    /// How many retries each request has.
    pub closed spec fn retries(&self) -> u32 {
        self.retry_attempts
    }

    /// The pause before the first retry, in nanoseconds.
    pub closed spec fn base(&self) -> nat {
        duration::duration_nanos(self.retry_backoff)
    }

    /// There is a request left, and a try for it.
    pub closed spec fn wf(&self) -> bool {
        &&& self.at < self.bodies@.len()
        &&& self.delivery.wf()
        &&& self.delivery.retries() == self.retry_attempts
        &&& self.delivery.base() == self.base()
    }

    /// Begins the delivery of a batch; an empty one is delivered at once.
    pub fn begin(sink: &ElasticSink, batch: &LogBatch) -> (r: (Self, Action))
        requires
            encode::records_fit(proto::records_view(batch.records@)),
        ensures
            r.0.bodies() == bulk_texts(
                sink.index@,
                proto::records_view(batch.records@),
                sink.batch_size as nat,
            ),
            r.0.finished() == 0,
            r.0.failures() == 0,
            r.0.retries() == sink.retry_attempts,
            r.0.base() == duration::duration_nanos(sink.retry_backoff),
            if batch.records@.len() == 0 {
                r.1 is Done
            } else {
                r.1 is Try && r.0.wf()
            },
    {
        let bodies: Vec<String> = build_bulk_bodies(sink.index.as_str(), batch, sink.batch_size);
        let (delivery, action) = Delivery::begin(
            batch.records.len(),
            sink.retry_attempts,
            sink.retry_backoff,
        );
        let send: BulkSend = BulkSend {
            bodies,
            at: 0,
            retry_attempts: sink.retry_attempts,
            retry_backoff: sink.retry_backoff,
            delivery,
        };
        assert(text::all(bodies@).len() == bodies@.len());
        (send, action)
    }

    /// The body of the present request.
    pub fn body(&self) -> (r: String)
        requires
            self.wf(),
        ensures
            self.finished() < self.bodies().len(),
            r@ == self.bodies()[self.finished() as int],
    {
        self.bodies[self.at].clone()
    }

    /// Takes the outcome of a try. After a success the next request is due, and
    /// after the last one the batch is delivered. A failed request is repeated;
    /// once its tries are used up the delivery ends with its last error.
    pub fn report(&mut self, outcome: Result<(), SinkError>) -> (r: Action)
        requires
            old(self).wf(),
        ensures
            final(self).bodies() == old(self).bodies(),
            final(self).retries() == old(self).retries(),
            final(self).base() == old(self).base(),
            match outcome {
                Ok(_) => {
                    &&& final(self).finished() == old(self).finished() + 1
                    &&& if final(self).finished() < old(self).bodies().len() {
                        r is Try && final(self).wf() && final(self).failures() == 0
                    } else {
                        r is Done
                    }
                },
                Err(e) => {
                    &&& final(self).finished() == old(self).finished()
                    &&& if old(self).failures() < old(self).retries() {
                        let next = old(self).failures() + 1;
                        let nanos = retry::pause(old(self).base(), next);
                        &&& final(self).wf()
                        &&& final(self).failures() == next
                        &&& if nanos <= duration::max_nanos() {
                            r matches Action::Retry { attempt, delay } && attempt == next
                                && duration::duration_nanos(delay) == nanos
                        } else {
                            r is PauseTooLong
                        }
                    } else {
                        r == Action::Failed(e)
                    }
                },
            },
    {
        let good: bool = outcome.is_ok();
        let action: Action = self.delivery.report(outcome);
        if !good {
            return action;
        }
        let requests: usize = self.bodies.len();
        self.at += 1;
        if self.at < requests {
            let (delivery, _) = Delivery::begin(1, self.retry_attempts, self.retry_backoff);
            self.delivery = delivery;
            return Action::Try;
        }
        Action::Done
    }
}

} // verus!
