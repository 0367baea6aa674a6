//! Counters and gauges of the agent, and their Prometheus text.

use vstd::prelude::*;
use vstd::seq_lib::*;
use vstd::utf8;

use crate::number;
use crate::text;

verus! {

// ---------------------------------------------------------------------------
// Values
// ---------------------------------------------------------------------------

/// `a + b`, starting over at zero behind the largest `u64`.
pub open spec fn wrapped(a: u64, b: u64) -> u64 {
    ((a + b) % 0x1_0000_0000_0000_0000) as u64
}

/// A number that only goes up.
#[derive(Debug, PartialEq, Eq, Structural)]
pub struct Counter {
    pub count: u64,
}

impl Counter {
    /// A counter that stands at zero.
    pub fn new() -> (r: Self)
        ensures
            r.count == 0,
    {
        Counter { count: 0 }
    }

    /// Counts `n` more.
    pub fn inc_by(&mut self, n: u64)
        ensures
            final(self).count == wrapped(old(self).count, n),
    {
        self.count = self.count.wrapping_add(n);
    }

    /// Counts one more.
    pub fn inc(&mut self)
        ensures
            final(self).count == wrapped(old(self).count, 1),
    {
        self.inc_by(1);
    }

    /// What has been counted.
    pub fn get(&self) -> (n: u64)
        ensures
            n == self.count,
    {
        self.count
    }
}

/// The next `i64`; behind the largest comes the smallest.
pub open spec fn up(n: i64) -> i64 {
    if n == i64::MAX {
        i64::MIN
    } else {
        (n + 1) as i64
    }
}

/// The `i64` before; before the smallest comes the largest.
pub open spec fn down(n: i64) -> i64 {
    if n == i64::MIN {
        i64::MAX
    } else {
        (n - 1) as i64
    }
}

/// A number that goes up and down.
#[derive(Debug, PartialEq, Eq, Structural)]
pub struct Gauge {
    pub level: i64,
}

impl Gauge {
    /// A gauge that stands at zero.
    pub fn new() -> (r: Self)
        ensures
            r.level == 0,
    {
        Gauge { level: 0 }
    }

    /// Sets the level.
    pub fn set(&mut self, n: i64)
        ensures
            final(self).level == n,
    {
        self.level = n;
    }

    /// One more.
    pub fn inc(&mut self)
        ensures
            final(self).level == up(old(self).level),
    {
        self.level = if self.level == i64::MAX {
            i64::MIN
        } else {
            self.level + 1
        };
    }

    /// One less.
    pub fn dec(&mut self)
        ensures
            final(self).level == down(old(self).level),
    {
        self.level = if self.level == i64::MIN {
            i64::MAX
        } else {
            self.level - 1
        };
    }

    /// The level.
    pub fn get(&self) -> (n: i64)
        ensures
            n == self.level,
    {
        self.level
    }
}

/// A counter for each sink, in the order in which the sinks were first counted.
#[derive(Debug)]
pub struct SinkCounters {
    pub entries: Vec<(String, u64)>,
}

impl View for SinkCounters {
    type V = Seq<(Seq<char>, u64)>;

    open spec fn view(&self) -> Seq<(Seq<char>, u64)> {
        self.entries@.map_values(|e: (String, u64)| (e.0@, e.1))
    }
}

/// What has been counted for a sink; a sink that is not listed stands at zero.
pub open spec fn count_for(s: Seq<(Seq<char>, u64)>, sink: Seq<char>) -> u64
    decreases s.len(),
{
    if s.len() == 0 {
        0
    } else if s[0].0 == sink {
        s[0].1
    } else {
        count_for(s.skip(1), sink)
    }
}

/// The list after `n` more have been counted for a sink.
pub open spec fn counted(s: Seq<(Seq<char>, u64)>, sink: Seq<char>, n: u64) -> Seq<
    (Seq<char>, u64),
>
    decreases s.len(),
{
    if s.len() == 0 {
        seq![(sink, n)]
    } else if s[0].0 == sink {
        seq![(sink, wrapped(s[0].1, n))] + s.skip(1)
    } else {
        seq![s[0]] + counted(s.skip(1), sink, n)
    }
}

/// Counting for a sink raises its counter and leaves those of all others.
pub proof fn law_sinks_are_counted_apart(
    s: Seq<(Seq<char>, u64)>,
    sink: Seq<char>,
    n: u64,
    other: Seq<char>,
)
    ensures
        count_for(counted(s, sink, n), sink) == wrapped(count_for(s, sink), n),
        other != sink ==> count_for(counted(s, sink, n), other) == count_for(s, other),
    decreases s.len(),
{
    let t = counted(s, sink, n);
    if s.len() == 0 {
        assert(t.skip(1) =~= seq![]);
        assert(count_for(t.skip(1), other) == 0);
    } else {
        law_sinks_are_counted_apart(s.skip(1), sink, n, other);
        if s[0].0 == sink {
            assert(t.skip(1) =~= s.skip(1));
        } else {
            assert(t.skip(1) =~= counted(s.skip(1), sink, n));
        }
    }
}

impl SinkCounters {
    /// No sink has been counted yet.
    pub fn new() -> (r: Self)
        ensures
            r@ == Seq::<(Seq<char>, u64)>::empty(),
    {
        let r: SinkCounters = SinkCounters { entries: Vec::new() };
        assert(r@ =~= Seq::empty());
        r
    }

    fn position(&self, sink: &str) -> (r: Option<usize>)
        ensures
            match r {
                Some(i) => {
                    &&& i < self@.len()
                    &&& self@[i as int].0 == sink@
                    &&& forall|k: int| 0 <= k < i ==> (#[trigger] self@[k]).0 != sink@
                },
                None => forall|k: int| 0 <= k < self@.len() ==> (#[trigger] self@[k]).0 != sink@,
            },
    {
        let mut i: usize = 0;
        while i < self.entries.len()
            invariant
                i <= self.entries@.len(),
                forall|k: int| 0 <= k < i ==> (#[trigger] self@[k]).0 != sink@,
            decreases self.entries@.len() - i,
        {
            assert(self@[i as int].0 == self.entries@[i as int].0@);
            if text::same(self.entries[i].0.as_str(), sink) {
                return Some(i);
            }
            i += 1;
        }
        None
    }

    /// Counts `n` more for a sink.
    pub fn inc_by(&mut self, sink: &str, n: u64)
        ensures
            final(self)@ == counted(old(self)@, sink@, n),
    {
        match self.position(sink) {
            Some(i) => {
                proof {
                    lemma_counted_at(self@, sink@, n, i as int);
                }
                let count: u64 = self.entries[i].1.wrapping_add(n);
                self.entries.set(i, (sink.to_owned(), count));
                assert(self@ =~= old(self)@.update(
                    i as int,
                    (sink@, wrapped(old(self)@[i as int].1, n)),
                ));
            },
            None => {
                proof {
                    lemma_counted_new(self@, sink@, n);
                }
                self.entries.push((sink.to_owned(), n));
                assert(self@ =~= old(self)@.push((sink@, n)));
            },
        }
    }

    /// What has been counted for a sink.
    pub fn get(&self, sink: &str) -> (n: u64)
        ensures
            n == count_for(self@, sink@),
    {
        match self.position(sink) {
            Some(i) => {
                proof {
                    lemma_counted_at(self@, sink@, 0, i as int);
                }
                self.entries[i].1
            },
            None => {
                proof {
                    lemma_counted_new(self@, sink@, 0);
                }
                0
            },
        }
    }
}

proof fn lemma_counted_at(s: Seq<(Seq<char>, u64)>, sink: Seq<char>, n: u64, i: int)
    requires
        0 <= i < s.len(),
        s[i].0 == sink,
        forall|k: int| 0 <= k < i ==> (#[trigger] s[k]).0 != sink,
    ensures
        counted(s, sink, n) == s.update(i, (sink, wrapped(s[i].1, n))),
        count_for(s, sink) == s[i].1,
    decreases s.len(),
{
    if i > 0 {
        assert forall|k: int| 0 <= k < i - 1 implies (#[trigger] s.skip(1)[k]).0 != sink by {
            assert(s.skip(1)[k] == s[k + 1]);
        }
        lemma_counted_at(s.skip(1), sink, n, i - 1);
    }
    assert(counted(s, sink, n) =~= s.update(i, (sink, wrapped(s[i].1, n))));
}

proof fn lemma_counted_new(s: Seq<(Seq<char>, u64)>, sink: Seq<char>, n: u64)
    requires
        forall|k: int| 0 <= k < s.len() ==> (#[trigger] s[k]).0 != sink,
    ensures
        counted(s, sink, n) == s.push((sink, n)),
        count_for(s, sink) == 0,
    decreases s.len(),
{
    if s.len() > 0 {
        assert forall|k: int| 0 <= k < s.skip(1).len() implies (#[trigger] s.skip(1)[k]).0
            != sink by {
            assert(s.skip(1)[k] == s[k + 1]);
        }
        lemma_counted_new(s.skip(1), sink, n);
    }
    assert(counted(s, sink, n) =~= s.push((sink, n)));
}

// ---------------------------------------------------------------------------
// Texts
// ---------------------------------------------------------------------------

/// Whether a character may stand in the name of a metric or of a label; a digit
/// may not stand first.
pub open spec fn is_name_char(c: char) -> bool {
    'a' <= c <= 'z' || 'A' <= c <= 'Z' || c == '_' || number::is_digit(c)
}

/// Whether a text may be the name of a metric or of a label.
pub open spec fn is_name(s: Seq<char>) -> bool {
    &&& s.len() > 0
    &&& !number::is_digit(s[0])
    &&& forall|i: int| 0 <= i < s.len() ==> is_name_char(#[trigger] s[i])
}

/// Whether a text may describe a metric and stands in its text as it is.
pub open spec fn is_help(s: Seq<char>) -> bool {
    &&& s.len() > 0
    &&& forall|i: int| 0 <= i < s.len() ==> #[trigger] s[i] != '\\' && s[i] != '\n'
}

/// The text of the floating-point number that is nearest to an integer, as its
/// `Display` writes it.
pub uninterp spec fn sample_text(n: int) -> Seq<char>;

/// The text of the value of a metric: the value itself up to two to the power of
/// 53 on either side of zero, and beyond that the nearest floating-point number.
pub open spec fn value_text(n: int) -> Seq<char> {
    if -9_007_199_254_740_992 <= n <= 9_007_199_254_740_992 {
        number::signed_decimal(n)
    } else {
        sample_text(n)
    }
}

/// The text of a metric with a single value: its description, its type and its
/// value, each on a line of its own.
pub open spec fn family(
    name: Seq<char>,
    help: Seq<char>,
    kind: Seq<char>,
    value: Seq<char>,
) -> Seq<char> {
    "# HELP "@ + name + " "@ + help + "\n# TYPE "@ + name + " "@ + kind + "\n"@ + name + " "@
        + value + "\n"@
}

/// The 64-bit FNV-1a hash of a row of bytes.
pub open spec fn fnv(bytes: Seq<u8>) -> u64
    decreases bytes.len(),
{
    if bytes.len() == 0 {
        0xcbf2_9ce4_8422_2325
    } else {
        let h = fnv(bytes.drop_last()) ^ (bytes.last() as u64);
        (h * 0x100_0000_01b3 % 0x1_0000_0000_0000_0000) as u64
    }
}

/// Whether two values of a label share a counter: they do if their UTF-8 has the
/// same hash.
pub open spec fn share(a: Seq<char>, b: Seq<char>) -> bool {
    fnv(utf8::encode_utf8(a)) == fnv(utf8::encode_utf8(b))
}

/// The list after `n` more have been counted for a value of a label. The first of
/// the values that share a counter gives it its name.
pub open spec fn shared_count(s: Seq<(Seq<char>, u64)>, value: Seq<char>, n: u64) -> Seq<
    (Seq<char>, u64),
>
    decreases s.len(),
{
    if s.len() == 0 {
        seq![(value, n)]
    } else if share(s[0].0, value) {
        seq![(s[0].0, wrapped(s[0].1, n))] + s.skip(1)
    } else {
        seq![s[0]] + shared_count(s.skip(1), value, n)
    }
}

/// The counters of a row of values of a label, each with its count.
pub open spec fn merged(samples: Seq<(Seq<char>, u64)>) -> Seq<(Seq<char>, u64)>
    decreases samples.len(),
{
    if samples.len() == 0 {
        seq![]
    } else {
        shared_count(merged(samples.drop_last()), samples.last().0, samples.last().1)
    }
}

/// A row in the order of its names, with one more entry in its place.
pub open spec fn placed(s: Seq<(Seq<char>, u64)>, e: (Seq<char>, u64)) -> Seq<(Seq<char>, u64)>
    decreases s.len(),
{
    if s.len() == 0 || text::before(e.0, s[0].0) {
        seq![e] + s
    } else {
        seq![s[0]] + placed(s.skip(1), e)
    }
}

/// A row in the order of its names.
pub open spec fn ordered(s: Seq<(Seq<char>, u64)>) -> Seq<(Seq<char>, u64)>
    decreases s.len(),
{
    if s.len() == 0 {
        seq![]
    } else {
        placed(ordered(s.drop_last()), s.last())
    }
}

/// A value of a label with a backslash before each backslash and quotation mark,
/// and with `\n` for each line end.
pub open spec fn escaped(s: Seq<char>) -> Seq<char>
    decreases s.len(),
{
    if s.len() == 0 {
        seq![]
    } else {
        let c = s.last();
        escaped(s.drop_last()) + if c == '\\' || c == '"' {
            seq!['\\', c]
        } else if c == '\n' {
            seq!['\\', 'n']
        } else {
            seq![c]
        }
    }
}

/// The lines of a row of counters with one label.
pub open spec fn sample_lines(
    name: Seq<char>,
    label: Seq<char>,
    samples: Seq<(Seq<char>, u64)>,
) -> Seq<char>
    decreases samples.len(),
{
    if samples.len() == 0 {
        seq![]
    } else {
        let e = samples.last();
        sample_lines(name, label, samples.drop_last()) + name + "{"@ + label + "=\""@ + escaped(
            e.0,
        ) + "\"} "@ + value_text(e.1 as int) + "\n"@
    }
}

/// The text of a counter with one label: its description, its type, and a line for
/// each counter, in the order of the values of the label. Where nothing has been
/// counted there is no text.
pub open spec fn labelled_family(
    name: Seq<char>,
    help: Seq<char>,
    label: Seq<char>,
    samples: Seq<(Seq<char>, u64)>,
) -> Seq<char> {
    if samples.len() == 0 {
        seq![]
    } else {
        "# HELP "@ + name + " "@ + help + "\n# TYPE "@ + name + " counter\n"@ + sample_lines(
            name,
            label,
            ordered(merged(samples)),
        )
    }
}

/// Whether the names of a row are in order, and so all different.
pub open spec fn is_ordered(s: Seq<(Seq<char>, u64)>) -> bool {
    forall|i: int, j: int|
        0 <= i < j < s.len() ==> text::before(#[trigger] s[i].0, #[trigger] s[j].0)
}

/// Where no two sinks share a counter, each has a line with its own count, and the
/// lines are in the order of the sinks' names.
pub proof fn law_each_sink_has_its_line(samples: Seq<(Seq<char>, u64)>)
    requires
        forall|i: int, j: int|
            0 <= i < j < samples.len() ==> !share(#[trigger] samples[i].0, #[trigger] samples[j].0),
    ensures
        merged(samples) == samples,
        is_ordered(ordered(merged(samples))),
        ordered(merged(samples)).to_multiset() == samples.to_multiset(),
    decreases samples.len(),
{
    if samples.len() == 0 {
        assert(merged(samples) =~= samples);
    } else {
        let rest = samples.drop_last();
        let e = samples.last();
        assert forall|i: int, j: int| 0 <= i < j < rest.len() implies !share(
            #[trigger] rest[i].0,
            #[trigger] rest[j].0,
        ) by {
            assert(rest[i] == samples[i] && rest[j] == samples[j]);
        }
        law_each_sink_has_its_line(rest);
        assert forall|i: int| 0 <= i < rest.len() implies !share(#[trigger] rest[i].0, e.0) by {
            assert(rest[i] == samples[i] && e == samples[samples.len() - 1]);
        }
        lemma_unshared_count(rest, e.0, e.1);
        assert(rest.push(e) =~= samples);
        assert(merged(samples) == samples);
        let sorted = ordered(rest);
        assert forall|i: int| 0 <= i < sorted.len() implies (#[trigger] sorted[i]).0 != e.0 by {
            broadcast use group_to_multiset_ensures;

            assert(sorted.to_multiset().contains(sorted[i]));
            assert(rest.contains(sorted[i]));
            let k = choose|k: int| 0 <= k < rest.len() && rest[k] == sorted[i];
            assert(!share(rest[k].0, e.0));
        }
        lemma_placed(sorted, e);
        broadcast use group_to_multiset_ensures;

        assert(samples.to_multiset() =~= rest.to_multiset().insert(e));
    }
}

proof fn lemma_unshared_count(s: Seq<(Seq<char>, u64)>, value: Seq<char>, n: u64)
    requires
        forall|i: int| 0 <= i < s.len() ==> !share(#[trigger] s[i].0, value),
    ensures
        shared_count(s, value, n) == s.push((value, n)),
    decreases s.len(),
{
    if s.len() > 0 {
        assert forall|i: int| 0 <= i < s.skip(1).len() implies !share(
            #[trigger] s.skip(1)[i].0,
            value,
        ) by {
            assert(s.skip(1)[i] == s[i + 1]);
        }
        lemma_unshared_count(s.skip(1), value, n);
    }
    assert(shared_count(s, value, n) =~= s.push((value, n)));
}

proof fn lemma_placed(s: Seq<(Seq<char>, u64)>, e: (Seq<char>, u64))
    requires
        is_ordered(s),
        forall|i: int| 0 <= i < s.len() ==> (#[trigger] s[i]).0 != e.0,
    ensures
        is_ordered(placed(s, e)),
        placed(s, e).to_multiset() == s.to_multiset().insert(e),
        forall|i: int|
            0 <= i < placed(s, e).len() ==> #[trigger] placed(s, e)[i] == e || s.contains(
                placed(s, e)[i],
            ),
    decreases s.len(),
{
    broadcast use group_to_multiset_ensures;

    let p = placed(s, e);
    if s.len() == 0 || text::before(e.0, s[0].0) {
        assert(p =~= s.insert(0, e));
        assert forall|i: int, j: int| 0 <= i < j < p.len() implies text::before(
            #[trigger] p[i].0,
            #[trigger] p[j].0,
        ) by {
            if i == 0 {
                if j > 1 {
                    assert(text::before(s[0].0, s[j - 1].0));
                    text::lemma_before_transitive(e.0, s[0].0, s[j - 1].0);
                }
            } else {
                assert(text::before(s[i - 1].0, s[j - 1].0));
            }
        }
        assert forall|i: int| 0 <= i < p.len() implies #[trigger] p[i] == e || s.contains(p[i]) by {
            if i > 0 {
                assert(p[i] == s[i - 1]);
            }
        }
        assert(p.to_multiset() =~= s.to_multiset().insert(e));
    } else {
        let rest = s.skip(1);
        text::lemma_before_total(e.0, s[0].0);
        assert forall|i: int, j: int| 0 <= i < j < rest.len() implies text::before(
            #[trigger] rest[i].0,
            #[trigger] rest[j].0,
        ) by {
            assert(rest[i] == s[i + 1] && rest[j] == s[j + 1]);
        }
        assert forall|i: int| 0 <= i < rest.len() implies (#[trigger] rest[i]).0 != e.0 by {
            assert(rest[i] == s[i + 1]);
        }
        lemma_placed(rest, e);
        let q = placed(rest, e);
        assert(p =~= q.insert(0, s[0]));
        assert(s =~= rest.insert(0, s[0]));
        assert forall|i: int| 0 <= i < q.len() implies text::before(s[0].0, #[trigger] q[i].0)
            && (q[i] == e || s.contains(q[i])) by {
            if q[i] != e {
                let k = choose|k: int| 0 <= k < rest.len() && rest[k] == q[i];
                assert(s[k + 1] == q[i]);
            }
        }
        assert forall|i: int, j: int| 0 <= i < j < p.len() implies text::before(
            #[trigger] p[i].0,
            #[trigger] p[j].0,
        ) by {
            assert(p[j] == q[j - 1]);
            if i > 0 {
                assert(p[i] == q[i - 1]);
            }
        }
        assert forall|i: int| 0 <= i < p.len() implies #[trigger] p[i] == e || s.contains(p[i]) by {
            if i > 0 {
                assert(p[i] == q[i - 1]);
            }
        }
        assert(p.to_multiset() =~= s.to_multiset().insert(e));
    }
}

/// An `IntCounter` of that value, alone in a `Registry`, as `gather` and
/// `TextEncoder` of `prometheus` write it. The value is written as the nearest
/// floating-point number, which is the value itself up to two to the power of 53.
#[verifier::external_body]
pub(crate) fn counter_text(name: &str, help: &str, value: u64) -> (r: String)
    requires
        is_name(name@),
        is_help(help@),
    ensures
        r@ == family(name@, help@, "counter"@, sample_text(value as int)),
        value <= 9_007_199_254_740_992 ==> r@ == family(
            name@,
            help@,
            "counter"@,
            number::decimal(value as nat),
        ),
{
    let counter = prometheus::IntCounter::new(name, help).unwrap();
    counter.inc_by(value);
    let registry = prometheus::Registry::new();
    registry.register(Box::new(counter)).unwrap();
    prometheus::TextEncoder::new().encode_to_string(&registry.gather()).unwrap()
}

/// An `IntGauge` of that value, alone in a `Registry`, as `gather` and
/// `TextEncoder` of `prometheus` write it. The value is written as the nearest
/// floating-point number, which is the value itself up to two to the power of 53
/// on either side of zero.
#[verifier::external_body]
pub(crate) fn gauge_text(name: &str, help: &str, value: i64) -> (r: String)
    requires
        is_name(name@),
        is_help(help@),
    ensures
        r@ == family(name@, help@, "gauge"@, sample_text(value as int)),
        -9_007_199_254_740_992 <= value <= 9_007_199_254_740_992 ==> r@ == family(
            name@,
            help@,
            "gauge"@,
            number::signed_decimal(value as int),
        ),
{
    let gauge = prometheus::IntGauge::new(name, help).unwrap();
    gauge.set(value);
    let registry = prometheus::Registry::new();
    registry.register(Box::new(gauge)).unwrap();
    prometheus::TextEncoder::new().encode_to_string(&registry.gather()).unwrap()
}

/// An `IntCounterVec` with one label, with those values of the label, alone in a
/// `Registry`, as `gather` and `TextEncoder` of `prometheus` write it.
/// `with_label_values` finds the counter of a value by the FNV-1a hash of its
/// UTF-8, `gather` leaves out a metric without counters and orders those of a
/// metric by the value of their label, and the values are escaped. A count is
/// written like that of a counter without labels.
#[verifier::external_body]
pub(crate) fn labelled_text(
    name: &str,
    help: &str,
    label: &str,
    samples: &Vec<(String, u64)>,
) -> (r: String)
    requires
        is_name(name@),
        is_help(help@),
        is_name(label@),
    ensures
        r@ == labelled_family(
            name@,
            help@,
            label@,
            samples@.map_values(|e: (String, u64)| (e.0@, e.1)),
        ),
{
    let opts = prometheus::Opts::new(name, help);
    let counters = prometheus::IntCounterVec::new(opts, &[label]).unwrap();
    for (value, count) in samples {
        counters.with_label_values(&[value.as_str()]).inc_by(*count);
    }
    let registry = prometheus::Registry::new();
    registry.register(Box::new(counters)).unwrap();
    prometheus::TextEncoder::new().encode_to_string(&registry.gather()).unwrap()
}

// ---------------------------------------------------------------------------
// All metrics
// ---------------------------------------------------------------------------

/// The counters and gauges of the agent.
#[derive(Debug)]
pub struct Metrics {
    /// Log records received.
    pub records_received: Counter,
    /// Batches received.
    pub batches_received: Counter,
    /// Records that were neither queued nor spilled.
    pub records_dropped: Counter,
    /// Batches in the queue of the pipeline.
    pub pipeline_buffer_used: Gauge,
    /// Deliveries from the pipeline to the sinks.
    pub pipeline_flushes: Counter,
    /// Records delivered, by sink.
    pub sink_records_sent: SinkCounters,
    /// Failed deliveries, by sink.
    pub sink_errors: SinkCounters,
    /// Repeated attempts, by sink.
    pub sink_retries: SinkCounters,
    /// Open streams.
    pub active_streams: Gauge,
    /// Errors while receiving.
    pub grpc_errors: Counter,
}

/// What `Metrics` holds.
pub ghost struct MetricsView {
    pub records_received: u64,
    pub batches_received: u64,
    pub records_dropped: u64,
    pub pipeline_buffer_used: i64,
    pub pipeline_flushes: u64,
    pub sink_records_sent: Seq<(Seq<char>, u64)>,
    pub sink_errors: Seq<(Seq<char>, u64)>,
    pub sink_retries: Seq<(Seq<char>, u64)>,
    pub active_streams: i64,
    pub grpc_errors: u64,
}

impl View for Metrics {
    type V = MetricsView;

    open spec fn view(&self) -> MetricsView {
        MetricsView {
            records_received: self.records_received.count,
            batches_received: self.batches_received.count,
            records_dropped: self.records_dropped.count,
            pipeline_buffer_used: self.pipeline_buffer_used.level,
            pipeline_flushes: self.pipeline_flushes.count,
            sink_records_sent: self.sink_records_sent@,
            sink_errors: self.sink_errors@,
            sink_retries: self.sink_retries@,
            active_streams: self.active_streams.level,
            grpc_errors: self.grpc_errors.count,
        }
    }
}

/// Nothing has been counted yet.
pub open spec fn no_metrics() -> MetricsView {
    MetricsView {
        records_received: 0,
        batches_received: 0,
        records_dropped: 0,
        pipeline_buffer_used: 0,
        pipeline_flushes: 0,
        sink_records_sent: seq![],
        sink_errors: seq![],
        sink_retries: seq![],
        active_streams: 0,
        grpc_errors: 0,
    }
}

/// One of the metrics.
pub ghost enum Metric {
    ActiveStreams,
    BatchesReceived,
    GrpcErrors,
    PipelineBufferUsed,
    PipelineFlushes,
    RecordsDropped,
    RecordsReceived,
    SinkErrors,
    SinkRecordsSent,
    SinkRetries,
}

/// The name under which a metric is published.
pub open spec fn name_of(k: Metric) -> Seq<char> {
    match k {
        Metric::ActiveStreams => "watchtower_active_streams"@,
        Metric::BatchesReceived => "watchtower_batches_received_total"@,
        Metric::GrpcErrors => "watchtower_grpc_errors_total"@,
        Metric::PipelineBufferUsed => "watchtower_pipeline_buffer_used"@,
        Metric::PipelineFlushes => "watchtower_pipeline_flushes_total"@,
        Metric::RecordsDropped => "watchtower_records_dropped_total"@,
        Metric::RecordsReceived => "watchtower_records_received_total"@,
        Metric::SinkErrors => "watchtower_sink_errors_total"@,
        Metric::SinkRecordsSent => "watchtower_sink_records_sent_total"@,
        Metric::SinkRetries => "watchtower_sink_retries_total"@,
    }
}

/// The description of a metric.
pub open spec fn help_of(k: Metric) -> Seq<char> {
    match k {
        Metric::ActiveStreams => "Active gRPC streaming connections"@,
        Metric::BatchesReceived => "Total batches received via gRPC"@,
        Metric::GrpcErrors => "gRPC-level errors"@,
        Metric::PipelineBufferUsed => "Current pipeline buffer occupancy"@,
        Metric::PipelineFlushes => "Total pipeline flushes to sinks"@,
        Metric::RecordsDropped => "Records dropped due to backpressure"@,
        Metric::RecordsReceived => "Total log records received via gRPC"@,
        Metric::SinkErrors => "Delivery errors per sink"@,
        Metric::SinkRecordsSent => "Records sent per sink"@,
        Metric::SinkRetries => "Retry attempts per sink"@,
    }
}

/// Whether a metric goes up and down.
pub open spec fn is_gauge(k: Metric) -> bool {
    k is ActiveStreams || k is PipelineBufferUsed
}

/// Whether a metric counts for each sink.
pub open spec fn is_by_sink(k: Metric) -> bool {
    k is SinkErrors || k is SinkRecordsSent || k is SinkRetries
}

/// The value of a metric that has one for all sinks.
pub open spec fn number_of(m: MetricsView, k: Metric) -> int {
    match k {
        Metric::ActiveStreams => m.active_streams as int,
        Metric::PipelineBufferUsed => m.pipeline_buffer_used as int,
        Metric::BatchesReceived => m.batches_received as int,
        Metric::GrpcErrors => m.grpc_errors as int,
        Metric::PipelineFlushes => m.pipeline_flushes as int,
        Metric::RecordsDropped => m.records_dropped as int,
        Metric::RecordsReceived => m.records_received as int,
        _ => 0,
    }
}

/// What a metric has counted for each sink.
pub open spec fn samples_of(m: MetricsView, k: Metric) -> Seq<(Seq<char>, u64)> {
    match k {
        Metric::SinkErrors => m.sink_errors,
        Metric::SinkRecordsSent => m.sink_records_sent,
        Metric::SinkRetries => m.sink_retries,
        _ => seq![],
    }
}

/// What is published under the name of a metric.
pub open spec fn text_of(m: MetricsView, k: Metric) -> Seq<char> {
    if is_by_sink(k) {
        labelled_family(name_of(k), help_of(k), "sink"@, samples_of(m, k))
    } else if is_gauge(k) {
        family(name_of(k), help_of(k), "gauge"@, value_text(number_of(m, k)))
    } else {
        family(name_of(k), help_of(k), "counter"@, value_text(number_of(m, k)))
    }
}

/// The Prometheus text of all metrics, in the order of their names.
pub open spec fn exposition(m: MetricsView) -> Seq<char> {
    text_of(m, Metric::ActiveStreams) + text_of(
        m,
        Metric::BatchesReceived,
    ) + text_of(
        m,
        Metric::GrpcErrors,
    ) + text_of(
        m,
        Metric::PipelineBufferUsed,
    ) + text_of(
        m,
        Metric::PipelineFlushes,
    ) + text_of(
        m,
        Metric::RecordsDropped,
    ) + text_of(
        m,
        Metric::RecordsReceived,
    ) + text_of(
        m,
        Metric::SinkErrors,
    ) + text_of(
        m,
        Metric::SinkRecordsSent,
    ) + text_of(
        m,
        Metric::SinkRetries,
    )
}

/// The metrics after `n` more have been counted in a counter.
pub open spec fn with_count(m: MetricsView, k: Metric, n: u64) -> MetricsView {
    match k {
        Metric::BatchesReceived => MetricsView {
            batches_received: wrapped(m.batches_received, n),
            ..m
        },
        Metric::GrpcErrors => MetricsView {
            grpc_errors: wrapped(m.grpc_errors, n),
            ..m
        },
        Metric::PipelineFlushes => MetricsView {
            pipeline_flushes: wrapped(m.pipeline_flushes, n),
            ..m
        },
        Metric::RecordsDropped => MetricsView {
            records_dropped: wrapped(m.records_dropped, n),
            ..m
        },
        Metric::RecordsReceived => MetricsView {
            records_received: wrapped(m.records_received, n),
            ..m
        },
        _ => m,
    }
}

/// The metrics after a gauge has been set.
pub open spec fn with_level(m: MetricsView, k: Metric, level: i64) -> MetricsView {
    match k {
        Metric::ActiveStreams => MetricsView { active_streams: level, ..m },
        Metric::PipelineBufferUsed => MetricsView { pipeline_buffer_used: level, ..m },
        _ => m,
    }
}

/// The metrics after `n` more have been counted for a sink.
pub open spec fn with_count_for(
    m: MetricsView,
    k: Metric,
    sink: Seq<char>,
    n: u64,
) -> MetricsView {
    match k {
        Metric::SinkErrors => MetricsView {
            sink_errors: counted(m.sink_errors, sink, n),
            ..m
        },
        Metric::SinkRecordsSent => MetricsView {
            sink_records_sent: counted(m.sink_records_sent, sink, n),
            ..m
        },
        Metric::SinkRetries => MetricsView {
            sink_retries: counted(m.sink_retries, sink, n),
            ..m
        },
        _ => m,
    }
}

/// Whether two states of the metrics publish the same under every name but one.
pub open spec fn same_but(a: MetricsView, b: MetricsView, k: Metric) -> bool {
    forall|j: Metric| j != k ==> #[trigger] text_of(a, j) == text_of(b, j)
}

/// Each metric is published under a name of its own. Counting in one metric, or
/// setting it, changes its value accordingly, and what is published under the
/// names of all others stays as it is.
pub proof fn law_metrics_are_published_apart(
    m: MetricsView,
    k: Metric,
    sink: Seq<char>,
    n: u64,
    level: i64,
)
    ensures
        forall|j: Metric| j != k ==> #[trigger] name_of(j) != name_of(k),
        same_but(m, with_count(m, k, n), k),
        same_but(m, with_level(m, k, level), k),
        same_but(m, with_count_for(m, k, sink, n), k),
        !is_gauge(k) && !is_by_sink(k) ==> number_of(with_count(m, k, n), k) == wrapped(
            number_of(m, k) as u64,
            n,
        ),
        is_gauge(k) ==> number_of(with_level(m, k, level), k) == level,
        is_by_sink(k) ==> samples_of(with_count_for(m, k, sink, n), k) == counted(
            samples_of(m, k),
            sink,
            n,
        ),
{
    lemma_names_differ();
}

proof fn lemma_names_differ()
    ensures
        forall|i: Metric, j: Metric|
            i != j ==> #[trigger] name_of(i) != #[trigger] name_of(j),
{
    reveal_strlit("watchtower_active_streams");
    reveal_strlit("watchtower_batches_received_total");
    reveal_strlit("watchtower_grpc_errors_total");
    reveal_strlit("watchtower_pipeline_buffer_used");
    reveal_strlit("watchtower_pipeline_flushes_total");
    reveal_strlit("watchtower_records_dropped_total");
    reveal_strlit("watchtower_records_received_total");
    reveal_strlit("watchtower_sink_errors_total");
    reveal_strlit("watchtower_sink_records_sent_total");
    reveal_strlit("watchtower_sink_retries_total");
    assert("watchtower_active_streams"@.len() == 25);
    assert("watchtower_active_streams"@[11] == 'a');
    assert("watchtower_batches_received_total"@.len() == 33);
    assert("watchtower_batches_received_total"@[11] == 'b');
    assert("watchtower_grpc_errors_total"@.len() == 28);
    assert("watchtower_grpc_errors_total"@[11] == 'g');
    assert("watchtower_pipeline_buffer_used"@.len() == 31);
    assert("watchtower_pipeline_buffer_used"@[11] == 'p');
    assert("watchtower_pipeline_flushes_total"@.len() == 33);
    assert("watchtower_pipeline_flushes_total"@[11] == 'p');
    assert("watchtower_records_dropped_total"@.len() == 32);
    assert("watchtower_records_dropped_total"@[11] == 'r');
    assert("watchtower_records_received_total"@.len() == 33);
    assert("watchtower_records_received_total"@[11] == 'r');
    assert("watchtower_sink_errors_total"@.len() == 28);
    assert("watchtower_sink_errors_total"@[11] == 's');
    assert("watchtower_sink_records_sent_total"@.len() == 34);
    assert("watchtower_sink_records_sent_total"@[11] == 's');
    assert("watchtower_sink_retries_total"@.len() == 29);
    assert("watchtower_sink_retries_total"@[11] == 's');
}

impl Default for Metrics {
    fn default() -> (r: Self)
        ensures
            r@ == no_metrics(),
    {
        Metrics::new()
    }
}

impl Metrics {
    /// Metrics that all stand at zero.
    pub fn new() -> (r: Self)
        ensures
            r@ == no_metrics(),
    {
        Metrics {
            records_received: Counter::new(),
            batches_received: Counter::new(),
            records_dropped: Counter::new(),
            pipeline_buffer_used: Gauge::new(),
            pipeline_flushes: Counter::new(),
            sink_records_sent: SinkCounters::new(),
            sink_errors: SinkCounters::new(),
            sink_retries: SinkCounters::new(),
            active_streams: Gauge::new(),
            grpc_errors: Counter::new(),
        }
    }

    /// The Prometheus text of all metrics.
    pub fn render(&self) -> (s: String)
        ensures
            s@ == exposition(self@),
    {
        proof {
            lemma_names();
        }
        let mut s: String = gauge_text(
            "watchtower_active_streams",
            "Active gRPC streaming connections",
            self.active_streams.get(),
        );
        s.append(
            counter_text(
                "watchtower_batches_received_total",
                "Total batches received via gRPC",
                self.batches_received.get(),
            ).as_str(),
        );
        s.append(
            counter_text(
                "watchtower_grpc_errors_total",
                "gRPC-level errors",
                self.grpc_errors.get(),
            ).as_str(),
        );
        s.append(
            gauge_text(
                "watchtower_pipeline_buffer_used",
                "Current pipeline buffer occupancy",
                self.pipeline_buffer_used.get(),
            ).as_str(),
        );
        s.append(
            counter_text(
                "watchtower_pipeline_flushes_total",
                "Total pipeline flushes to sinks",
                self.pipeline_flushes.get(),
            ).as_str(),
        );
        s.append(
            counter_text(
                "watchtower_records_dropped_total",
                "Records dropped due to backpressure",
                self.records_dropped.get(),
            ).as_str(),
        );
        s.append(
            counter_text(
                "watchtower_records_received_total",
                "Total log records received via gRPC",
                self.records_received.get(),
            ).as_str(),
        );
        s.append(
            labelled_text(
                "watchtower_sink_errors_total",
                "Delivery errors per sink",
                "sink",
                &self.sink_errors.entries,
            ).as_str(),
        );
        s.append(
            labelled_text(
                "watchtower_sink_records_sent_total",
                "Records sent per sink",
                "sink",
                &self.sink_records_sent.entries,
            ).as_str(),
        );
        s.append(
            labelled_text(
                "watchtower_sink_retries_total",
                "Retry attempts per sink",
                "sink",
                &self.sink_retries.entries,
            ).as_str(),
        );
        s
    }
}

proof fn lemma_names()
    ensures
        is_name("watchtower_active_streams"@),
        is_help("Active gRPC streaming connections"@),
        is_name("watchtower_batches_received_total"@),
        is_help("Total batches received via gRPC"@),
        is_name("watchtower_grpc_errors_total"@),
        is_help("gRPC-level errors"@),
        is_name("watchtower_pipeline_buffer_used"@),
        is_help("Current pipeline buffer occupancy"@),
        is_name("watchtower_pipeline_flushes_total"@),
        is_help("Total pipeline flushes to sinks"@),
        is_name("watchtower_records_dropped_total"@),
        is_help("Records dropped due to backpressure"@),
        is_name("watchtower_records_received_total"@),
        is_help("Total log records received via gRPC"@),
        is_name("watchtower_sink_errors_total"@),
        is_help("Delivery errors per sink"@),
        is_name("watchtower_sink_records_sent_total"@),
        is_help("Records sent per sink"@),
        is_name("watchtower_sink_retries_total"@),
        is_help("Retry attempts per sink"@),
        is_name("sink"@),
{
    reveal_strlit("watchtower_active_streams");
    reveal_strlit("Active gRPC streaming connections");
    reveal_strlit("watchtower_batches_received_total");
    reveal_strlit("Total batches received via gRPC");
    reveal_strlit("watchtower_grpc_errors_total");
    reveal_strlit("gRPC-level errors");
    reveal_strlit("watchtower_pipeline_buffer_used");
    reveal_strlit("Current pipeline buffer occupancy");
    reveal_strlit("watchtower_pipeline_flushes_total");
    reveal_strlit("Total pipeline flushes to sinks");
    reveal_strlit("watchtower_records_dropped_total");
    reveal_strlit("Records dropped due to backpressure");
    reveal_strlit("watchtower_records_received_total");
    reveal_strlit("Total log records received via gRPC");
    reveal_strlit("watchtower_sink_errors_total");
    reveal_strlit("Delivery errors per sink");
    reveal_strlit("watchtower_sink_records_sent_total");
    reveal_strlit("Records sent per sink");
    reveal_strlit("watchtower_sink_retries_total");
    reveal_strlit("Retry attempts per sink");
    reveal_strlit("sink");
}

} // verus!
