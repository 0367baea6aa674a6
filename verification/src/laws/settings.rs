//! Laws of the settings and of the environment variables that decide them.

use vstd::prelude::*;
use vstd::utf8;

use crate::config;
use crate::config::env;
use crate::config::env::{ConfigFault, Env};
use crate::config::{
    BasicAuthConfig, Config, ConfigView, ElasticSinkConfig, ElasticView, ForwardSinkConfig,
    ForwardView, HealthConfig, PipelineConfig, ServerConfig, ServerView, SinkConfig, SinkView,
    SpilloverConfig, ViewerConfig, ViewerView,
};
use crate::duration;
use crate::number;
use crate::number::IntFault;
use crate::text;

verus! {

// ---------------------------------------------------------------------------
// Variables
// ---------------------------------------------------------------------------

/// A variable that is listed first has the value that it is listed with, and does
/// not hide the variables of other names.
pub proof fn law_listed_variable_is_found(
    name: Seq<char>,
    value: Seq<char>,
    rest: Seq<(Seq<char>, Seq<char>)>,
    other: Seq<char>,
)
    ensures
        env::lookup(seq![(name, value)] + rest, name) == Some(value),
        other != name ==> env::lookup(seq![(name, value)] + rest, other) == env::lookup(
            rest,
            other,
        ),
        env::lookup(Seq::empty(), name) is None,
{
    assert((seq![(name, value)] + rest).skip(1) =~= rest);
}

/// Whether a text is a word in small letters, in any case.
pub open spec fn spells(t: Seq<char>, word: Seq<char>) -> bool {
    &&& t.len() == word.len()
    &&& forall|i: int|
        0 <= i < t.len() ==> #[trigger] t[i] == word[i] || ('a' <= word[i] <= 'z' && t[i] as u32
            + 32 == word[i] as u32)
}

/// Whether a text is made of small letters.
pub open spec fn is_word(s: Seq<char>) -> bool {
    forall|i: int| 0 <= i < s.len() ==> 'a' <= #[trigger] s[i] <= 'z'
}

/// The lower-case form of a text in ASCII is a word exactly if the text is that
/// word in any case.
pub proof fn law_case_does_not_matter(t: Seq<char>, word: Seq<char>)
    requires
        utf8::is_ascii_chars(t),
        is_word(word),
    ensures
        text::lowered(t) == word <==> spells(t, word),
{
    let low = text::lowered(t);
    if low == word {
        assert forall|i: int| 0 <= i < t.len() implies #[trigger] t[i] == word[i] || ('a' <= word[i]
            <= 'z' && t[i] as u32 + 32 == word[i] as u32) by {
            assert(low[i] == text::ascii_lower(t[i]));
        }
    }
    if spells(t, word) {
        assert forall|i: int| 0 <= i < t.len() implies low[i] == word[i] by {
            assert(low[i] == text::ascii_lower(t[i]));
            assert(t[i] == word[i] || t[i] as u32 + 32 == word[i] as u32);
            assert('a' <= word[i] <= 'z');
        }
        assert(low =~= word);
    }
}

/// Whether a switch is off: it is `0`, or `false` in any case.
pub open spec fn is_off(t: Seq<char>) -> bool {
    t == "0"@ || spells(t, "false"@)
}

/// A switch is off if it is `0` or `false` in any case, and on if it is any other
/// text in ASCII.
pub proof fn law_switches(t: Seq<char>)
    requires
        utf8::is_ascii_chars(t),
    ensures
        env::switched_on(t) == !is_off(t),
{
    reveal_strlit("false");
    law_case_does_not_matter(t, "false"@);
}

/// Whether a switch has the setting that its variable gives it, or the usual one.
pub open spec fn switch_is(on: bool, v: Option<Seq<char>>, usual: bool) -> bool {
    match v {
        Some(t) => utf8::is_ascii_chars(t) ==> on == !is_off(t),
        None => on == usual,
    }
}

/// Whether a text has the setting that its variable gives it, or the usual one.
pub open spec fn text_is(s: Seq<char>, v: Option<Seq<char>>, usual: Seq<char>) -> bool {
    match v {
        Some(t) => s == t,
        None => s == usual,
    }
}

/// Whether an address is that of a port on every interface, or the usual one.
pub open spec fn address_is(s: Seq<char>, port: Option<Seq<char>>, usual: Seq<char>) -> bool {
    match port {
        Some(p) => s == "[::]:"@ + p,
        None => s == usual,
    }
}

/// Whether a number is the one that its variable reads as, or the usual one where
/// the variable is not set or cannot be read.
pub open spec fn number_is(n: nat, v: Option<Seq<char>>, max: nat, usual: nat) -> bool {
    match v {
        Some(t) => match number::read_unsigned(t, max) {
            Ok(x) => n == x,
            Err(_) => n == usual,
        },
        None => n == usual,
    }
}

/// Whether a span is the one that its variable names, or the usual one where the
/// variable is not set or names none.
pub open spec fn span_is(n: nat, v: Option<Seq<char>>, usual: nat) -> bool {
    match v {
        Some(t) => match duration::read_short_duration(t) {
            Ok(x) => n == x,
            Err(_) => n == usual,
        },
        None => n == usual,
    }
}

proof fn lemma_switch(v: Option<Seq<char>>, usual: bool)
    ensures
        switch_is(env::switch_or(v, usual), v, usual),
{
    if let Some(t) = v {
        if utf8::is_ascii_chars(t) {
            law_switches(t);
        }
    }
}

// ---------------------------------------------------------------------------
// Sinks
// ---------------------------------------------------------------------------

/// Whether each setting of an Elasticsearch or OpenSearch sink is decided by the
/// variable of its name.
pub open spec fn elastic_is(
    c: ElasticView,
    e: Seq<(Seq<char>, Seq<char>)>,
    prefix: Seq<char>,
) -> bool {
    &&& env::lookup(e, prefix + "_ADDRESSES"@) matches Some(list) && c.addresses
        == env::addresses_in(list)
    &&& text_is(c.index, env::lookup(e, prefix + "_INDEX"@), "watchtower-logs"@)
    &&& c.username == env::lookup(e, prefix + "_USERNAME"@)
    &&& c.password == env::lookup(e, prefix + "_PASSWORD"@)
    &&& switch_is(c.tls, env::lookup(e, prefix + "_TLS"@), false)
    &&& number_is(
        c.batch_size as nat,
        env::lookup(e, prefix + "_BATCH_SIZE"@),
        usize::MAX as nat,
        512,
    )
    &&& span_is(c.flush_interval, env::lookup(e, prefix + "_FLUSH_INTERVAL"@), 5_000_000_000)
    &&& number_is(
        c.retry_attempts as nat,
        env::lookup(e, prefix + "_RETRY_ATTEMPTS"@),
        u32::MAX as nat,
        3,
    )
    &&& c.retry_backoff == 1_000_000_000
}

/// Whether each setting of a forwarding sink is decided by the variable of its
/// name.
pub open spec fn forward_is(
    c: ForwardView,
    e: Seq<(Seq<char>, Seq<char>)>,
    prefix: Seq<char>,
) -> bool {
    &&& env::lookup(e, prefix + "_TARGET"@) == Some(c.target)
    &&& switch_is(c.enable_compression, env::lookup(e, prefix + "_COMPRESSION"@), true)
    &&& span_is(c.timeout, env::lookup(e, prefix + "_TIMEOUT"@), 10_000_000_000)
    &&& c.tls_cert == env::lookup(e, prefix + "_TLS_CERT"@)
    &&& c.tls_ca == env::lookup(e, prefix + "_TLS_CA"@)
    &&& number_is(
        c.retry_attempts as nat,
        env::lookup(e, prefix + "_RETRY_ATTEMPTS"@),
        u32::MAX as nat,
        3,
    )
    &&& c.retry_backoff == 1_000_000_000
}

proof fn lemma_read_bound(t: Seq<char>, max: nat)
    ensures
        number::read_unsigned(t, max) matches Ok(n) ==> n <= max,
{
    number::lemma_read_bound(t, max);
}

/// Whether a variable names a span whose seconds do not fit into 64 bits.
pub open spec fn overflows(v: Option<Seq<char>>) -> bool {
    v matches Some(t) && (duration::read_short_duration(t) matches Ok(n) && n
        > 18_446_744_073_709_551_615_999_999_999)
}

/// Without a type there is no sink.
pub proof fn law_no_sink_without_a_type(e: Seq<(Seq<char>, Seq<char>)>, prefix: Seq<char>)
    requires
        env::lookup(e, prefix + "_TYPE"@) is None,
    ensures
        env::sink_in(e, prefix) == Ok::<Option<SinkView>, ConfigFault>(None),
{
}

/// Each variable of a sink decides the setting of its name, and a setting without a
/// readable variable has its usual value. The type in ASCII, in any case, decides
/// the kind of the sink; a sink comes out only if it has somewhere to deliver to.
pub proof fn law_variables_decide_the_sink(
    e: Seq<(Seq<char>, Seq<char>)>,
    prefix: Seq<char>,
    kind: Seq<char>,
)
    requires
        env::lookup(e, prefix + "_TYPE"@) == Some(kind),
        utf8::is_ascii_chars(kind),
    ensures
        match env::sink_in(e, prefix) {
            Ok(Some(SinkView::Elasticsearch(c))) => spells(kind, "elasticsearch"@) && elastic_is(
                c,
                e,
                prefix,
            ) && c.addresses.len() > 0,
            Ok(Some(SinkView::OpenSearch(c))) => spells(kind, "opensearch"@) && elastic_is(
                c,
                e,
                prefix,
            ) && c.addresses.len() > 0,
            Ok(Some(SinkView::Watchtower(c))) => spells(kind, "watchtower"@) && forward_is(
                c,
                e,
                prefix,
            ) && c.target.len() > 0,
            Ok(None) => {
                &&& spells(kind, "elasticsearch"@) || spells(kind, "opensearch"@) ==> match
                env::lookup(e, prefix + "_ADDRESSES"@) {
                    Some(list) => env::addresses_in(list).len() == 0,
                    None => true,
                }
                &&& spells(kind, "watchtower"@) ==> match env::lookup(e, prefix + "_TARGET"@) {
                    Some(target) => target.len() == 0,
                    None => true,
                }
            },
            Err(f) => f == ConfigFault::Overflow && if spells(kind, "watchtower"@) {
                overflows(env::lookup(e, prefix + "_TIMEOUT"@))
            } else {
                overflows(env::lookup(e, prefix + "_FLUSH_INTERVAL"@))
            },
        },
{
    reveal_strlit("elasticsearch");
    reveal_strlit("opensearch");
    reveal_strlit("watchtower");
    law_case_does_not_matter(kind, "elasticsearch"@);
    law_case_does_not_matter(kind, "opensearch"@);
    law_case_does_not_matter(kind, "watchtower"@);
    assert("elasticsearch"@.len() == 13 && "opensearch"@.len() == 10 && "watchtower"@.len() == 10);
    assert("opensearch"@[0] == 'o' && "watchtower"@[0] == 'w');
    lemma_switch(env::lookup(e, prefix + "_TLS"@), false);
    lemma_switch(env::lookup(e, prefix + "_COMPRESSION"@), true);
    if let Some(t) = env::lookup(e, prefix + "_BATCH_SIZE"@) {
        lemma_read_bound(t, usize::MAX as nat);
    }
    if let Some(t) = env::lookup(e, prefix + "_RETRY_ATTEMPTS"@) {
        lemma_read_bound(t, u32::MAX as nat);
    }
    law_no_address_in_nothing();
}

proof fn law_no_address_in_nothing()
    ensures
        env::addresses_in(Seq::empty()).len() == 0,
{
    law_addresses_stand_between_commas(Seq::empty(), Seq::empty());
}

/// A list without a comma is one address, without the white space around it, or
/// none if nothing else is there; and a comma parts one address from the others.
pub proof fn law_addresses_stand_between_commas(first: Seq<char>, rest: Seq<char>)
    requires
        !first.contains(','),
    ensures
        env::addresses_in(first) == if text::trimmed(first).len() > 0 {
            seq![text::trimmed(first)]
        } else {
            seq![]
        },
        env::addresses_in(first + ","@ + rest) == env::addresses_in(first) + env::addresses_in(
            rest,
        ),
{
    reveal_strlit(",");
    let trim = |p: Seq<char>| text::trimmed(p);
    let full = |p: Seq<char>| p.len() > 0;
    text::lemma_first_at(first, ',');
    if text::first_at(first, ',') < first.len() {
        assert(first.contains(first[text::first_at(first, ',')]));
    }
    assert(text::pieces(first, ',') =~= seq![first]);
    let one = seq![first].map_values(trim);
    assert(one =~= seq![text::trimmed(first)]);
    assert(one.filter(full) =~= if text::trimmed(first).len() > 0 {
        seq![text::trimmed(first)]
    } else {
        seq![]
    }) by {
        reveal_with_fuel(Seq::filter, 2);
        assert(one.drop_last() =~= seq![]);
        assert(one.drop_last().filter(full) =~= seq![]);
    }
    let s = first + ","@ + rest;
    text::lemma_first_at(s, ',');
    let at = text::first_at(s, ',');
    if at < first.len() {
        assert(s[at] == first[at]);
        assert(first.contains(first[at]));
    }
    assert(s[first.len() as int] == ',');
    assert(at == first.len());
    assert(s.take(at) =~= first);
    assert(s.skip(at + 1) =~= rest);
    let others = text::pieces(rest, ',');
    assert(text::pieces(s, ',') == seq![first] + others);
    assert((seq![first] + others).map_values(trim) =~= one + others.map_values(trim));
    Seq::filter_distributes_over_add(one, others.map_values(trim), full);
}

/// The sinks of the environment are those of the plain prefix and of the prefixes
/// numbered from zero to fifteen, and no others.
pub proof fn law_every_numbered_sink_counts(
    e: Seq<(Seq<char>, Seq<char>)>,
    k: nat,
    x: SinkView,
)
    requires
        k < 16,
        env::sinks_in(e, 17) is Ok,
        env::sink_in(e, "WATCHTOWER_SINK_"@ + number::decimal(k)) == Ok::<
            Option<SinkView>,
            ConfigFault,
        >(Some(x)) || env::sink_in(e, "WATCHTOWER_SINK"@) == Ok::<Option<SinkView>, ConfigFault>(
            Some(x),
        ),
    ensures
        env::sinks_in(e, 17)->Ok_0.contains(x),
{
    if env::sink_in(e, "WATCHTOWER_SINK"@) == Ok::<Option<SinkView>, ConfigFault>(Some(x)) {
        lemma_sink_is_kept(e, 0, 17, x);
    } else {
        lemma_sink_is_kept(e, k + 1, 17, x);
    }
}

proof fn lemma_sink_is_kept(e: Seq<(Seq<char>, Seq<char>)>, k: nat, n: nat, x: SinkView)
    requires
        k < n,
        env::sinks_in(e, n) is Ok,
        env::sink_in(e, env::sink_prefix(k)) == Ok::<Option<SinkView>, ConfigFault>(Some(x)),
    ensures
        env::sinks_in(e, n)->Ok_0.contains(x),
    decreases n,
{
    let s = env::sinks_in(e, n)->Ok_0;
    if k == n - 1 {
        assert(s.last() == x);
    } else {
        lemma_sink_is_kept(e, k, (n - 1) as nat, x);
        let before = env::sinks_in(e, (n - 1) as nat)->Ok_0;
        let i = choose|i: int| 0 <= i < before.len() && before[i] == x;
        assert(s[i] == x);
    }
}

/// Every sink of the environment comes from one of those prefixes, and the sinks
/// stand in the order of the prefixes.
pub proof fn law_sinks_stand_in_order(e: Seq<(Seq<char>, Seq<char>)>, n: nat) -> (source: Seq<nat>)
    requires
        env::sinks_in(e, n) is Ok,
    ensures
        source.len() == env::sinks_in(e, n)->Ok_0.len(),
        forall|i: int|
            0 <= i < source.len() ==> #[trigger] source[i] < n && env::sink_in(
                e,
                if source[i] == 0 {
                    "WATCHTOWER_SINK"@
                } else {
                    "WATCHTOWER_SINK_"@ + number::decimal((source[i] - 1) as nat)
                },
            ) == Ok::<Option<SinkView>, ConfigFault>(Some(env::sinks_in(e, n)->Ok_0[i])),
        forall|i: int, j: int|
            0 <= i < j < source.len() ==> #[trigger] source[i] < #[trigger] source[j],
    decreases n,
{
    if n == 0 {
        Seq::empty()
    } else {
        let m = (n - 1) as nat;
        let before = law_sinks_stand_in_order(e, m);
        match env::sink_in(e, env::sink_prefix(m)) {
            Ok(Some(x)) => before.push(m),
            _ => before,
        }
    }
}

// ---------------------------------------------------------------------------
// The viewer
// ---------------------------------------------------------------------------

/// Whether the settings of the viewer that cannot be wrong are decided by the
/// variables of their names. A full address counts for more than a port.
pub open spec fn viewer_place_is(
    c: ViewerView,
    e: Seq<(Seq<char>, Seq<char>)>,
    usual: ViewerView,
) -> bool {
    &&& switch_is(c.enabled, env::lookup(e, "WATCHTOWER_VIEWER_ENABLED"@), usual.enabled)
    &&& match env::lookup(e, "WATCHTOWER_VIEWER_LISTEN_ADDR"@) {
        Some(a) => c.listen_addr == a,
        None => address_is(
            c.listen_addr,
            env::lookup(e, "WATCHTOWER_VIEWER_PORT"@),
            usual.listen_addr,
        ),
    }
    &&& text_is(c.db_path, env::lookup(e, "WATCHTOWER_VIEWER_DB_PATH"@), usual.db_path)
}

/// Whether the number of records to keep is decided by the variable of its name.
pub open spec fn viewer_records_are(
    c: ViewerView,
    e: Seq<(Seq<char>, Seq<char>)>,
    usual: ViewerView,
) -> bool {
    match env::lookup(e, "WATCHTOWER_VIEWER_MAX_RECORDS"@) {
        Some(t) => number::read_unsigned(t, u64::MAX as nat) == Ok::<nat, IntFault>(
            c.max_records as nat,
        ),
        None => c.max_records == usual.max_records,
    }
}

/// Each variable of the viewer decides the setting of its name, and a setting
/// without a variable stays as it was. The credential needs both its variables. A
/// variable that cannot be read is reported, and those before it are applied.
pub proof fn law_variables_decide_the_viewer(v: ViewerView, e: Seq<(Seq<char>, Seq<char>)>)
    ensures
        viewer_place_is(env::viewer_in(v, e).0, e, v),
        match env::viewer_in(v, e).1 {
            None => {
                let c = env::viewer_in(v, e).0;
                &&& viewer_records_are(c, e, v)
                &&& match env::lookup(e, "WATCHTOWER_VIEWER_MAX_AGE"@) {
                    Some(t) => duration::read_duration(t) == Ok::<nat, Seq<char>>(c.max_age)
                        && c.max_age <= 18_446_744_073_709_551_615_999_999_999,
                    None => c.max_age == v.max_age,
                }
                &&& match (
                    env::lookup(e, "WATCHTOWER_VIEWER_AUTH_USERNAME"@),
                    env::lookup(e, "WATCHTOWER_VIEWER_AUTH_PASSWORD"@),
                ) {
                    (Some(u), Some(p)) => c.auth == Some((u, p)),
                    _ => c.auth == v.auth,
                }
            },
            Some(ConfigFault::Message(words)) => {
                ||| {
                    &&& words == "invalid WATCHTOWER_VIEWER_MAX_RECORDS"@
                    &&& env::lookup(e, "WATCHTOWER_VIEWER_MAX_RECORDS"@) matches Some(t)
                        && number::read_unsigned(t, u64::MAX as nat) is Err
                    &&& env::viewer_in(v, e).0.max_records == v.max_records
                }
                ||| {
                    &&& env::lookup(e, "WATCHTOWER_VIEWER_MAX_AGE"@) matches Some(t)
                        && duration::read_duration(t) == Err::<nat, Seq<char>>(words)
                    &&& viewer_records_are(env::viewer_in(v, e).0, e, v)
                }
            },
            Some(ConfigFault::Overflow) => {
                &&& env::lookup(e, "WATCHTOWER_VIEWER_MAX_AGE"@) matches Some(t)
                    && duration::read_duration(t) matches Ok(n)
                    && n > 18_446_744_073_709_551_615_999_999_999
                &&& viewer_records_are(env::viewer_in(v, e).0, e, v)
            },
        },
        env::viewer_in(v, e).1 is Some ==> env::viewer_in(v, e).0.max_age == v.max_age
            && env::viewer_in(v, e).0.auth == v.auth,
{
    lemma_switch(env::lookup(e, "WATCHTOWER_VIEWER_ENABLED"@), v.enabled);
    if let Some(t) = env::lookup(e, "WATCHTOWER_VIEWER_MAX_RECORDS"@) {
        lemma_read_bound(t, u64::MAX as nat);
    }
}

// ---------------------------------------------------------------------------
// The whole configuration
// ---------------------------------------------------------------------------

/// Whether a size of the pipeline is the one that its variable reads as, or the
/// usual one where the variable is not set.
pub open spec fn size_is(n: usize, v: Option<Seq<char>>, usual: usize) -> bool {
    match v {
        Some(t) => number::read_unsigned(t, usize::MAX as nat) == Ok::<nat, IntFault>(n as nat),
        None => n == usual,
    }
}

/// Whether a variable is set to something that is no size.
pub open spec fn is_no_size(v: Option<Seq<char>>) -> bool {
    v matches Some(t) && number::read_unsigned(t, usize::MAX as nat) is Err
}

/// The ports decide where the server and the health server listen, and nothing
/// else.
pub proof fn law_ports_decide_addresses_only(c: ConfigView, e: Seq<(Seq<char>, Seq<char>)>)
    ensures
        ({
            let r = env::with_ports(c, e);
            &&& address_is(r.server.listen_addr, env::lookup(e, "PORT"@), c.server.listen_addr)
            &&& address_is(
                r.health.listen_addr,
                env::lookup(e, "WATCHTOWER_HEALTH_PORT"@),
                c.health.listen_addr,
            )
            &&& r.server == (ServerView { listen_addr: r.server.listen_addr, ..c.server })
            &&& r.health.enabled == c.health.enabled
            &&& r.pipeline == c.pipeline
            &&& r.spillover == c.spillover
            &&& r.sinks == c.sinks
            &&& r.viewer == c.viewer
        }),
{
}

/// In a configuration from the environment each setting is the one that its
/// variable gives it, and a setting without a variable has its usual value.
pub proof fn law_variables_decide_the_configuration(e: Seq<(Seq<char>, Seq<char>)>)
    ensures
        env::config_in(e) matches Ok(c) ==> {
            &&& address_is(c.server.listen_addr, env::lookup(e, "PORT"@), "[::]:9090"@)
            &&& c.server.max_recv_msg_size == 4_194_304
            &&& c.server.max_concurrent_streams == 100
            &&& c.server.keepalive_interval == 30_000_000_000
            &&& c.server.keepalive_timeout == 10_000_000_000
            &&& c.server.enable_compression
            &&& c.server.tls_cert is None && c.server.tls_key is None && c.server.tls_ca is None
            &&& address_is(
                c.health.listen_addr,
                env::lookup(e, "WATCHTOWER_HEALTH_PORT"@),
                "[::]:9091"@,
            )
            &&& switch_is(c.health.enabled, env::lookup(e, "WATCHTOWER_HEALTH_ENABLED"@), true)
            &&& size_is(c.pipeline.workers, env::lookup(e, "WATCHTOWER_WORKERS"@), 2)
            &&& size_is(c.pipeline.batch_size, env::lookup(e, "WATCHTOWER_BATCH_SIZE"@), 1024)
            &&& size_is(c.pipeline.buffer_size, env::lookup(e, "WATCHTOWER_BUFFER_SIZE"@), 8192)
            &&& match env::lookup(e, "WATCHTOWER_FLUSH_INTERVAL"@) {
                Some(t) => duration::read_short_duration(t) == Ok::<nat, Seq<char>>(
                    c.pipeline.flush_interval,
                ) && c.pipeline.flush_interval <= 18_446_744_073_709_551_615_999_999_999,
                None => c.pipeline.flush_interval == 2_000_000_000,
            }
            &&& switch_is(
                c.spillover.enabled,
                env::lookup(e, "WATCHTOWER_SPILLOVER_ENABLED"@),
                false,
            )
            &&& text_is(
                c.spillover.path,
                env::lookup(e, "WATCHTOWER_SPILLOVER_PATH"@),
                "/var/lib/watchtower/spillover.bin"@,
            )
            &&& env::sinks_in(e, 17) == Ok::<Seq<SinkView>, ConfigFault>(c.sinks)
            &&& env::viewer_in(
                ViewerView {
                    enabled: false,
                    listen_addr: "127.0.0.1:9092"@,
                    db_path: ":memory:"@,
                    max_records: 1_000_000,
                    max_age: 604_800_000_000_000,
                    auth: None,
                },
                e,
            ) == (c.viewer, None::<ConfigFault>)
        },
{
    lemma_switch(env::lookup(e, "WATCHTOWER_HEALTH_ENABLED"@), true);
    lemma_switch(env::lookup(e, "WATCHTOWER_SPILLOVER_ENABLED"@), false);
    if let Some(t) = env::lookup(e, "WATCHTOWER_WORKERS"@) {
        lemma_read_bound(t, usize::MAX as nat);
    }
    if let Some(t) = env::lookup(e, "WATCHTOWER_BATCH_SIZE"@) {
        lemma_read_bound(t, usize::MAX as nat);
    }
    if let Some(t) = env::lookup(e, "WATCHTOWER_BUFFER_SIZE"@) {
        lemma_read_bound(t, usize::MAX as nat);
    }
}

/// A variable of the pipeline that cannot be read is reported with its name, the
/// first of them if there are several; and no configuration comes out.
pub proof fn law_unreadable_sizes_are_reported(e: Seq<(Seq<char>, Seq<char>)>)
    ensures
        is_no_size(env::lookup(e, "WATCHTOWER_WORKERS"@)) ==> env::config_in(e) == Err::<
            ConfigView,
            ConfigFault,
        >(ConfigFault::Message("invalid WATCHTOWER_WORKERS"@)),
        !is_no_size(env::lookup(e, "WATCHTOWER_WORKERS"@)) && is_no_size(
            env::lookup(e, "WATCHTOWER_BATCH_SIZE"@),
        ) ==> env::config_in(e) == Err::<ConfigView, ConfigFault>(
            ConfigFault::Message("invalid WATCHTOWER_BATCH_SIZE"@),
        ),
        !is_no_size(env::lookup(e, "WATCHTOWER_WORKERS"@)) && !is_no_size(
            env::lookup(e, "WATCHTOWER_BATCH_SIZE"@),
        ) && is_no_size(env::lookup(e, "WATCHTOWER_BUFFER_SIZE"@)) ==> env::config_in(e) == Err::<
            ConfigView,
            ConfigFault,
        >(ConfigFault::Message("invalid WATCHTOWER_BUFFER_SIZE"@)),
{
}

/// If every variable can be read and no span is too long, a configuration comes out
/// exactly if there is a sink or the viewer, and no size of the pipeline is zero.
pub proof fn law_when_the_environment_suffices(e: Seq<(Seq<char>, Seq<char>)>)
    requires
        !is_no_size(env::lookup(e, "WATCHTOWER_WORKERS"@)),
        !is_no_size(env::lookup(e, "WATCHTOWER_BATCH_SIZE"@)),
        !is_no_size(env::lookup(e, "WATCHTOWER_BUFFER_SIZE"@)),
        env::lookup(e, "WATCHTOWER_FLUSH_INTERVAL"@) matches Some(t)
            ==> duration::read_short_duration(t) is Ok,
        !overflows(env::lookup(e, "WATCHTOWER_FLUSH_INTERVAL"@)),
        env::viewer_in(config::default_viewer(), e).1 is None,
        env::sinks_in(e, 17) is Ok,
    ensures
        env::config_in(e) is Ok <==> {
            &&& env::sinks_in(e, 17)->Ok_0.len() > 0 || env::viewer_in(
                config::default_viewer(),
                e,
            ).0.enabled
            &&& !size_is(0, env::lookup(e, "WATCHTOWER_WORKERS"@), 2)
            &&& !size_is(0, env::lookup(e, "WATCHTOWER_BATCH_SIZE"@), 1024)
            &&& !size_is(0, env::lookup(e, "WATCHTOWER_BUFFER_SIZE"@), 8192)
        },
{
    let sinks = env::sinks_in(e, 17)->Ok_0;
    env::law_env_sinks_are_complete(e, 17);
    let d = env::with_ports(config::default_config(), e);
    if let Some(t) = env::lookup(e, "WATCHTOWER_WORKERS"@) {
        lemma_read_bound(t, usize::MAX as nat);
    }
    if let Some(t) = env::lookup(e, "WATCHTOWER_BATCH_SIZE"@) {
        lemma_read_bound(t, usize::MAX as nat);
    }
    if let Some(t) = env::lookup(e, "WATCHTOWER_BUFFER_SIZE"@) {
        lemma_read_bound(t, usize::MAX as nat);
    }
    let pipeline = env::pipeline_in(d.pipeline, e)->Ok_0;
    let c = ConfigView {
        server: d.server,
        pipeline,
        health: config::HealthView {
            enabled: env::switch_or(
                env::lookup(e, "WATCHTOWER_HEALTH_ENABLED"@),
                d.health.enabled,
            ),
            ..d.health
        },
        spillover: config::SpilloverView {
            enabled: env::switch_or(
                env::lookup(e, "WATCHTOWER_SPILLOVER_ENABLED"@),
                d.spillover.enabled,
            ),
            path: env::text_or(env::lookup(e, "WATCHTOWER_SPILLOVER_PATH"@), d.spillover.path),
        },
        sinks,
        viewer: env::viewer_in(d.viewer, e).0,
    };
    config::law_what_is_accepted(c);
}

// ---------------------------------------------------------------------------
// Validation
// ---------------------------------------------------------------------------

/// An Elasticsearch or OpenSearch sink is incomplete exactly without addresses, and
/// a forwarding sink exactly without a target.
pub proof fn law_what_a_sink_needs(c: ElasticView, f: ForwardView)
    ensures
        config::sink_lacks(SinkView::Elasticsearch(c)) == if c.addresses.len() == 0 {
            Some("addresses required"@)
        } else {
            None
        },
        config::sink_lacks(SinkView::OpenSearch(c)) == config::sink_lacks(
            SinkView::Elasticsearch(c),
        ),
        config::sink_lacks(SinkView::Watchtower(f)) == if f.target.len() == 0 {
            Some("target required"@)
        } else {
            None
        },
{
}

/// The first incomplete sink is reported with its position, once the rest of the
/// configuration is in order; before that the missing sinks, the size of batches,
/// the size of the queue and the number of workers are reported, in this order.
pub proof fn law_first_fault_is_reported(c: ConfigView, i: int, words: Seq<char>)
    ensures
        c.sinks.len() == 0 && !c.viewer.enabled ==> config::config_fault(c) == Some(
            "no sinks configured and viewer disabled: logs would be discarded"@,
        ),
        (c.sinks.len() > 0 || c.viewer.enabled) && c.pipeline.batch_size == 0
            ==> config::config_fault(c) == Some("pipeline.batch_size must be > 0"@),
        (c.sinks.len() > 0 || c.viewer.enabled) && c.pipeline.batch_size > 0
            && c.pipeline.buffer_size == 0 ==> config::config_fault(c) == Some(
            "pipeline.buffer_size must be > 0"@,
        ),
        (c.sinks.len() > 0 || c.viewer.enabled) && c.pipeline.batch_size > 0
            && c.pipeline.buffer_size > 0 && c.pipeline.workers == 0 ==> config::config_fault(c)
            == Some("pipeline.workers must be > 0"@),
        c.pipeline.batch_size > 0 && c.pipeline.buffer_size > 0 && c.pipeline.workers > 0 && 0 <= i
            < c.sinks.len() && config::sink_lacks(c.sinks[i]) == Some(words) && (forall|k: int|
            0 <= k < i ==> config::sink_lacks(#[trigger] c.sinks[k]) is None)
            ==> config::config_fault(c) == Some(
            "sink["@ + number::decimal(i as nat) + "]: "@ + words,
        ),
{
    if 0 <= i < c.sinks.len() && config::sink_lacks(c.sinks[i]) == Some(words) && (forall|k: int|
        0 <= k < i ==> config::sink_lacks(#[trigger] c.sinks[k]) is None) {
        lemma_first_incomplete(c.sinks, 0, i as nat, words);
    }
}

proof fn lemma_first_incomplete(s: Seq<SinkView>, from: nat, i: nat, words: Seq<char>)
    requires
        from <= i < s.len(),
        config::sink_lacks(s[i as int]) == Some(words),
        forall|k: int| 0 <= k < i ==> config::sink_lacks(#[trigger] s[k]) is None,
    ensures
        config::sinks_fault(s, from) == Some("sink["@ + number::decimal(i) + "]: "@ + words),
    decreases i - from,
{
    if from < i {
        lemma_first_incomplete(s, from + 1, i, words);
    }
}

// ---------------------------------------------------------------------------
// What the settings show
// ---------------------------------------------------------------------------

/// A view shows every field of the settings that it is of.
pub proof fn law_views_show_every_setting(
    s: ServerConfig,
    p: PipelineConfig,
    h: HealthConfig,
    v: ViewerConfig,
    o: SpilloverConfig,
    l: ElasticSinkConfig,
    f: ForwardSinkConfig,
    a: BasicAuthConfig,
)
    ensures
        s@.listen_addr == s.listen_addr@,
        s@.max_recv_msg_size == s.max_recv_msg_size,
        s@.max_concurrent_streams == s.max_concurrent_streams,
        s@.keepalive_interval == duration::duration_nanos(s.keepalive_interval),
        s@.keepalive_timeout == duration::duration_nanos(s.keepalive_timeout),
        s@.enable_compression == s.enable_compression,
        shows(s@.tls_cert, s.tls_cert),
        shows(s@.tls_key, s.tls_key),
        shows(s@.tls_ca, s.tls_ca),
        p@.batch_size == p.batch_size,
        p@.flush_interval == duration::duration_nanos(p.flush_interval),
        p@.buffer_size == p.buffer_size,
        p@.workers == p.workers,
        h@.enabled == h.enabled,
        h@.listen_addr == h.listen_addr@,
        a@ == (a.username@, a.password@),
        v@.enabled == v.enabled,
        v@.listen_addr == v.listen_addr@,
        v@.db_path == v.db_path@,
        v@.max_records == v.retention.max_records,
        v@.max_age == duration::duration_nanos(v.retention.max_age),
        match v.auth {
            Some(x) => v@.auth == Some((x.username@, x.password@)),
            None => v@.auth is None,
        },
        o@.enabled == o.enabled,
        o@.path == o.path@,
        l@.addresses.len() == l.addresses@.len(),
        forall|i: int|
            0 <= i < l.addresses@.len() ==> #[trigger] l@.addresses[i] == l.addresses@[i]@,
        l@.index == l.index@,
        shows(l@.username, l.username),
        shows(l@.password, l.password),
        l@.tls == l.tls,
        l@.batch_size == l.batch_size,
        l@.flush_interval == duration::duration_nanos(l.flush_interval),
        l@.retry_attempts == l.retry_attempts,
        l@.retry_backoff == duration::duration_nanos(l.retry_backoff),
        f@.target == f.target@,
        f@.enable_compression == f.enable_compression,
        f@.timeout == duration::duration_nanos(f.timeout),
        shows(f@.tls_cert, f.tls_cert),
        shows(f@.tls_ca, f.tls_ca),
        f@.retry_attempts == f.retry_attempts,
        f@.retry_backoff == duration::duration_nanos(f.retry_backoff),
{
}

/// Whether an optional text is shown as it is.
pub open spec fn shows(v: Option<Seq<char>>, s: Option<String>) -> bool {
    match s {
        Some(t) => v == Some(t@),
        None => v is None,
    }
}

/// A view shows every part of a configuration, every sink by its kind, and every
/// variable of an environment.
pub proof fn law_views_show_every_part(c: Config, s: SinkConfig, e: Env)
    ensures
        c@.server == c.server@,
        c@.pipeline == c.pipeline@,
        c@.health == c.health@,
        c@.spillover == c.spillover@,
        c@.viewer == c.viewer@,
        c@.sinks.len() == c.sinks@.len(),
        forall|i: int| 0 <= i < c.sinks@.len() ==> #[trigger] c@.sinks[i] == c.sinks@[i]@,
        match s {
            SinkConfig::Elasticsearch(x) => s@ == SinkView::Elasticsearch(x@),
            SinkConfig::OpenSearch(x) => s@ == SinkView::OpenSearch(x@),
            SinkConfig::Watchtower(x) => s@ == SinkView::Watchtower(x@),
        },
        e@.len() == e.vars@.len(),
        forall|i: int|
            0 <= i < e.vars@.len() ==> #[trigger] e@[i] == (e.vars@[i].0@, e.vars@[i].1@),
{
}

/// Spans of whole seconds, and the faults that errors report.
pub proof fn law_seconds_and_faults(n: nat, e: env::ConfigError)
    ensures
        config::seconds(n) == n * 1_000_000_000,
        match e {
            env::ConfigError::Message(m) => e@ == ConfigFault::Message(m@),
            env::ConfigError::Overflow => e@ == ConfigFault::Overflow,
        },
{
}

} // verus!
