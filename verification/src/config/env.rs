//! Settings taken from environment variables.

use std::time::Duration;

use vstd::prelude::*;

use crate::config;
use crate::config::{
    BasicAuthConfig, Config, ConfigView, ElasticSinkConfig, ElasticView, ForwardSinkConfig,
    ForwardView, HealthView, PipelineView, SinkConfig, SinkView, SpilloverView, ViewerConfig,
    ViewerView,
};
use crate::duration;
use crate::duration::DurationFault;
use crate::number;
use crate::text;

verus! {

/// Environment variables: names with their values.
#[derive(Debug)]
pub struct Env {
    pub vars: Vec<(String, String)>,
}

impl View for Env {
    type V = Seq<(Seq<char>, Seq<char>)>;

    open spec fn view(&self) -> Seq<(Seq<char>, Seq<char>)> {
        self.vars@.map_values(|v: (String, String)| (v.0@, v.1@))
    }
}

/// The value of the first variable of that name.
pub open spec fn lookup(env: Seq<(Seq<char>, Seq<char>)>, name: Seq<char>) -> Option<Seq<char>>
    decreases env.len(),
{
    if env.len() == 0 {
        None
    } else if env[0].0 == name {
        Some(env[0].1)
    } else {
        lookup(env.skip(1), name)
    }
}

impl Env {
    /// The value of a variable, if it is set.
    pub fn get(&self, name: &str) -> (r: Option<String>)
        ensures
            text::optional(r) == lookup(self@, name@),
    {
        let mut i: usize = 0;
        assert(self@.skip(0) =~= self@);
        while i < self.vars.len()
            invariant
                i <= self.vars@.len(),
                lookup(self@, name@) == lookup(self@.skip(i as int), name@),
            decreases self.vars@.len() - i,
        {
            assert(self@.skip(i as int)[0] == (self.vars@[i as int].0@, self.vars@[i as int].1@));
            if text::same(self.vars[i].0.as_str(), name) {
                return Some(self.vars[i].1.clone());
            }
            i += 1;
            assert(self@.skip(i - 1).skip(1) =~= self@.skip(i as int));
        }
        None
    }
}

/// Why no configuration comes out of the environment.
#[derive(Debug)]
pub enum ConfigError {
    /// A setting is wrong; the words say which.
    Message(String),
    /// The seconds of a span do not fit into a `u64`.
    Overflow,
}

/// What `ConfigError` says.
pub ghost enum ConfigFault {
    Message(Seq<char>),
    Overflow,
}

impl View for ConfigError {
    type V = ConfigFault;

    open spec fn view(&self) -> ConfigFault {
        match self {
            ConfigError::Message(m) => ConfigFault::Message(m@),
            ConfigError::Overflow => ConfigFault::Overflow,
        }
    }
}

// ---------------------------------------------------------------------------
// Single settings
// ---------------------------------------------------------------------------

/// Whether a text switches something on: all but `0` and `false` do.
pub open spec fn switched_on(v: Seq<char>) -> bool {
    v != "0"@ && text::lowered(v) != "false"@
}

/// A switch, or `usual` where it is not set.
pub open spec fn switch_or(v: Option<Seq<char>>, usual: bool) -> bool {
    match v {
        Some(t) => switched_on(t),
        None => usual,
    }
}

/// A text, or `usual` where it is not set.
pub open spec fn text_or(v: Option<Seq<char>>, usual: Seq<char>) -> Seq<char> {
    match v {
        Some(t) => t,
        None => usual,
    }
}

/// The address that listens on a port of every interface, or `usual` where the
/// port is not set.
pub open spec fn port_or(v: Option<Seq<char>>, usual: Seq<char>) -> Seq<char> {
    match v {
        Some(port) => "[::]:"@ + port,
        None => usual,
    }
}

/// A number up to `max`, or `usual` where it is not set; `None` where it is set
/// to something else.
pub open spec fn number_or(v: Option<Seq<char>>, max: nat, usual: nat) -> Option<nat> {
    match v {
        Some(t) => match number::read_unsigned(t, max) {
            Ok(n) => Some(n),
            Err(_) => None,
        },
        None => Some(usual),
    }
}

/// A number up to `max`, or `usual` where it is not set or set to something
/// else.
pub open spec fn number_or_usual(v: Option<Seq<char>>, max: nat, usual: nat) -> nat {
    match number_or(v, max, usual) {
        Some(n) => n,
        None => usual,
    }
}

/// Whether a setting names a span that is too long.
pub open spec fn too_long(v: Option<Seq<char>>) -> bool {
    v matches Some(t) && !duration::reading_fits(duration::read_short_duration(t))
}

/// A span, or `usual` where it is not set or set to something else.
pub open spec fn span_or_usual(v: Option<Seq<char>>, usual: nat) -> nat {
    match v {
        Some(t) => match duration::read_short_duration(t) {
            Ok(n) => n,
            Err(_) => usual,
        },
        None => usual,
    }
}

fn is_on(v: &str) -> (r: bool)
    ensures
        r == switched_on(v@),
{
    !text::same(v, "0") && !text::same(text::lower(v).as_str(), "false")
}

fn get_switch(v: Option<String>, usual: bool) -> (r: bool)
    ensures
        r == switch_or(text::optional(v), usual),
{
    match v {
        Some(t) => is_on(t.as_str()),
        None => usual,
    }
}

fn get_port(v: Option<String>, usual: String) -> (r: String)
    ensures
        r@ == port_or(text::optional(v), usual@),
{
    match v {
        Some(port) => text::join2("[::]:", port.as_str()),
        None => usual,
    }
}

fn get_text(v: Option<String>, usual: String) -> (r: String)
    ensures
        r@ == text_or(text::optional(v), usual@),
{
    match v {
        Some(t) => t,
        None => usual,
    }
}

fn get_size(v: Option<String>, usual: usize) -> (r: Option<usize>)
    ensures
        match number_or(text::optional(v), usize::MAX as nat, usual as nat) {
            Some(n) => r == Some(n as usize) && n <= usize::MAX,
            None => r is None,
        },
{
    match v {
        Some(t) => number::parse_usize(text::chars_of(t.as_str()).as_slice()),
        None => Some(usual),
    }
}

fn get_span(v: Option<String>, usual: Duration) -> (r: Option<Duration>)
    ensures
        match r {
            Some(d) => !too_long(text::optional(v)) && duration::duration_nanos(d)
                == span_or_usual(text::optional(v), duration::duration_nanos(usual)),
            None => too_long(text::optional(v)),
        },
{
    match v {
        Some(t) => match duration::parse_duration_str(t.as_str()) {
            Ok(d) => Some(d),
            Err(DurationFault::Invalid(_)) => Some(usual),
            Err(DurationFault::Overflow) => None,
        },
        None => Some(usual),
    }
}

// ---------------------------------------------------------------------------
// Sinks
// ---------------------------------------------------------------------------

/// The addresses of a list with commas between them, without white space around
/// them and without empty ones.
pub open spec fn addresses_in(list: Seq<char>) -> Seq<Seq<char>> {
    text::pieces(list, ',').map_values(|p: Seq<char>| text::trimmed(p)).filter(
        |p: Seq<char>| p.len() > 0,
    )
}

/// The variable with a prefix and a suffix.
pub open spec fn setting(
    env: Seq<(Seq<char>, Seq<char>)>,
    prefix: Seq<char>,
    suffix: Seq<char>,
) -> Option<Seq<char>> {
    lookup(env, prefix + suffix)
}

/// The Elasticsearch or OpenSearch sink whose variables have a prefix.
pub open spec fn elastic_in(
    env: Seq<(Seq<char>, Seq<char>)>,
    prefix: Seq<char>,
) -> ElasticView {
    ElasticView {
        addresses: addresses_in(text_or(setting(env, prefix, "_ADDRESSES"@), seq![])),
        index: text_or(setting(env, prefix, "_INDEX"@), "watchtower-logs"@),
        username: setting(env, prefix, "_USERNAME"@),
        password: setting(env, prefix, "_PASSWORD"@),
        tls: switch_or(setting(env, prefix, "_TLS"@), false),
        batch_size: number_or_usual(
            setting(env, prefix, "_BATCH_SIZE"@),
            usize::MAX as nat,
            512,
        ) as usize,
        flush_interval: span_or_usual(
            setting(env, prefix, "_FLUSH_INTERVAL"@),
            config::seconds(5),
        ),
        retry_attempts: number_or_usual(
            setting(env, prefix, "_RETRY_ATTEMPTS"@),
            u32::MAX as nat,
            3,
        ) as u32,
        retry_backoff: config::seconds(1),
    }
}

/// The forwarding sink whose variables have a prefix.
pub open spec fn forward_in(
    env: Seq<(Seq<char>, Seq<char>)>,
    prefix: Seq<char>,
) -> ForwardView {
    ForwardView {
        target: text_or(setting(env, prefix, "_TARGET"@), seq![]),
        enable_compression: switch_or(setting(env, prefix, "_COMPRESSION"@), true),
        timeout: span_or_usual(setting(env, prefix, "_TIMEOUT"@), config::seconds(10)),
        tls_cert: setting(env, prefix, "_TLS_CERT"@),
        tls_ca: setting(env, prefix, "_TLS_CA"@),
        retry_attempts: number_or_usual(
            setting(env, prefix, "_RETRY_ATTEMPTS"@),
            u32::MAX as nat,
            3,
        ) as u32,
        retry_backoff: config::seconds(1),
    }
}

/// The sink whose variables have a prefix. There is none if its type is missing
/// or unknown, or if it has nowhere to deliver to.
pub open spec fn sink_in(env: Seq<(Seq<char>, Seq<char>)>, prefix: Seq<char>) -> Result<
    Option<SinkView>,
    ConfigFault,
> {
    match setting(env, prefix, "_TYPE"@) {
        None => Ok(None),
        Some(kind) => if text::lowered(kind) == "elasticsearch"@ || text::lowered(kind)
            == "opensearch"@ {
            let c = elastic_in(env, prefix);
            if c.addresses.len() == 0 {
                Ok(None)
            } else if too_long(setting(env, prefix, "_FLUSH_INTERVAL"@)) {
                Err(ConfigFault::Overflow)
            } else if text::lowered(kind) == "opensearch"@ {
                Ok(Some(SinkView::OpenSearch(c)))
            } else {
                Ok(Some(SinkView::Elasticsearch(c)))
            }
        } else if text::lowered(kind) == "watchtower"@ {
            let c = forward_in(env, prefix);
            if c.target.len() == 0 {
                Ok(None)
            } else if too_long(setting(env, prefix, "_TIMEOUT"@)) {
                Err(ConfigFault::Overflow)
            } else {
                Ok(Some(SinkView::Watchtower(c)))
            }
        } else {
            Ok(None)
        },
    }
}

fn get_addresses(list: &str) -> (r: Vec<String>)
    ensures
        text::all(r@) == addresses_in(list@),
{
    let parts: Vec<Vec<char>> = text::split(text::chars_of(list).as_slice(), ',');
    let ghost trimmed = text::pieces(list@, ',').map_values(|p: Seq<char>| text::trimmed(p));
    let ghost full = |p: Seq<char>| p.len() > 0;
    let mut r: Vec<String> = Vec::new();
    let mut i: usize = 0;
    proof {
        reveal(Seq::filter);
        assert(trimmed.take(0).filter(full) =~= seq![]);
        assert(text::all(r@) =~= seq![]);
    }
    while i < parts.len()
        invariant
            i <= parts@.len(),
            parts@.map_values(|p: Vec<char>| p@) == text::pieces(list@, ','),
            trimmed == text::pieces(list@, ',').map_values(|p: Seq<char>| text::trimmed(p)),
            full == (|p: Seq<char>| p.len() > 0),
            text::all(r@) == trimmed.take(i as int).filter(full),
        decreases parts@.len() - i,
    {
        let ghost before = r@;
        let part: Vec<char> = text::trim(parts[i].as_slice());
        assert(text::pieces(list@, ',')[i as int] == parts@[i as int]@);
        assert(trimmed[i as int] == part@);
        if part.len() > 0 {
            r.push(text::string_of(part.as_slice()));
            assert(text::all(r@) =~= text::all(before).push(part@));
        }
        i += 1;
        proof {
            reveal(Seq::filter);
            assert(trimmed.take(i as int).drop_last() =~= trimmed.take(i - 1));
            assert(trimmed.take(i as int).last() == part@);
        }
    }
    assert(trimmed.take(i as int) =~= trimmed);
    r
}

/// The value of the variable with a prefix and a suffix.
fn get_setting(env: &Env, prefix: &str, suffix: &str) -> (r: Option<String>)
    ensures
        text::optional(r) == setting(env@, prefix@, suffix@),
{
    env.get(text::join2(prefix, suffix).as_str())
}

fn get_retries(v: Option<String>) -> (r: u32)
    ensures
        r == number_or_usual(text::optional(v), u32::MAX as nat, 3),
{
    match v {
        Some(t) => match number::parse_u32(text::chars_of(t.as_str()).as_slice()) {
            Some(n) => n,
            None => config::default_retry_attempts(),
        },
        None => config::default_retry_attempts(),
    }
}

/// The settings of an Elasticsearch or OpenSearch sink.
fn get_elastic(env: &Env, prefix: &str) -> (r: Result<Option<ElasticSinkConfig>, ConfigError>)
    ensures
        ({
            let c = elastic_in(env@, prefix@);
            if c.addresses.len() == 0 {
                r matches Ok(None)
            } else if too_long(setting(env@, prefix@, "_FLUSH_INTERVAL"@)) {
                r matches Err(e) && e@ == ConfigFault::Overflow
            } else {
                r matches Ok(Some(x)) && x@ == c
            }
        }),
{
    proof {
        reveal_strlit("");
        assert(""@ =~= seq![]);
    }
    let list: String = get_text(get_setting(env, prefix, "_ADDRESSES"), String::new());
    assert(list@ == text_or(setting(env@, prefix@, "_ADDRESSES"@), seq![]));
    let addresses: Vec<String> = get_addresses(list.as_str());
    if addresses.len() == 0 {
        return Ok(None);
    }
    let flush_interval: Duration = match get_span(
        get_setting(env, prefix, "_FLUSH_INTERVAL"),
        config::default_flush_interval(),
    ) {
        Some(d) => d,
        None => {
            return Err(ConfigError::Overflow);
        },
    };
    let batch_size: usize = match get_size(
        get_setting(env, prefix, "_BATCH_SIZE"),
        config::default_sink_batch_size(),
    ) {
        Some(n) => n,
        None => config::default_sink_batch_size(),
    };
    Ok(
        Some(
            ElasticSinkConfig {
                addresses,
                index: get_text(get_setting(env, prefix, "_INDEX"), config::default_index()),
                username: get_setting(env, prefix, "_USERNAME"),
                password: get_setting(env, prefix, "_PASSWORD"),
                tls: get_switch(get_setting(env, prefix, "_TLS"), false),
                batch_size,
                flush_interval,
                retry_attempts: get_retries(get_setting(env, prefix, "_RETRY_ATTEMPTS")),
                retry_backoff: config::default_retry_backoff(),
            },
        ),
    )
}

/// The settings of a forwarding sink.
fn get_forward(env: &Env, prefix: &str) -> (r: Result<Option<ForwardSinkConfig>, ConfigError>)
    ensures
        ({
            let c = forward_in(env@, prefix@);
            if c.target.len() == 0 {
                r matches Ok(None)
            } else if too_long(setting(env@, prefix@, "_TIMEOUT"@)) {
                r matches Err(e) && e@ == ConfigFault::Overflow
            } else {
                r matches Ok(Some(x)) && x@ == c
            }
        }),
{
    let target: String = match get_setting(env, prefix, "_TARGET") {
        Some(t) => t,
        None => {
            return Ok(None);
        },
    };
    if text::is_empty(target.as_str()) {
        return Ok(None);
    }
    let timeout: Duration = match get_span(
        get_setting(env, prefix, "_TIMEOUT"),
        config::default_forward_timeout(),
    ) {
        Some(d) => d,
        None => {
            return Err(ConfigError::Overflow);
        },
    };
    Ok(
        Some(
            ForwardSinkConfig {
                target,
                enable_compression: get_switch(
                    get_setting(env, prefix, "_COMPRESSION"),
                    config::default_true(),
                ),
                timeout,
                tls_cert: get_setting(env, prefix, "_TLS_CERT"),
                tls_ca: get_setting(env, prefix, "_TLS_CA"),
                retry_attempts: get_retries(get_setting(env, prefix, "_RETRY_ATTEMPTS")),
                retry_backoff: config::default_retry_backoff(),
            },
        ),
    )
}

/// The prefix of the variables of a sink: first the one without a number, then
/// those numbered from zero.
pub open spec fn sink_prefix(k: nat) -> Seq<char> {
    if k == 0 {
        "WATCHTOWER_SINK"@
    } else {
        "WATCHTOWER_SINK_"@ + number::decimal((k - 1) as nat)
    }
}

/// The sinks with one of the first `n` prefixes, in their order.
pub open spec fn sinks_in(env: Seq<(Seq<char>, Seq<char>)>, n: nat) -> Result<
    Seq<SinkView>,
    ConfigFault,
>
    decreases n,
{
    if n == 0 {
        Ok(seq![])
    } else {
        match sinks_in(env, (n - 1) as nat) {
            Err(f) => Err(f),
            Ok(s) => match sink_in(env, sink_prefix((n - 1) as nat)) {
                Err(f) => Err(f),
                Ok(None) => Ok(s),
                Ok(Some(x)) => Ok(s.push(x)),
            },
        }
    }
}

proof fn lemma_first_fault(env: Seq<(Seq<char>, Seq<char>)>, n: nat, m: nat)
    requires
        n <= m,
        sinks_in(env, n) is Err,
    ensures
        sinks_in(env, m) == sinks_in(env, n),
    decreases m,
{
    if n < m {
        lemma_first_fault(env, n, (m - 1) as nat);
    }
}

// ---------------------------------------------------------------------------
// The viewer
// ---------------------------------------------------------------------------

/// The settings of the viewer after the variables have been applied that cannot
/// be wrong and stand before those that can.
pub open spec fn viewer_addressed(
    v: ViewerView,
    env: Seq<(Seq<char>, Seq<char>)>,
) -> ViewerView {
    ViewerView {
        enabled: switch_or(lookup(env, "WATCHTOWER_VIEWER_ENABLED"@), v.enabled),
        listen_addr: text_or(
            lookup(env, "WATCHTOWER_VIEWER_LISTEN_ADDR"@),
            port_or(lookup(env, "WATCHTOWER_VIEWER_PORT"@), v.listen_addr),
        ),
        db_path: text_or(lookup(env, "WATCHTOWER_VIEWER_DB_PATH"@), v.db_path),
        ..v
    }
}

/// The credential, if both its user name and its password are set.
pub open spec fn viewer_auth(
    env: Seq<(Seq<char>, Seq<char>)>,
    usual: Option<(Seq<char>, Seq<char>)>,
) -> Option<(Seq<char>, Seq<char>)> {
    match (
        lookup(env, "WATCHTOWER_VIEWER_AUTH_USERNAME"@),
        lookup(env, "WATCHTOWER_VIEWER_AUTH_PASSWORD"@),
    ) {
        (Some(u), Some(p)) => Some((u, p)),
        _ => usual,
    }
}

/// The longest age in the variables, or `usual` where it is not set.
pub open spec fn viewer_age(env: Seq<(Seq<char>, Seq<char>)>, usual: nat) -> Result<
    nat,
    ConfigFault,
> {
    match lookup(env, "WATCHTOWER_VIEWER_MAX_AGE"@) {
        Some(t) => match duration::read_duration(t) {
            Ok(n) => if n <= duration::max_nanos() {
                Ok(n)
            } else {
                Err(ConfigFault::Overflow)
            },
            Err(words) => Err(ConfigFault::Message(words)),
        },
        None => Ok(usual),
    }
}

/// The settings of the viewer after its variables have been applied, and the
/// first fault. The variables are applied in turn up to a fault.
pub open spec fn viewer_in(v: ViewerView, env: Seq<(Seq<char>, Seq<char>)>) -> (
    ViewerView,
    Option<ConfigFault>,
) {
    let v1 = viewer_addressed(v, env);
    match number_or(
        lookup(env, "WATCHTOWER_VIEWER_MAX_RECORDS"@),
        u64::MAX as nat,
        v.max_records as nat,
    ) {
        None => (v1, Some(ConfigFault::Message("invalid WATCHTOWER_VIEWER_MAX_RECORDS"@))),
        Some(max_records) => {
            let v2 = ViewerView { max_records: max_records as u64, ..v1 };
            match viewer_age(env, v.max_age) {
                Err(f) => (v2, Some(f)),
                Ok(max_age) => (
                    ViewerView { max_age, auth: viewer_auth(env, v.auth), ..v2 },
                    None,
                ),
            }
        },
    }
}

// ---------------------------------------------------------------------------
// The whole configuration
// ---------------------------------------------------------------------------

/// A size of the pipeline, or the fault that it is set to something else.
pub open spec fn size_in(
    env: Seq<(Seq<char>, Seq<char>)>,
    name: Seq<char>,
    usual: usize,
    words: Seq<char>,
) -> Result<usize, ConfigFault> {
    match number_or(lookup(env, name), usize::MAX as nat, usual as nat) {
        Some(n) => Ok(n as usize),
        None => Err(ConfigFault::Message(words)),
    }
}

/// The flush interval of the pipeline, or the fault in it.
pub open spec fn flush_in(env: Seq<(Seq<char>, Seq<char>)>, usual: nat) -> Result<
    nat,
    ConfigFault,
> {
    match lookup(env, "WATCHTOWER_FLUSH_INTERVAL"@) {
        Some(t) => match duration::read_short_duration(t) {
            Ok(n) => if n <= duration::max_nanos() {
                Ok(n)
            } else {
                Err(ConfigFault::Overflow)
            },
            Err(words) => Err(ConfigFault::Message(words)),
        },
        None => Ok(usual),
    }
}

/// The settings of the pipeline, or the first fault in them.
pub open spec fn pipeline_in(p: PipelineView, env: Seq<(Seq<char>, Seq<char>)>) -> Result<
    PipelineView,
    ConfigFault,
> {
    match size_in(env, "WATCHTOWER_WORKERS"@, p.workers, "invalid WATCHTOWER_WORKERS"@) {
        Err(f) => Err(f),
        Ok(workers) => match size_in(
            env,
            "WATCHTOWER_BATCH_SIZE"@,
            p.batch_size,
            "invalid WATCHTOWER_BATCH_SIZE"@,
        ) {
            Err(f) => Err(f),
            Ok(batch_size) => match size_in(
                env,
                "WATCHTOWER_BUFFER_SIZE"@,
                p.buffer_size,
                "invalid WATCHTOWER_BUFFER_SIZE"@,
            ) {
                Err(f) => Err(f),
                Ok(buffer_size) => match flush_in(env, p.flush_interval) {
                    Err(f) => Err(f),
                    Ok(flush_interval) => Ok(
                        PipelineView { batch_size, flush_interval, buffer_size, workers },
                    ),
                },
            },
        },
    }
}

/// A configuration with the ports of the environment.
pub open spec fn with_ports(c: ConfigView, env: Seq<(Seq<char>, Seq<char>)>) -> ConfigView {
    ConfigView {
        server: config::ServerView {
            listen_addr: port_or(lookup(env, "PORT"@), c.server.listen_addr),
            ..c.server
        },
        health: HealthView {
            listen_addr: port_or(lookup(env, "WATCHTOWER_HEALTH_PORT"@), c.health.listen_addr),
            ..c.health
        },
        ..c
    }
}

/// The configuration that the environment describes, or the first fault in it.
pub open spec fn config_in(env: Seq<(Seq<char>, Seq<char>)>) -> Result<ConfigView, ConfigFault> {
    let d = with_ports(config::default_config(), env);
    match pipeline_in(d.pipeline, env) {
        Err(f) => Err(f),
        Ok(pipeline) => match viewer_in(d.viewer, env).1 {
            Some(f) => Err(f),
            None => match sinks_in(env, 17) {
                Err(f) => Err(f),
                Ok(sinks) => {
                    let c = ConfigView {
                        server: d.server,
                        pipeline,
                        health: HealthView {
                            enabled: switch_or(
                                lookup(env, "WATCHTOWER_HEALTH_ENABLED"@),
                                d.health.enabled,
                            ),
                            ..d.health
                        },
                        spillover: SpilloverView {
                            enabled: switch_or(
                                lookup(env, "WATCHTOWER_SPILLOVER_ENABLED"@),
                                d.spillover.enabled,
                            ),
                            path: text_or(
                                lookup(env, "WATCHTOWER_SPILLOVER_PATH"@),
                                d.spillover.path,
                            ),
                        },
                        sinks,
                        viewer: viewer_in(d.viewer, env).0,
                    };
                    match config::config_fault(c) {
                        Some(words) => Err(ConfigFault::Message(words)),
                        None => Ok(c),
                    }
                },
            },
        },
    }
}

fn get_pipeline_size(v: Option<String>, usual: usize, words: &str) -> (r: Result<
    usize,
    ConfigError,
>)
    ensures
        match number_or(text::optional(v), usize::MAX as nat, usual as nat) {
            Some(n) => r matches Ok(x) && x == n,
            None => r matches Err(e) && e@ == ConfigFault::Message(words@),
        },
{
    match get_size(v, usual) {
        Some(n) => Ok(n),
        None => Err(ConfigError::Message(words.to_owned())),
    }
}

fn fault_of(f: DurationFault) -> (e: ConfigError)
    ensures
        match f {
            DurationFault::Invalid(m) => e@ == ConfigFault::Message(m@),
            DurationFault::Overflow => e@ == ConfigFault::Overflow,
        },
{
    match f {
        DurationFault::Invalid(m) => ConfigError::Message(m),
        DurationFault::Overflow => ConfigError::Overflow,
    }
}

impl Config {
    /// The sink whose variables have a prefix.
    pub fn parse_sink_env(env: &Env, prefix: &str) -> (r: Result<Option<SinkConfig>, ConfigError>)
        ensures
            match sink_in(env@, prefix@) {
                Ok(Some(c)) => r matches Ok(Some(x)) && x@ == c,
                Ok(None) => r matches Ok(None),
                Err(f) => r matches Err(e) && e@ == f,
            },
    {
        let kind: String = match get_setting(env, prefix, "_TYPE") {
            Some(t) => text::lower(t.as_str()),
            None => {
                return Ok(None);
            },
        };
        let opensearch: bool = text::same(kind.as_str(), "opensearch");
        if opensearch || text::same(kind.as_str(), "elasticsearch") {
            match get_elastic(env, prefix) {
                Ok(Some(c)) => if opensearch {
                    Ok(Some(SinkConfig::OpenSearch(c)))
                } else {
                    Ok(Some(SinkConfig::Elasticsearch(c)))
                },
                Ok(None) => Ok(None),
                Err(e) => Err(e),
            }
        } else if text::same(kind.as_str(), "watchtower") {
            match get_forward(env, prefix) {
                Ok(Some(c)) => Ok(Some(SinkConfig::Watchtower(c))),
                Ok(None) => Ok(None),
                Err(e) => Err(e),
            }
        } else {
            Ok(None)
        }
    }

    /// The sinks of the environment: the one with the plain prefix
    /// `WATCHTOWER_SINK`, then those from `WATCHTOWER_SINK_0` to
    /// `WATCHTOWER_SINK_15`.
    pub fn sinks_from_env(env: &Env) -> (r: Result<Vec<SinkConfig>, ConfigError>)
        ensures
            match sinks_in(env@, 17) {
                Ok(s) => r matches Ok(x) && config::sinks_view(x@) == s,
                Err(f) => r matches Err(e) && e@ == f,
            },
    {
        let mut sinks: Vec<SinkConfig> = Vec::new();
        let mut k: usize = 0;
        assert(config::sinks_view(sinks@) =~= seq![]);
        while k < 17
            invariant
                k <= 17,
                sinks_in(env@, k as nat) == Ok::<Seq<SinkView>, ConfigFault>(
                    config::sinks_view(sinks@),
                ),
            decreases 17 - k,
        {
            let prefix: String = if k == 0 {
                "WATCHTOWER_SINK".to_owned()
            } else {
                text::join2("WATCHTOWER_SINK_", number::decimal_text(k as u64 - 1).as_str())
            };
            let ghost before = sinks@;
            match Self::parse_sink_env(env, prefix.as_str()) {
                Ok(Some(c)) => {
                    sinks.push(c);
                    assert(config::sinks_view(sinks@) =~= config::sinks_view(before).push(c@));
                },
                Ok(None) => {},
                Err(e) => {
                    proof {
                        lemma_first_fault(env@, (k + 1) as nat, 17);
                    }
                    return Err(e);
                },
            }
            k += 1;
        }
        Ok(sinks)
    }

    /// Applies the variables `WATCHTOWER_VIEWER_*`. A port listens on every
    /// interface; a full address counts for more than a port. The credential is
    /// set only by its user name and its password together.
    pub fn apply_viewer_env(viewer: &mut ViewerConfig, env: &Env) -> (r: Result<(), ConfigError>)
        ensures
            final(viewer)@ == viewer_in(old(viewer)@, env@).0,
            match viewer_in(old(viewer)@, env@).1 {
                Some(f) => r matches Err(e) && e@ == f,
                None => r is Ok,
            },
    {
        viewer.enabled = get_switch(env.get("WATCHTOWER_VIEWER_ENABLED"), viewer.enabled);
        viewer.listen_addr = get_port(
            env.get("WATCHTOWER_VIEWER_PORT"),
            viewer.listen_addr.clone(),
        );
        viewer.listen_addr = get_text(
            env.get("WATCHTOWER_VIEWER_LISTEN_ADDR"),
            viewer.listen_addr.clone(),
        );
        viewer.db_path = get_text(env.get("WATCHTOWER_VIEWER_DB_PATH"), viewer.db_path.clone());
        if let Some(v) = env.get("WATCHTOWER_VIEWER_MAX_RECORDS") {
            match number::parse_u64(text::chars_of(v.as_str()).as_slice()) {
                Ok(n) => {
                    viewer.retention.max_records = n;
                },
                Err(_) => {
                    return Err(
                        ConfigError::Message("invalid WATCHTOWER_VIEWER_MAX_RECORDS".to_owned()),
                    );
                },
            }
        }
        if let Some(v) = env.get("WATCHTOWER_VIEWER_MAX_AGE") {
            match duration::checked_duration(v.as_str()) {
                Ok(d) => {
                    viewer.retention.max_age = d;
                },
                Err(f) => {
                    return Err(fault_of(f));
                },
            }
        }
        match (
            env.get("WATCHTOWER_VIEWER_AUTH_USERNAME"),
            env.get("WATCHTOWER_VIEWER_AUTH_PASSWORD"),
        ) {
            (Some(username), Some(password)) => {
                viewer.auth = Some(BasicAuthConfig { username, password });
            },
            _ => {},
        }
        Ok(())
    }

    /// Applies the ports of the environment on top of a configuration from a
    /// file.
    pub fn apply_env_overrides(&mut self, env: &Env)
        ensures
            final(self)@ == with_ports(old(self)@, env@),
    {
        self.server.listen_addr = get_port(env.get("PORT"), self.server.listen_addr.clone());
        self.health.listen_addr = get_port(
            env.get("WATCHTOWER_HEALTH_PORT"),
            self.health.listen_addr.clone(),
        );
    }

    /// A complete configuration from the environment alone.
    pub fn from_env(env: &Env) -> (r: Result<Config, ConfigError>)
        ensures
            match config_in(env@) {
                Ok(c) => r matches Ok(x) && x@ == c,
                Err(f) => r matches Err(e) && e@ == f,
            },
    {
        let mut cfg: Config = Config::default();
        cfg.apply_env_overrides(env);
        cfg.health.enabled = get_switch(
            env.get("WATCHTOWER_HEALTH_ENABLED"),
            cfg.health.enabled,
        );
        cfg.pipeline.workers = match get_pipeline_size(
            env.get("WATCHTOWER_WORKERS"),
            cfg.pipeline.workers,
            "invalid WATCHTOWER_WORKERS",
        ) {
            Ok(n) => n,
            Err(e) => {
                return Err(e);
            },
        };
        cfg.pipeline.batch_size = match get_pipeline_size(
            env.get("WATCHTOWER_BATCH_SIZE"),
            cfg.pipeline.batch_size,
            "invalid WATCHTOWER_BATCH_SIZE",
        ) {
            Ok(n) => n,
            Err(e) => {
                return Err(e);
            },
        };
        cfg.pipeline.buffer_size = match get_pipeline_size(
            env.get("WATCHTOWER_BUFFER_SIZE"),
            cfg.pipeline.buffer_size,
            "invalid WATCHTOWER_BUFFER_SIZE",
        ) {
            Ok(n) => n,
            Err(e) => {
                return Err(e);
            },
        };
        if let Some(v) = env.get("WATCHTOWER_FLUSH_INTERVAL") {
            cfg.pipeline.flush_interval = match duration::parse_duration_str(v.as_str()) {
                Ok(d) => d,
                Err(f) => {
                    return Err(fault_of(f));
                },
            };
        }
        cfg.spillover.enabled = get_switch(
            env.get("WATCHTOWER_SPILLOVER_ENABLED"),
            cfg.spillover.enabled,
        );
        cfg.spillover.path = get_text(
            env.get("WATCHTOWER_SPILLOVER_PATH"),
            cfg.spillover.path.clone(),
        );
        match Self::apply_viewer_env(&mut cfg.viewer, env) {
            Ok(()) => {},
            Err(e) => {
                return Err(e);
            },
        }
        cfg.sinks = match Self::sinks_from_env(env) {
            Ok(s) => s,
            Err(e) => {
                return Err(e);
            },
        };
        match cfg.validate() {
            Ok(()) => Ok(cfg),
            Err(m) => Err(ConfigError::Message(m)),
        }
    }
}

// ---------------------------------------------------------------------------
// Laws
// ---------------------------------------------------------------------------

/// A configuration that comes out of the environment is one that `validate`
/// accepts.
pub proof fn law_env_config_is_accepted(env: Seq<(Seq<char>, Seq<char>)>)
    ensures
        config_in(env) matches Ok(c) ==> config::config_fault(c) is None,
{
}

/// `PORT` decides where the server listens, whatever the configuration said
/// before and wherever the configuration comes from.
pub proof fn law_port_wins(c: ConfigView, env: Seq<(Seq<char>, Seq<char>)>, port: Seq<char>)
    requires
        lookup(env, "PORT"@) == Some(port),
    ensures
        with_ports(c, env).server.listen_addr == "[::]:"@ + port,
        config_in(env) matches Ok(e) ==> e.server.listen_addr == "[::]:"@ + port,
{
}

/// A full address of the viewer counts for more than its port.
pub proof fn law_listen_addr_overrides_port(
    v: ViewerView,
    env: Seq<(Seq<char>, Seq<char>)>,
    addr: Seq<char>,
)
    requires
        lookup(env, "WATCHTOWER_VIEWER_LISTEN_ADDR"@) == Some(addr),
    ensures
        viewer_in(v, env).0.listen_addr == addr,
{
}

/// A user name without a password, or a password without a user name, leaves the
/// credential as it was.
pub proof fn law_partial_credential_is_ignored(v: ViewerView, env: Seq<(Seq<char>, Seq<char>)>)
    requires
        lookup(env, "WATCHTOWER_VIEWER_AUTH_USERNAME"@) is None || lookup(
            env,
            "WATCHTOWER_VIEWER_AUTH_PASSWORD"@,
        ) is None,
    ensures
        viewer_in(v, env).0.auth == v.auth,
{
}

/// Every sink that comes out of the environment has somewhere to deliver to.
pub proof fn law_env_sinks_are_complete(env: Seq<(Seq<char>, Seq<char>)>, n: nat)
    ensures
        sinks_in(env, n) matches Ok(s) ==> forall|i: int|
            0 <= i < s.len() ==> config::sink_lacks(#[trigger] s[i]) is None,
    decreases n,
{
    if n > 0 {
        law_env_sinks_are_complete(env, (n - 1) as nat);
    }
}

} // verus!
