//! Agent configuration.

pub mod env;

use std::time::Duration;

use vstd::prelude::*;

use crate::duration;
use crate::duration::DurationFault;
use crate::number;
use crate::text;

verus! {

/// Top-level Watchtower agent configuration.
#[derive(Debug)]
pub struct Config {
    pub server: ServerConfig,
    pub pipeline: PipelineConfig,
    pub health: HealthConfig,
    pub spillover: SpilloverConfig,
    pub sinks: Vec<SinkConfig>,
    pub viewer: ViewerConfig,
}

/// gRPC listener settings.
#[derive(Debug)]
pub struct ServerConfig {
    pub listen_addr: String,
    pub max_recv_msg_size: usize,
    pub max_concurrent_streams: u32,
    pub keepalive_interval: Duration,
    pub keepalive_timeout: Duration,
    pub enable_compression: bool,
    /// Path to the TLS certificate (PEM).
    pub tls_cert: Option<String>,
    /// Path to the TLS private key (PEM).
    pub tls_key: Option<String>,
    /// Path to the CA certificate for verifying client certificates.
    pub tls_ca: Option<String>,
}

/// Batching and buffering between ingestion and sinks.
#[derive(Debug)]
pub struct PipelineConfig {
    pub batch_size: usize,
    pub flush_interval: Duration,
    pub buffer_size: usize,
    pub workers: usize,
}

/// Health and metrics HTTP server settings.
#[derive(Debug)]
pub struct HealthConfig {
    pub enabled: bool,
    pub listen_addr: String,
}

/// Built-in log viewer (SQLite store and web page) settings.
#[derive(Debug)]
pub struct ViewerConfig {
    pub enabled: bool,
    pub listen_addr: String,
    pub db_path: String,
    pub retention: RetentionConfig,
    pub auth: Option<BasicAuthConfig>,
}

/// How many stored records are kept, and for how long.
#[derive(Debug)]
pub struct RetentionConfig {
    pub max_records: u64,
    pub max_age: Duration,
}

/// The credential that the viewer asks for.
#[derive(Debug)]
pub struct BasicAuthConfig {
    pub username: String,
    pub password: String,
}

/// Disk spillover settings for crash resilience.
#[derive(Debug)]
pub struct SpilloverConfig {
    pub enabled: bool,
    pub path: String,
}

/// Downstream delivery target.
#[derive(Debug)]
pub enum SinkConfig {
    Elasticsearch(ElasticSinkConfig),
    OpenSearch(ElasticSinkConfig),
    Watchtower(ForwardSinkConfig),
}

/// Settings shared by Elasticsearch and OpenSearch (same bulk API).
#[derive(Debug)]
pub struct ElasticSinkConfig {
    pub addresses: Vec<String>,
    pub index: String,
    pub username: Option<String>,
    pub password: Option<String>,
    pub tls: bool,
    pub batch_size: usize,
    pub flush_interval: Duration,
    pub retry_attempts: u32,
    pub retry_backoff: Duration,
}

/// Settings for forwarding to a larger Watchtower instance.
#[derive(Debug)]
pub struct ForwardSinkConfig {
    pub target: String,
    pub enable_compression: bool,
    pub timeout: Duration,
    pub tls_cert: Option<String>,
    pub tls_ca: Option<String>,
    pub retry_attempts: u32,
    pub retry_backoff: Duration,
}

// ---------------------------------------------------------------------------
// What the settings hold: texts as characters, spans as nanoseconds
// ---------------------------------------------------------------------------

/// What `Config` holds.
pub ghost struct ConfigView {
    pub server: ServerView,
    pub pipeline: PipelineView,
    pub health: HealthView,
    pub spillover: SpilloverView,
    pub sinks: Seq<SinkView>,
    pub viewer: ViewerView,
}

/// What `ServerConfig` holds.
pub ghost struct ServerView {
    pub listen_addr: Seq<char>,
    pub max_recv_msg_size: usize,
    pub max_concurrent_streams: u32,
    pub keepalive_interval: nat,
    pub keepalive_timeout: nat,
    pub enable_compression: bool,
    pub tls_cert: Option<Seq<char>>,
    pub tls_key: Option<Seq<char>>,
    pub tls_ca: Option<Seq<char>>,
}

/// What `PipelineConfig` holds.
pub ghost struct PipelineView {
    pub batch_size: usize,
    pub flush_interval: nat,
    pub buffer_size: usize,
    pub workers: usize,
}

/// What `HealthConfig` holds.
pub ghost struct HealthView {
    pub enabled: bool,
    pub listen_addr: Seq<char>,
}

/// What `ViewerConfig` holds; a credential is its user name and its password.
pub ghost struct ViewerView {
    pub enabled: bool,
    pub listen_addr: Seq<char>,
    pub db_path: Seq<char>,
    pub max_records: u64,
    pub max_age: nat,
    pub auth: Option<(Seq<char>, Seq<char>)>,
}

/// What `SpilloverConfig` holds.
pub ghost struct SpilloverView {
    pub enabled: bool,
    pub path: Seq<char>,
}

/// What `SinkConfig` holds.
pub ghost enum SinkView {
    Elasticsearch(ElasticView),
    OpenSearch(ElasticView),
    Watchtower(ForwardView),
}

/// What `ElasticSinkConfig` holds.
pub ghost struct ElasticView {
    pub addresses: Seq<Seq<char>>,
    pub index: Seq<char>,
    pub username: Option<Seq<char>>,
    pub password: Option<Seq<char>>,
    pub tls: bool,
    pub batch_size: usize,
    pub flush_interval: nat,
    pub retry_attempts: u32,
    pub retry_backoff: nat,
}

/// What `ForwardSinkConfig` holds.
pub ghost struct ForwardView {
    pub target: Seq<char>,
    pub enable_compression: bool,
    pub timeout: nat,
    pub tls_cert: Option<Seq<char>>,
    pub tls_ca: Option<Seq<char>>,
    pub retry_attempts: u32,
    pub retry_backoff: nat,
}

impl View for ServerConfig {
    type V = ServerView;

    open spec fn view(&self) -> ServerView {
        ServerView {
            listen_addr: self.listen_addr@,
            max_recv_msg_size: self.max_recv_msg_size,
            max_concurrent_streams: self.max_concurrent_streams,
            keepalive_interval: duration::duration_nanos(self.keepalive_interval),
            keepalive_timeout: duration::duration_nanos(self.keepalive_timeout),
            enable_compression: self.enable_compression,
            tls_cert: text::optional(self.tls_cert),
            tls_key: text::optional(self.tls_key),
            tls_ca: text::optional(self.tls_ca),
        }
    }
}

impl View for PipelineConfig {
    type V = PipelineView;

    open spec fn view(&self) -> PipelineView {
        PipelineView {
            batch_size: self.batch_size,
            flush_interval: duration::duration_nanos(self.flush_interval),
            buffer_size: self.buffer_size,
            workers: self.workers,
        }
    }
}

impl View for HealthConfig {
    type V = HealthView;

    open spec fn view(&self) -> HealthView {
        HealthView { enabled: self.enabled, listen_addr: self.listen_addr@ }
    }
}

impl View for BasicAuthConfig {
    type V = (Seq<char>, Seq<char>);

    open spec fn view(&self) -> (Seq<char>, Seq<char>) {
        (self.username@, self.password@)
    }
}

impl View for ViewerConfig {
    type V = ViewerView;

    open spec fn view(&self) -> ViewerView {
        ViewerView {
            enabled: self.enabled,
            listen_addr: self.listen_addr@,
            db_path: self.db_path@,
            max_records: self.retention.max_records,
            max_age: duration::duration_nanos(self.retention.max_age),
            auth: match self.auth {
                Some(a) => Some(a@),
                None => None,
            },
        }
    }
}

impl View for SpilloverConfig {
    type V = SpilloverView;

    open spec fn view(&self) -> SpilloverView {
        SpilloverView { enabled: self.enabled, path: self.path@ }
    }
}

impl View for ElasticSinkConfig {
    type V = ElasticView;

    open spec fn view(&self) -> ElasticView {
        ElasticView {
            addresses: text::all(self.addresses@),
            index: self.index@,
            username: text::optional(self.username),
            password: text::optional(self.password),
            tls: self.tls,
            batch_size: self.batch_size,
            flush_interval: duration::duration_nanos(self.flush_interval),
            retry_attempts: self.retry_attempts,
            retry_backoff: duration::duration_nanos(self.retry_backoff),
        }
    }
}

impl View for ForwardSinkConfig {
    type V = ForwardView;

    open spec fn view(&self) -> ForwardView {
        ForwardView {
            target: self.target@,
            enable_compression: self.enable_compression,
            timeout: duration::duration_nanos(self.timeout),
            tls_cert: text::optional(self.tls_cert),
            tls_ca: text::optional(self.tls_ca),
            retry_attempts: self.retry_attempts,
            retry_backoff: duration::duration_nanos(self.retry_backoff),
        }
    }
}

impl View for SinkConfig {
    type V = SinkView;

    open spec fn view(&self) -> SinkView {
        match self {
            SinkConfig::Elasticsearch(c) => SinkView::Elasticsearch(c@),
            SinkConfig::OpenSearch(c) => SinkView::OpenSearch(c@),
            SinkConfig::Watchtower(c) => SinkView::Watchtower(c@),
        }
    }
}

/// What a list of sinks holds.
pub open spec fn sinks_view(s: Seq<SinkConfig>) -> Seq<SinkView> {
    s.map_values(|c: SinkConfig| c@)
}

impl View for Config {
    type V = ConfigView;

    open spec fn view(&self) -> ConfigView {
        ConfigView {
            server: self.server@,
            pipeline: self.pipeline@,
            health: self.health@,
            spillover: self.spillover@,
            sinks: sinks_view(self.sinks@),
            viewer: self.viewer@,
        }
    }
}

// ---------------------------------------------------------------------------
// Copies
// ---------------------------------------------------------------------------

impl Clone for BasicAuthConfig {
    fn clone(&self) -> (r: Self)
        ensures
            r@ == self@,
    {
        BasicAuthConfig { username: self.username.clone(), password: self.password.clone() }
    }
}

impl Clone for RetentionConfig {
    fn clone(&self) -> (r: Self)
        ensures
            r == *self,
    {
        RetentionConfig { max_records: self.max_records, max_age: self.max_age }
    }
}

impl Clone for ViewerConfig {
    fn clone(&self) -> (r: Self)
        ensures
            r@ == self@,
    {
        let auth: Option<BasicAuthConfig> = match &self.auth {
            Some(a) => Some(a.clone()),
            None => None,
        };
        ViewerConfig {
            enabled: self.enabled,
            listen_addr: self.listen_addr.clone(),
            db_path: self.db_path.clone(),
            retention: self.retention.clone(),
            auth,
        }
    }
}

impl Clone for ElasticSinkConfig {
    fn clone(&self) -> (r: Self)
        ensures
            r@ == self@,
    {
        ElasticSinkConfig {
            addresses: text::copy_all(self.addresses.as_slice()),
            index: self.index.clone(),
            username: text::copy_optional(&self.username),
            password: text::copy_optional(&self.password),
            tls: self.tls,
            batch_size: self.batch_size,
            flush_interval: self.flush_interval,
            retry_attempts: self.retry_attempts,
            retry_backoff: self.retry_backoff,
        }
    }
}

impl Clone for ForwardSinkConfig {
    fn clone(&self) -> (r: Self)
        ensures
            r@ == self@,
    {
        ForwardSinkConfig {
            target: self.target.clone(),
            enable_compression: self.enable_compression,
            timeout: self.timeout,
            tls_cert: text::copy_optional(&self.tls_cert),
            tls_ca: text::copy_optional(&self.tls_ca),
            retry_attempts: self.retry_attempts,
            retry_backoff: self.retry_backoff,
        }
    }
}

impl Clone for SinkConfig {
    fn clone(&self) -> (r: Self)
        ensures
            r@ == self@,
    {
        match self {
            SinkConfig::Elasticsearch(c) => SinkConfig::Elasticsearch(c.clone()),
            SinkConfig::OpenSearch(c) => SinkConfig::OpenSearch(c.clone()),
            SinkConfig::Watchtower(c) => SinkConfig::Watchtower(c.clone()),
        }
    }
}

// ---------------------------------------------------------------------------
// Defaults
// ---------------------------------------------------------------------------

/// `n` seconds, in nanoseconds.
pub open spec fn seconds(n: nat) -> nat {
    n * 1_000_000_000
}

/// The settings of the viewer where nothing else is said: it is off, listens on
/// the loopback interface alone, and stores in memory.
pub open spec fn default_viewer() -> ViewerView {
    ViewerView {
        enabled: false,
        listen_addr: "127.0.0.1:9092"@,
        db_path: ":memory:"@,
        max_records: 1_000_000,
        max_age: seconds(7 * 86_400),
        auth: None,
    }
}

/// The settings of the agent where nothing else is said.
pub open spec fn default_config() -> ConfigView {
    ConfigView {
        server: ServerView {
            listen_addr: "[::]:9090"@,
            max_recv_msg_size: 4_194_304,
            max_concurrent_streams: 100,
            keepalive_interval: seconds(30),
            keepalive_timeout: seconds(10),
            enable_compression: true,
            tls_cert: None,
            tls_key: None,
            tls_ca: None,
        },
        pipeline: PipelineView {
            batch_size: 1024,
            flush_interval: seconds(2),
            buffer_size: 8192,
            workers: 2,
        },
        health: HealthView { enabled: true, listen_addr: "[::]:9091"@ },
        spillover: SpilloverView { enabled: false, path: "/var/lib/watchtower/spillover.bin"@ },
        sinks: seq![],
        viewer: default_viewer(),
    }
}

impl Default for RetentionConfig {
    fn default() -> (r: Self)
        ensures
            r.max_records == default_viewer().max_records,
            duration::duration_nanos(r.max_age) == default_viewer().max_age,
    {
        RetentionConfig { max_records: 1_000_000, max_age: Duration::from_secs(7 * 86_400) }
    }
}

impl Default for ViewerConfig {
    fn default() -> (r: Self)
        ensures
            r@ == default_viewer(),
    {
        ViewerConfig {
            enabled: false,
            listen_addr: "127.0.0.1:9092".to_owned(),
            db_path: ":memory:".to_owned(),
            retention: RetentionConfig::default(),
            auth: None,
        }
    }
}

impl Default for HealthConfig {
    fn default() -> (r: Self)
        ensures
            r@ == default_config().health,
    {
        HealthConfig { enabled: true, listen_addr: "[::]:9091".to_owned() }
    }
}

impl Default for SpilloverConfig {
    fn default() -> (r: Self)
        ensures
            r@ == default_config().spillover,
    {
        SpilloverConfig { enabled: false, path: "/var/lib/watchtower/spillover.bin".to_owned() }
    }
}

impl Default for ServerConfig {
    fn default() -> (r: Self)
        ensures
            r@ == default_config().server,
    {
        ServerConfig {
            listen_addr: "[::]:9090".to_owned(),
            max_recv_msg_size: 4 * 1024 * 1024,
            max_concurrent_streams: 100,
            keepalive_interval: Duration::from_secs(30),
            keepalive_timeout: Duration::from_secs(10),
            enable_compression: true,
            tls_cert: None,
            tls_key: None,
            tls_ca: None,
        }
    }
}

impl Default for PipelineConfig {
    fn default() -> (r: Self)
        ensures
            r@ == default_config().pipeline,
    {
        PipelineConfig {
            batch_size: 1024,
            flush_interval: Duration::from_secs(2),
            buffer_size: 8192,
            workers: 2,
        }
    }
}

impl Default for Config {
    fn default() -> (r: Self)
        ensures
            r@ == default_config(),
    {
        let sinks: Vec<SinkConfig> = Vec::new();
        assert(sinks_view(sinks@) =~= seq![]);
        Config {
            server: ServerConfig::default(),
            pipeline: PipelineConfig::default(),
            health: HealthConfig::default(),
            spillover: SpilloverConfig::default(),
            sinks,
            viewer: ViewerConfig::default(),
        }
    }
}

/// The index into which records go where no other is named.
pub fn default_index() -> (r: String)
    ensures
        r@ == "watchtower-logs"@,
{
    "watchtower-logs".to_owned()
}

/// The number of records of a bulk request where no other is given.
pub fn default_sink_batch_size() -> (r: usize)
    ensures
        r == 512,
{
    512
}

/// The longest time that a sink holds records back where no other is given.
pub fn default_flush_interval() -> (r: Duration)
    ensures
        duration::duration_nanos(r) == seconds(5),
{
    Duration::from_secs(5)
}

/// The number of retries where no other is given.
pub fn default_retry_attempts() -> (r: u32)
    ensures
        r == 3,
{
    3
}

/// The pause before the first retry where no other is given.
pub fn default_retry_backoff() -> (r: Duration)
    ensures
        duration::duration_nanos(r) == seconds(1),
{
    Duration::from_secs(1)
}

/// The longest time that a forwarded batch may take where no other is given.
pub fn default_forward_timeout() -> (r: Duration)
    ensures
        duration::duration_nanos(r) == seconds(10),
{
    Duration::from_secs(10)
}

/// Forwarded batches are compressed where nothing else is said.
pub fn default_true() -> (r: bool)
    ensures
        r,
{
    true
}

// ---------------------------------------------------------------------------
// Durations
// ---------------------------------------------------------------------------

/// The span that a text such as `5s`, `100ms`, `2m`, `3h` or `7d` names, or the
/// words that say what is wrong with it. A bare number counts seconds.
pub fn parse_duration(s: &str) -> (r: Result<Duration, String>)
    requires
        duration::reading_fits(duration::read_duration(s@)),
    ensures
        match duration::read_duration(s@) {
            Ok(n) => r matches Ok(d) && duration::duration_nanos(d) == n,
            Err(words) => r matches Err(m) && m@ == words,
        },
{
    match duration::checked_duration(s) {
        Ok(d) => Ok(d),
        Err(DurationFault::Invalid(m)) => Err(m),
        Err(DurationFault::Overflow) => Err(String::new()),
    }
}

// ---------------------------------------------------------------------------
// TLS
// ---------------------------------------------------------------------------

/// How the server secures its connections; the texts are paths of PEM files.
#[derive(Debug)]
pub enum TlsMode {
    /// Not at all.
    Plaintext,
    /// The server shows a certificate.
    Server { cert: String, key: String },
    /// The server shows a certificate, and so does every client.
    Mutual { cert: String, key: String, ca: String },
}

impl ServerConfig {
    /// How the server secures its connections: only with both a certificate and a
    /// key, and mutually if there is a certificate authority as well.
    pub fn tls_mode(&self) -> (r: TlsMode)
        ensures
            match (self@.tls_cert, self@.tls_key, self@.tls_ca) {
                (Some(c), Some(k), Some(a)) => r matches TlsMode::Mutual { cert, key, ca }
                    && cert@ == c && key@ == k && ca@ == a,
                (Some(c), Some(k), None) => r matches TlsMode::Server { cert, key } && cert@ == c
                    && key@ == k,
                _ => r is Plaintext,
            },
    {
        match (&self.tls_cert, &self.tls_key) {
            (Some(cert), Some(key)) => match &self.tls_ca {
                Some(ca) => TlsMode::Mutual {
                    cert: cert.clone(),
                    key: key.clone(),
                    ca: ca.clone(),
                },
                None => TlsMode::Server { cert: cert.clone(), key: key.clone() },
            },
            _ => TlsMode::Plaintext,
        }
    }
}

// ---------------------------------------------------------------------------
// Validation
// ---------------------------------------------------------------------------

/// What a sink lacks, if anything.
pub open spec fn sink_lacks(s: SinkView) -> Option<Seq<char>> {
    match s {
        SinkView::Elasticsearch(c) | SinkView::OpenSearch(c) => if c.addresses.len() == 0 {
            Some("addresses required"@)
        } else {
            None
        },
        SinkView::Watchtower(c) => if c.target.len() == 0 {
            Some("target required"@)
        } else {
            None
        },
    }
}

/// What is wrong with the first incomplete sink from position `i` on, if there
/// is one.
pub open spec fn sinks_fault(s: Seq<SinkView>, i: nat) -> Option<Seq<char>>
    decreases s.len() - i,
{
    if i >= s.len() {
        None
    } else {
        match sink_lacks(s[i as int]) {
            Some(words) => Some("sink["@ + number::decimal(i) + "]: "@ + words),
            None => sinks_fault(s, i + 1),
        }
    }
}

/// The first thing that is wrong with a configuration, if anything is.
pub open spec fn config_fault(c: ConfigView) -> Option<Seq<char>> {
    if c.sinks.len() == 0 && !c.viewer.enabled {
        Some("no sinks configured and viewer disabled: logs would be discarded"@)
    } else if c.pipeline.batch_size == 0 {
        Some("pipeline.batch_size must be > 0"@)
    } else if c.pipeline.buffer_size == 0 {
        Some("pipeline.buffer_size must be > 0"@)
    } else if c.pipeline.workers == 0 {
        Some("pipeline.workers must be > 0"@)
    } else {
        sinks_fault(c.sinks, 0)
    }
}

fn lacks(sink: &SinkConfig) -> (r: Option<&'static str>)
    ensures
        match sink_lacks(sink@) {
            Some(words) => r matches Some(w) && w@ == words,
            None => r is None,
        },
{
    match sink {
        SinkConfig::Elasticsearch(c) | SinkConfig::OpenSearch(c) => if c.addresses.len() == 0 {
            Some("addresses required")
        } else {
            None
        },
        SinkConfig::Watchtower(c) => if text::is_empty(c.target.as_str()) {
            Some("target required")
        } else {
            None
        },
    }
}

impl Config {
    /// Accepts a configuration with which the agent can work, and otherwise says
    /// what is wrong with it.
    pub fn validate(&self) -> (r: Result<(), String>)
        ensures
            match config_fault(self@) {
                Some(words) => r matches Err(m) && m@ == words,
                None => r is Ok,
            },
    {
        if self.sinks.len() == 0 && !self.viewer.enabled {
            return Err(
                "no sinks configured and viewer disabled: logs would be discarded".to_owned(),
            );
        }
        if self.pipeline.batch_size == 0 {
            return Err("pipeline.batch_size must be > 0".to_owned());
        }
        if self.pipeline.buffer_size == 0 {
            return Err("pipeline.buffer_size must be > 0".to_owned());
        }
        if self.pipeline.workers == 0 {
            return Err("pipeline.workers must be > 0".to_owned());
        }
        let ghost all = sinks_view(self.sinks@);
        let mut i: usize = 0;
        while i < self.sinks.len()
            invariant
                i <= self.sinks@.len(),
                all == sinks_view(self.sinks@),
                self@.sinks == all,
                config_fault(self@) == sinks_fault(all, i as nat),
            decreases self.sinks@.len() - i,
        {
            assert(all[i as int] == self.sinks@[i as int]@);
            if let Some(words) = lacks(&self.sinks[i]) {
                let mut m: String = text::join3(
                    "sink[",
                    number::decimal_text(i as u64).as_str(),
                    "]: ",
                );
                m.append(words);
                return Err(m);
            }
            i += 1;
        }
        Ok(())
    }
}

/// A configuration is accepted exactly if it has a sink or the viewer, sizes
/// above zero, and no incomplete sink.
pub proof fn law_what_is_accepted(c: ConfigView)
    ensures
        config_fault(c) is None <==> {
            &&& c.sinks.len() > 0 || c.viewer.enabled
            &&& c.pipeline.batch_size > 0
            &&& c.pipeline.buffer_size > 0
            &&& c.pipeline.workers > 0
            &&& forall|i: int| 0 <= i < c.sinks.len() ==> sink_lacks(#[trigger] c.sinks[i]) is None
        },
{
    lemma_sinks_fault(c.sinks, 0);
}

proof fn lemma_sinks_fault(s: Seq<SinkView>, i: nat)
    ensures
        sinks_fault(s, i) is None <==> forall|k: int|
            i <= k < s.len() ==> sink_lacks(#[trigger] s[k]) is None,
    decreases s.len() - i,
{
    if i < s.len() {
        lemma_sinks_fault(s, i + 1);
    }
}

} // verus!
