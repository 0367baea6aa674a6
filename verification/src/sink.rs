//! Delivery of log batches to downstream targets.

pub mod elastic;
pub mod encode;
pub mod forward;
pub mod retry;
pub mod store;

use vstd::prelude::*;

use crate::config::{SinkConfig, SinkView};
use crate::number;
use crate::text;

verus! {

/// Why a batch was not delivered.
#[derive(Debug)]
pub enum SinkError {
    Network(String),
    Serialization(String),
    Rejected(String),
}

/// What `SinkError` says.
pub ghost enum SinkFault {
    Network(Seq<char>),
    Serialization(Seq<char>),
    Rejected(Seq<char>),
}

impl View for SinkError {
    type V = SinkFault;

    open spec fn view(&self) -> SinkFault {
        match self {
            SinkError::Network(m) => SinkFault::Network(m@),
            SinkError::Serialization(m) => SinkFault::Serialization(m@),
            SinkError::Rejected(m) => SinkFault::Rejected(m@),
        }
    }
}

/// The words with which a fault is reported.
pub open spec fn sink_fault_text(f: SinkFault) -> Seq<char> {
    match f {
        SinkFault::Network(m) => "network error: "@ + m,
        SinkFault::Serialization(m) => "serialization error: "@ + m,
        SinkFault::Rejected(m) => "upstream rejected: "@ + m,
    }
}

impl SinkError {
    /// The words with which the error is reported.
    pub fn message(&self) -> (r: String)
        ensures
            r@ == sink_fault_text(self@),
    {
        match self {
            SinkError::Network(m) => text::join2("network error: ", m.as_str()),
            SinkError::Serialization(m) => text::join2("serialization error: ", m.as_str()),
            SinkError::Rejected(m) => text::join2("upstream rejected: ", m.as_str()),
        }
    }
}

/// The name of a sink at a position of the configuration.
pub open spec fn name_at(c: SinkView, position: nat) -> Seq<char> {
    match c {
        SinkView::Elasticsearch(_) => "elasticsearch-"@ + number::decimal(position),
        SinkView::OpenSearch(_) => "opensearch-"@ + number::decimal(position),
        SinkView::Watchtower(_) => "watchtower-forward"@,
    }
}

/// The name of a sink at a position of the configuration.
pub fn sink_name(cfg: &SinkConfig, position: usize) -> (r: String)
    ensures
        r@ == name_at(cfg@, position as nat),
{
    match cfg {
        SinkConfig::Elasticsearch(_) => text::join2(
            "elasticsearch-",
            number::decimal_text(position as u64).as_str(),
        ),
        SinkConfig::OpenSearch(_) => text::join2(
            "opensearch-",
            number::decimal_text(position as u64).as_str(),
        ),
        SinkConfig::Watchtower(_) => "watchtower-forward".to_owned(),
    }
}

} // verus!
