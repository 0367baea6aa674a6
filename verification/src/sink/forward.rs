//! Forwarding to a larger Watchtower instance.

use vstd::prelude::*;

use crate::sink;
use crate::sink::SinkError;
use crate::text;

verus! {

/// The URI of a target: a target without a scheme is reached over plain HTTP.
pub open spec fn uri_of(target: Seq<char>) -> Seq<char> {
    if text::occurs_in(target, "://"@) {
        target
    } else {
        "http://"@ + target
    }
}

/// The URI of a target: a target without a scheme is reached over plain HTTP.
pub fn endpoint_uri(target: &str) -> (r: String)
    ensures
        r@ == uri_of(target@),
{
    proof {
        reveal_strlit("://");
    }
    if text::contains(text::chars_of(target).as_slice(), text::chars_of("://").as_slice()) {
        target.to_owned()
    } else {
        text::join2("http://", target)
    }
}

/// The error where the target cannot be reached; `cause` says why.
pub fn connect_error(target: &str, cause: &str) -> (r: SinkError)
    ensures
        r@ == sink::SinkFault::Network("connect to "@ + target@ + ": "@ + cause@),
{
    let mut m: String = text::join3("connect to ", target, ": ");
    m.append(cause);
    SinkError::Network(m)
}

/// The error where the target answers with a status other than OK.
pub fn rejection(code: &str, words: &str) -> (r: SinkError)
    ensures
        r@ == sink::SinkFault::Rejected("gRPC "@ + code@ + ": "@ + words@),
{
    let mut m: String = text::join3("gRPC ", code, ": ");
    m.append(words);
    SinkError::Rejected(m)
}

} // verus!
