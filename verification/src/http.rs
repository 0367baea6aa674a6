//! Answers of the HTTP servers.

use vstd::prelude::*;

verus! {

/// An answer: its status, its headers and its body.
#[derive(Debug)]
pub struct HttpResponse {
    pub status: u16,
    pub headers: Vec<(String, String)>,
    pub body: String,
}

/// What an answer holds.
pub ghost struct ResponseView {
    pub status: u16,
    pub headers: Seq<(Seq<char>, Seq<char>)>,
    pub body: Seq<char>,
}

impl View for HttpResponse {
    type V = ResponseView;

    open spec fn view(&self) -> ResponseView {
        ResponseView {
            status: self.status,
            headers: self.headers@.map_values(|h: (String, String)| (h.0@, h.1@)),
            body: self.body@,
        }
    }
}

/// An answer without headers.
pub open spec fn bare(status: u16, body: Seq<char>) -> ResponseView {
    ResponseView { status, headers: seq![], body }
}

/// An answer with one header.
pub open spec fn headed(
    status: u16,
    name: Seq<char>,
    value: Seq<char>,
    body: Seq<char>,
) -> ResponseView {
    ResponseView { status, headers: seq![(name, value)], body }
}

/// An answer without headers.
pub fn respond(status: u16, body: &str) -> (r: HttpResponse)
    ensures
        r@ == bare(status, body@),
{
    let r: HttpResponse = HttpResponse { status, headers: Vec::new(), body: body.to_owned() };
    assert(r@.headers =~= seq![]);
    r
}

/// An answer with one header.
pub fn respond_with(status: u16, name: &str, value: &str, body: String) -> (r: HttpResponse)
    ensures
        r@ == headed(status, name@, value@, body@),
{
    let mut headers: Vec<(String, String)> = Vec::new();
    headers.push((name.to_owned(), value.to_owned()));
    let r: HttpResponse = HttpResponse { status, headers, body };
    assert(r@.headers =~= seq![(name@, value@)]);
    r
}

/// The answer where a path is not served.
pub open spec fn not_found_view() -> ResponseView {
    bare(404, "not found\n"@)
}

/// The answer where a path is not served.
pub fn not_found() -> (r: HttpResponse)
    ensures
        r@ == not_found_view(),
{
    respond(404, "not found\n")
}

} // verus!
