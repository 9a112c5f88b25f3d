//! The schemes the browser speaks, and what they share: the request to send
//! for a URL, and the resource built from a response.

use vstd::prelude::*;
use crate::resources::{resource_body, Resource, ResourceView};

pub mod http;
pub mod https;

pub use self::http::ResponseParseError;
use self::http::{HttpRequest, ResponseView};
use self::https::HttpsRequest;

verus! {

/// The resource that a parsed response stands for.
pub open spec fn web_resource_of(r: ResponseView) -> ResourceView {
    ResourceView::Web {
        status: r.status,
        explanation: r.explanation,
        headers: r.headers,
        body: r.body,
    }
}

/// A parsed response from which the displayed resource is built.
pub trait BuildResource: View<V = ResponseView> {
    fn build_resource(&self) -> (r: Resource)
        ensures
            r@ == web_resource_of(self@),
    ;
}

/// The request to send for a URL, by scheme.
pub enum PreparedRequest<'a> {
    Http(HttpRequest<'a>),
    Https(HttpsRequest<'a>),
}

/// The resource built from a response is a web resource that keeps the
/// response's status, explanation, headers and body as they are, and its
/// displayed body is the response body.
pub proof fn lemma_web_resource_keeps_response(r: ResponseView)
    ensures
        web_resource_of(r) matches ResourceView::Web { status, explanation, headers, body } && status
            == r.status && explanation == r.explanation && headers == r.headers && body == r.body,
        resource_body(web_resource_of(r)) == r.body,
{
}

} // verus!
