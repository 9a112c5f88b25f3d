//! HTTP/1.0 over TLS: the request is written and the response parsed as for
//! plain HTTP; the TLS connection itself is made by the caller.

use vstd::prelude::*;
use crate::headers::Headers;
use crate::resources::{Resource, WebResource};
use crate::schemes::http::{
    parse_response, parse_response_exec, request_message, request_message_exec, socket_address,
    socket_address_exec, HttpVersion, ResponseFault, ResponseParseError, ResponseView,
};
use crate::schemes::BuildResource;

verus! {

/// A GET request for `path` on `host:port`, over TLS.
pub struct HttpsRequest<'a> {
    pub version: HttpVersion,
    pub host: &'a str,
    pub port: usize,
    pub path: &'a str,
}

impl<'a> HttpsRequest<'a> {
    /// The address to connect to.
    pub fn socket_addr(&self) -> (r: String)
        ensures
            r@ == socket_address(self.host@, self.port),
    {
        socket_address_exec(self.host, self.port)
    }

    /// The text to send over the TLS connection.
    pub fn message(&self) -> (r: String)
        ensures
            r@ == request_message(self.version, self.host@, self.path@),
    {
        request_message_exec(self.version, self.host, self.path)
    }
}

/// A response read from the server over TLS.
pub struct HttpsResponse {
    pub version: HttpVersion,
    pub status: String,
    pub explanation: String,
    pub headers: Headers,
    pub body: String,
}

impl View for HttpsResponse {
    type V = ResponseView;

    open spec fn view(&self) -> ResponseView {
        ResponseView {
            version: self.version,
            status: self.status@,
            explanation: self.explanation@,
            headers: self.headers@,
            body: self.body@,
        }
    }
}

impl HttpsResponse {
    /// Parses the text of a response exactly as `HttpResponse::from_str` does.
    pub fn from_str(s: &str) -> (r: Result<HttpsResponse, ResponseParseError>)
        ensures
            match r {
                Ok(resp) => parse_response(s@) == Ok::<ResponseView, ResponseFault>(resp@),
                Err(e) => parse_response(s@) == Err::<ResponseView, ResponseFault>(e@),
            },
    {
        match parse_response_exec(s) {
            Ok((version, status, explanation, headers, body)) => Ok(
                HttpsResponse { version, status, explanation, headers, body },
            ),
            Err(e) => Err(e),
        }
    }

    /// The body of the response (`Display`).
    pub fn to_string(&self) -> (s: String)
        ensures
            s@ == self.body@,
    {
        self.body.clone()
    }
}

impl BuildResource for HttpsResponse {
    fn build_resource(&self) -> (r: Resource) {
        Resource::Web(
            WebResource {
                response_status: self.status.clone(),
                response_explanation: self.explanation.clone(),
                response_headers: self.headers.clone(),
                response_body: self.body.clone(),
            },
        )
    }
}

} // verus!
