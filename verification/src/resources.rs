//! Loaded resources: a page fetched over the web, or a local file.

use vstd::prelude::*;
use crate::headers::Headers;

verus! {

/// A page fetched over HTTP or HTTPS.
pub struct WebResource {
    pub response_status: String,
    pub response_explanation: String,
    pub response_headers: Headers,
    pub response_body: String,
}

/// A file read from the local disk.
pub struct LocalResource {
    pub file_path: String,
    pub body: String,
}

/// A resource that the browser can display.
pub enum Resource {
    Web(WebResource),
    Local(LocalResource),
}

/// What a resource holds, as plain values.
pub enum ResourceView {
    Web {
        status: Seq<char>,
        explanation: Seq<char>,
        headers: Map<Seq<char>, Seq<char>>,
        body: Seq<char>,
    },
    Local { file_path: Seq<char>, body: Seq<char> },
}

impl View for Resource {
    type V = ResourceView;

    open spec fn view(&self) -> ResourceView {
        match self {
            Resource::Web(r) => ResourceView::Web {
                status: r.response_status@,
                explanation: r.response_explanation@,
                headers: r.response_headers@,
                body: r.response_body@,
            },
            Resource::Local(r) => ResourceView::Local { file_path: r.file_path@, body: r.body@ },
        }
    }
}

/// The body of a resource: what is displayed of it.
pub open spec fn resource_body(r: ResourceView) -> Seq<char> {
    match r {
        ResourceView::Web { body, .. } => body,
        ResourceView::Local { body, .. } => body,
    }
}

impl Resource {
    /// The body of the resource, as text.
    pub fn to_string(&self) -> (s: String)
        ensures
            s@ == resource_body(self@),
    {
        match self {
            Resource::Web(r) => r.response_body.clone(),
            Resource::Local(r) => r.body.clone(),
        }
    }
}

} // verus!
