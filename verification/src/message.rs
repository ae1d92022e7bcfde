//! The structured request and response types of the pipeline, with their
//! mathematical views. Textual fields are byte sequences, exactly as they
//! stood on the wire.

use vstd::prelude::*;

verus! {

#[derive(Clone, Copy, PartialEq, Eq, Structural, Debug)]
pub enum HttpMethod {
    Get,
    Post,
}

#[derive(Clone, Copy, PartialEq, Eq, Structural, Debug)]
pub enum HttpVersion {
    Http11,
}

#[derive(Clone, Copy, PartialEq, Eq, Structural, Debug)]
pub enum HttpStatus {
    Okay,
    Created,
    NotFound,
}

#[derive(Clone, Copy, PartialEq, Eq, Structural, Debug)]
pub enum HttpApplicationContentType {
    OctetStream,
}

#[derive(Clone, Copy, PartialEq, Eq, Structural, Debug)]
pub enum HttpContentType {
    TextPlain,
    Application(HttpApplicationContentType),
}

#[derive(Clone, Copy, PartialEq, Eq, Structural, Debug)]
pub enum HttpEncoding {
    Gzip,
    Compress,
    Deflate,
    Br,
}

/// The classification of a request's target path.
pub enum HttpTarget {
    Root,
    Echo(Vec<u8>),
    UserAgent,
    Files(Vec<u8>),
    NotFound,
}

/// The view of an `HttpTarget`: payloads become byte sequences.
pub ghost enum TargetView {
    Root,
    Echo(Seq<u8>),
    UserAgent,
    Files(Seq<u8>),
    NotFound,
}

impl View for HttpTarget {
    type V = TargetView;

    open spec fn view(&self) -> TargetView {
        match self {
            HttpTarget::Root => TargetView::Root,
            HttpTarget::Echo(s) => TargetView::Echo(s@),
            HttpTarget::UserAgent => TargetView::UserAgent,
            HttpTarget::Files(s) => TargetView::Files(s@),
            HttpTarget::NotFound => TargetView::NotFound,
        }
    }
}

/// The view of an optional byte string.
pub open spec fn opt_bytes_view(o: Option<Vec<u8>>) -> Option<Seq<u8>> {
    match o {
        Option::Some(v) => Option::Some(v@),
        Option::None => Option::None,
    }
}

/// A parsed request: the start line's pieces, the selected headers, and the
/// body.
pub struct HttpRequest {
    pub method: HttpMethod,
    pub target: HttpTarget,
    pub version: HttpVersion,
    pub host: Option<Vec<u8>>,
    pub user_agent: Option<Vec<u8>>,
    pub accept: Option<Vec<u8>>,
    pub accept_encoding: Vec<HttpEncoding>,
    pub body: Vec<u8>,
}

/// The view of an `HttpRequest`.
pub ghost struct RequestView {
    pub method: HttpMethod,
    pub target: TargetView,
    pub version: HttpVersion,
    pub host: Option<Seq<u8>>,
    pub user_agent: Option<Seq<u8>>,
    pub accept: Option<Seq<u8>>,
    pub accept_encoding: Seq<HttpEncoding>,
    pub body: Seq<u8>,
}

impl View for HttpRequest {
    type V = RequestView;

    open spec fn view(&self) -> RequestView {
        RequestView {
            method: self.method,
            target: self.target@,
            version: self.version,
            host: opt_bytes_view(self.host),
            user_agent: opt_bytes_view(self.user_agent),
            accept: opt_bytes_view(self.accept),
            accept_encoding: self.accept_encoding@,
            body: self.body@,
        }
    }
}

impl HttpRequest {
    /// A request with the given start line and body, and no headers yet.
    pub fn new(method: HttpMethod, target: HttpTarget, version: HttpVersion, body: Vec<u8>) -> (r:
        Self)
        ensures
            r@ == (RequestView {
                method,
                target: target@,
                version,
                host: Option::None,
                user_agent: Option::None,
                accept: Option::None,
                accept_encoding: Seq::empty(),
                body: body@,
            }),
    {
        let r = HttpRequest {
            method,
            target,
            version,
            host: Option::None,
            user_agent: Option::None,
            accept: Option::None,
            accept_encoding: Vec::new(),
            body,
        };
        r
    }
}

/// A response about to be serialized.
pub struct HttpResponse {
    pub version: HttpVersion,
    pub status: HttpStatus,
    pub content_type: HttpContentType,
    pub content_length: usize,
    pub body: Vec<u8>,
}

/// The view of an `HttpResponse`.
pub ghost struct ResponseView {
    pub version: HttpVersion,
    pub status: HttpStatus,
    pub content_type: HttpContentType,
    pub content_length: int,
    pub body: Seq<u8>,
}

impl View for HttpResponse {
    type V = ResponseView;

    open spec fn view(&self) -> ResponseView {
        ResponseView {
            version: self.version,
            status: self.status,
            content_type: self.content_type,
            content_length: self.content_length as int,
            body: self.body@,
        }
    }
}

/// The responses this pipeline builds never let the declared length drift
/// from the body: `content_length` is the body's byte length.
pub open spec fn resp_wf(r: ResponseView) -> bool {
    r.content_length == r.body.len()
}

impl HttpResponse {
    /// The declared length matches the body.
    pub open spec fn wf(&self) -> bool {
        resp_wf(self@)
    }
}

} // verus!
