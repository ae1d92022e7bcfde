//! The route handlers and the per-connection dispatch decision.
//!
//! Handlers are pure: each builds a response from its route's payload, and
//! the declared content length is always the body's byte length. The files
//! route is the one that needs the filesystem; the handler takes the
//! outcome of the filesystem operation as a value, so the decision it makes
//! is verified for every outcome, and the caller performs the read or
//! append itself. A missing file and any other filesystem failure are
//! deliberately collapsed into the same not-found response.

use vstd::prelude::*;

use crate::message::{
    HttpApplicationContentType, HttpContentType, HttpMethod, HttpRequest, HttpResponse,
    HttpStatus, HttpTarget, HttpVersion, RequestView, ResponseView, TargetView,
};
use crate::text::push_all;

verus! {

pub open spec fn spec_greeting() -> Seq<u8> {
    seq![
        'H' as u8,
        'e' as u8,
        'l' as u8,
        'l' as u8,
        'o' as u8,
        ',' as u8,
        ' ' as u8,
        'W' as u8,
        'o' as u8,
        'r' as u8,
        'l' as u8,
        'd' as u8,
        '!' as u8,
    ]
}

pub fn greeting_bytes() -> (v: Vec<u8>)
    ensures
        v@ == spec_greeting(),
{
    let mut v: Vec<u8> = Vec::new();
    v.push('H' as u8);
    v.push('e' as u8);
    v.push('l' as u8);
    v.push('l' as u8);
    v.push('o' as u8);
    v.push(',' as u8);
    v.push(' ' as u8);
    v.push('W' as u8);
    v.push('o' as u8);
    v.push('r' as u8);
    v.push('l' as u8);
    v.push('d' as u8);
    v.push('!' as u8);
    assert(v@ =~= spec_greeting());
    v
}

/// A 200 response carrying `body` as plain text.
pub open spec fn spec_ok_text(body: Seq<u8>) -> ResponseView {
    ResponseView {
        version: HttpVersion::Http11,
        status: HttpStatus::Okay,
        content_type: HttpContentType::TextPlain,
        content_length: body.len() as int,
        body,
    }
}

/// The 404 response of an unrouted target: plain text, empty body.
pub open spec fn spec_not_found_text() -> ResponseView {
    ResponseView {
        version: HttpVersion::Http11,
        status: HttpStatus::NotFound,
        content_type: HttpContentType::TextPlain,
        content_length: 0,
        body: Seq::empty(),
    }
}

/// The 404 response of the files route: octet-stream, empty body.
pub open spec fn spec_not_found_octet() -> ResponseView {
    ResponseView {
        version: HttpVersion::Http11,
        status: HttpStatus::NotFound,
        content_type: HttpContentType::Application(HttpApplicationContentType::OctetStream),
        content_length: 0,
        body: Seq::empty(),
    }
}

/// The 201 response of a successful append: octet-stream, empty body.
pub open spec fn spec_created_octet() -> ResponseView {
    ResponseView {
        version: HttpVersion::Http11,
        status: HttpStatus::Created,
        content_type: HttpContentType::Application(HttpApplicationContentType::OctetStream),
        content_length: 0,
        body: Seq::empty(),
    }
}

/// A 200 response carrying file contents as an octet-stream.
pub open spec fn spec_ok_octet(body: Seq<u8>) -> ResponseView {
    ResponseView {
        version: HttpVersion::Http11,
        status: HttpStatus::Okay,
        content_type: HttpContentType::Application(HttpApplicationContentType::OctetStream),
        content_length: body.len() as int,
        body,
    }
}

/// Serves the root route: a fixed plain-text greeting.
pub fn handle_root() -> (r: HttpResponse)
    ensures
        r@ == spec_ok_text(spec_greeting()),
        r.wf(),
{
    let body = greeting_bytes();
    let len = body.len();
    HttpResponse {
        version: HttpVersion::Http11,
        status: HttpStatus::Okay,
        content_type: HttpContentType::TextPlain,
        content_length: len,
        body,
    }
}

/// Serves the echo route: the captured path remainder, verbatim.
pub fn handle_echo(s: &Vec<u8>) -> (r: HttpResponse)
    ensures
        r@ == spec_ok_text(s@),
        r.wf(),
{
    let body = crate::text::copy_bytes(s);
    let len = body.len();
    HttpResponse {
        version: HttpVersion::Http11,
        status: HttpStatus::Okay,
        content_type: HttpContentType::TextPlain,
        content_length: len,
        body,
    }
}

/// Serves the user-agent route: the request's `User-Agent` value, verbatim.
pub fn handle_user_agent(user_agent: &Vec<u8>) -> (r: HttpResponse)
    ensures
        r@ == spec_ok_text(user_agent@),
        r.wf(),
{
    let body = crate::text::copy_bytes(user_agent);
    let len = body.len();
    HttpResponse {
        version: HttpVersion::Http11,
        status: HttpStatus::Okay,
        content_type: HttpContentType::TextPlain,
        content_length: len,
        body,
    }
}

/// Serves an unrouted target: 404, plain text, empty body.
pub fn handle_not_found() -> (r: HttpResponse)
    ensures
        r@ == spec_not_found_text(),
        r.wf(),
{
    let body: Vec<u8> = Vec::new();
    assert(body@ =~= Seq::<u8>::empty());
    HttpResponse {
        version: HttpVersion::Http11,
        status: HttpStatus::NotFound,
        content_type: HttpContentType::TextPlain,
        content_length: 0,
        body,
    }
}

/// What the filesystem reported for the files route.
pub enum FileOutcome {
    /// A read found the file; these are its full contents.
    Content(Vec<u8>),
    /// An append to an existing file succeeded.
    Appended,
    /// The path does not exist, or the operation failed in any other way.
    Missing,
}

/// The view of a `FileOutcome`.
pub ghost enum FileOutcomeView {
    Content(Seq<u8>),
    Appended,
    Missing,
}

impl View for FileOutcome {
    type V = FileOutcomeView;

    open spec fn view(&self) -> FileOutcomeView {
        match self {
            FileOutcome::Content(c) => FileOutcomeView::Content(c@),
            FileOutcome::Appended => FileOutcomeView::Appended,
            FileOutcome::Missing => FileOutcomeView::Missing,
        }
    }
}

/// The files route's response, as a function of the method and of what the
/// filesystem reported. A read that found the file is served with its
/// contents; a successful append is acknowledged as created; everything
/// else — the path absent, a failed operation, or an outcome that does not
/// answer the method's operation — collapses to the octet-stream 404.
pub open spec fn spec_files_response(m: HttpMethod, o: FileOutcomeView) -> ResponseView {
    match m {
        HttpMethod::Get => match o {
            FileOutcomeView::Content(c) => spec_ok_octet(c),
            _ => spec_not_found_octet(),
        },
        HttpMethod::Post => match o {
            FileOutcomeView::Appended => spec_created_octet(),
            _ => spec_not_found_octet(),
        },
    }
}

/// Serves the files route, given the outcome of the filesystem operation
/// that the caller performed for the request's method.
pub fn handle_files(method: &HttpMethod, outcome: FileOutcome) -> (r: HttpResponse)
    ensures
        r@ == spec_files_response(*method, outcome@),
        r.wf(),
{
    match method {
        HttpMethod::Get => match outcome {
            FileOutcome::Content(c) => {
                let len = c.len();
                HttpResponse {
                    version: HttpVersion::Http11,
                    status: HttpStatus::Okay,
                    content_type: HttpContentType::Application(
                        HttpApplicationContentType::OctetStream,
                    ),
                    content_length: len,
                    body: c,
                }
            },
            _ => not_found_octet_response(),
        },
        HttpMethod::Post => match outcome {
            FileOutcome::Appended => {
                let body: Vec<u8> = Vec::new();
                assert(body@ =~= Seq::<u8>::empty());
                HttpResponse {
                    version: HttpVersion::Http11,
                    status: HttpStatus::Created,
                    content_type: HttpContentType::Application(
                        HttpApplicationContentType::OctetStream,
                    ),
                    content_length: 0,
                    body,
                }
            },
            _ => not_found_octet_response(),
        },
    }
}

/// The octet-stream 404 of the files route.
fn not_found_octet_response() -> (r: HttpResponse)
    ensures
        r@ == spec_not_found_octet(),
{
    let body: Vec<u8> = Vec::new();
    assert(body@ =~= Seq::<u8>::empty());
    HttpResponse {
        version: HttpVersion::Http11,
        status: HttpStatus::NotFound,
        content_type: HttpContentType::Application(HttpApplicationContentType::OctetStream),
        content_length: 0,
        body,
    }
}

/// The path a files request resolves to: the serving directory's path with
/// the filename appended, by plain concatenation — the directory value is
/// expected to end with its separator.
pub fn file_path(directory: &Vec<u8>, filename: &Vec<u8>) -> (r: Vec<u8>)
    ensures
        r@ == directory@ + filename@,
{
    let mut r = crate::text::copy_bytes(directory);
    push_all(&mut r, filename);
    r
}

/// What a connection should do for a parsed request.
pub enum Dispatch {
    /// The response is fully determined; send it.
    Reply(HttpResponse),
    /// The files route was hit: perform this method's filesystem operation
    /// on this filename — for a POST, appending these request-body bytes —
    /// then let `handle_files` build the response from the outcome.
    FileOp(HttpMethod, Vec<u8>, Vec<u8>),
    /// The connection is torn down without an answer: the request reached
    /// the user-agent route without a `User-Agent` header.
    Abort,
}

/// The view of a `Dispatch`.
pub ghost enum DispatchView {
    Reply(ResponseView),
    FileOp(HttpMethod, Seq<u8>, Seq<u8>),
    Abort,
}

impl View for Dispatch {
    type V = DispatchView;

    open spec fn view(&self) -> DispatchView {
        match self {
            Dispatch::Reply(r) => DispatchView::Reply(r@),
            Dispatch::FileOp(m, f, b) => DispatchView::FileOp(*m, f@, b@),
            Dispatch::Abort => DispatchView::Abort,
        }
    }
}

/// The dispatch a parsed request calls for, route by route. The root, echo
/// and user-agent routes answer GET requests only: any other method on them
/// is an unsupported combination and gets the plain-text 404, as an
/// unrouted target does. The files route accepts both methods.
pub open spec fn spec_dispatch(r: RequestView) -> DispatchView {
    match r.target {
        TargetView::Root => if r.method is Get {
            DispatchView::Reply(spec_ok_text(spec_greeting()))
        } else {
            DispatchView::Reply(spec_not_found_text())
        },
        TargetView::Echo(s) => if r.method is Get {
            DispatchView::Reply(spec_ok_text(s))
        } else {
            DispatchView::Reply(spec_not_found_text())
        },
        TargetView::UserAgent => if r.method is Get {
            match r.user_agent {
                Option::Some(ua) => DispatchView::Reply(spec_ok_text(ua)),
                Option::None => DispatchView::Abort,
            }
        } else {
            DispatchView::Reply(spec_not_found_text())
        },
        TargetView::Files(name) => DispatchView::FileOp(r.method, name, r.body),
        TargetView::NotFound => DispatchView::Reply(spec_not_found_text()),
    }
}

/// Decides what a connection does for a parsed request: every route but the
/// files route is answered on the spot; the files route hands back the
/// filesystem operation to perform.
pub fn dispatch_request(req: HttpRequest) -> (d: Dispatch)
    ensures
        d@ == spec_dispatch(req@),
{
    match req.target {
        HttpTarget::Root => match req.method {
            HttpMethod::Get => Dispatch::Reply(handle_root()),
            HttpMethod::Post => Dispatch::Reply(handle_not_found()),
        },
        HttpTarget::Echo(s) => match req.method {
            HttpMethod::Get => Dispatch::Reply(handle_echo(&s)),
            HttpMethod::Post => Dispatch::Reply(handle_not_found()),
        },
        HttpTarget::UserAgent => match req.method {
            HttpMethod::Get => match req.user_agent {
                Some(ua) => Dispatch::Reply(handle_user_agent(&ua)),
                None => Dispatch::Abort,
            },
            HttpMethod::Post => Dispatch::Reply(handle_not_found()),
        },
        HttpTarget::Files(name) => Dispatch::FileOp(req.method, name, req.body),
        HttpTarget::NotFound => Dispatch::Reply(handle_not_found()),
    }
}

/// Reading an unmodified file twice hands the handler the same contents,
/// and equal contents give byte-identical responses: repeated reads of the
/// same unmodified file are answered with identical bodies and identical
/// declared lengths.
pub proof fn lemma_get_idempotent(c1: Seq<u8>, c2: Seq<u8>)
    requires
        c1 == c2,
    ensures
        spec_files_response(HttpMethod::Get, FileOutcomeView::Content(c1)) == spec_files_response(
            HttpMethod::Get,
            FileOutcomeView::Content(c2),
        ),
        spec_files_response(HttpMethod::Get, FileOutcomeView::Content(c1)).body == c1,
        spec_files_response(HttpMethod::Get, FileOutcomeView::Content(c1)).content_length
            == c1.len(),
{
}

} // verus!