//! The request parser: raw connection bytes to a structured request.
//!
//! The input is split into lines at line feeds (with one carriage return
//! stripped from a terminated line). The first line is the start line; its
//! whitespace-separated tokens are the method, the raw target and the
//! version. Parsing fails when the start line is missing one of the three
//! tokens, when the method is neither `GET` nor `POST`, or when the version
//! is not exactly `HTTP/1.1`. The following lines, up to the first empty
//! line, are headers: the ones recognised here are matched by an
//! ASCII-case-insensitive prefix, their value is everything after the first
//! colon with surrounding whitespace trimmed, unrecognised ones are ignored,
//! and a repeated header keeps its last occurrence. The line after the empty
//! line, if any, is the body; later lines are dropped.

use vstd::prelude::*;

use crate::message::{HttpEncoding, HttpMethod, HttpRequest, HttpVersion, RequestView};
use crate::router::{parse_target, spec_classify_opt};
use crate::text::{
    bytes_eq, spec_comma_split, spec_lines, spec_tokens, spec_trim, split_lines, split_tokens,
    starts_with_lower, starts_with_lower_bytes, subvec, trim_bytes,
};

verus! {

pub open spec fn lit_get() -> Seq<u8> {
    seq!['G' as u8, 'E' as u8, 'T' as u8]
}

pub fn get_bytes() -> (v: Vec<u8>)
    ensures
        v@ == lit_get(),
{
    let mut v: Vec<u8> = Vec::new();
    v.push('G' as u8);
    v.push('E' as u8);
    v.push('T' as u8);
    assert(v@ =~= lit_get());
    v
}

pub open spec fn lit_post() -> Seq<u8> {
    seq!['P' as u8, 'O' as u8, 'S' as u8, 'T' as u8]
}

pub fn post_bytes() -> (v: Vec<u8>)
    ensures
        v@ == lit_post(),
{
    let mut v: Vec<u8> = Vec::new();
    v.push('P' as u8);
    v.push('O' as u8);
    v.push('S' as u8);
    v.push('T' as u8);
    assert(v@ =~= lit_post());
    v
}

pub open spec fn lit_http11() -> Seq<u8> {
    seq![
        'H' as u8,
        'T' as u8,
        'T' as u8,
        'P' as u8,
        '/' as u8,
        '1' as u8,
        '.' as u8,
        '1' as u8,
    ]
}

pub fn http11_bytes() -> (v: Vec<u8>)
    ensures
        v@ == lit_http11(),
{
    let mut v: Vec<u8> = Vec::new();
    v.push('H' as u8);
    v.push('T' as u8);
    v.push('T' as u8);
    v.push('P' as u8);
    v.push('/' as u8);
    v.push('1' as u8);
    v.push('.' as u8);
    v.push('1' as u8);
    assert(v@ =~= lit_http11());
    v
}

pub open spec fn lit_host_header() -> Seq<u8> {
    seq!['h' as u8, 'o' as u8, 's' as u8, 't' as u8, ':' as u8]
}

pub fn host_header_bytes() -> (v: Vec<u8>)
    ensures
        v@ == lit_host_header(),
{
    let mut v: Vec<u8> = Vec::new();
    v.push('h' as u8);
    v.push('o' as u8);
    v.push('s' as u8);
    v.push('t' as u8);
    v.push(':' as u8);
    assert(v@ =~= lit_host_header());
    v
}

pub open spec fn lit_user_agent_header() -> Seq<u8> {
    seq![
        'u' as u8,
        's' as u8,
        'e' as u8,
        'r' as u8,
        '-' as u8,
        'a' as u8,
        'g' as u8,
        'e' as u8,
        'n' as u8,
        't' as u8,
        ':' as u8,
    ]
}

pub fn user_agent_header_bytes() -> (v: Vec<u8>)
    ensures
        v@ == lit_user_agent_header(),
{
    let mut v: Vec<u8> = Vec::new();
    v.push('u' as u8);
    v.push('s' as u8);
    v.push('e' as u8);
    v.push('r' as u8);
    v.push('-' as u8);
    v.push('a' as u8);
    v.push('g' as u8);
    v.push('e' as u8);
    v.push('n' as u8);
    v.push('t' as u8);
    v.push(':' as u8);
    assert(v@ =~= lit_user_agent_header());
    v
}

pub open spec fn lit_accept_header() -> Seq<u8> {
    seq!['a' as u8, 'c' as u8, 'c' as u8, 'e' as u8, 'p' as u8, 't' as u8, ':' as u8]
}

pub fn accept_header_bytes() -> (v: Vec<u8>)
    ensures
        v@ == lit_accept_header(),
{
    let mut v: Vec<u8> = Vec::new();
    v.push('a' as u8);
    v.push('c' as u8);
    v.push('c' as u8);
    v.push('e' as u8);
    v.push('p' as u8);
    v.push('t' as u8);
    v.push(':' as u8);
    assert(v@ =~= lit_accept_header());
    v
}

pub open spec fn lit_accept_encoding_header() -> Seq<u8> {
    seq![
        'a' as u8,
        'c' as u8,
        'c' as u8,
        'e' as u8,
        'p' as u8,
        't' as u8,
        '-' as u8,
        'e' as u8,
        'n' as u8,
        'c' as u8,
        'o' as u8,
        'd' as u8,
        'i' as u8,
        'n' as u8,
        'g' as u8,
        ':' as u8,
    ]
}

pub fn accept_encoding_header_bytes() -> (v: Vec<u8>)
    ensures
        v@ == lit_accept_encoding_header(),
{
    let mut v: Vec<u8> = Vec::new();
    v.push('a' as u8);
    v.push('c' as u8);
    v.push('c' as u8);
    v.push('e' as u8);
    v.push('p' as u8);
    v.push('t' as u8);
    v.push('-' as u8);
    v.push('e' as u8);
    v.push('n' as u8);
    v.push('c' as u8);
    v.push('o' as u8);
    v.push('d' as u8);
    v.push('i' as u8);
    v.push('n' as u8);
    v.push('g' as u8);
    v.push(':' as u8);
    assert(v@ =~= lit_accept_encoding_header());
    v
}

pub open spec fn lit_gzip() -> Seq<u8> {
    seq!['g' as u8, 'z' as u8, 'i' as u8, 'p' as u8]
}

pub fn gzip_bytes() -> (v: Vec<u8>)
    ensures
        v@ == lit_gzip(),
{
    let mut v: Vec<u8> = Vec::new();
    v.push('g' as u8);
    v.push('z' as u8);
    v.push('i' as u8);
    v.push('p' as u8);
    assert(v@ =~= lit_gzip());
    v
}

pub open spec fn lit_compress() -> Seq<u8> {
    seq!['c' as u8, 'o' as u8, 'm' as u8, 'p' as u8, 'r' as u8, 'e' as u8, 's' as u8, 's' as u8]
}

pub fn compress_bytes() -> (v: Vec<u8>)
    ensures
        v@ == lit_compress(),
{
    let mut v: Vec<u8> = Vec::new();
    v.push('c' as u8);
    v.push('o' as u8);
    v.push('m' as u8);
    v.push('p' as u8);
    v.push('r' as u8);
    v.push('e' as u8);
    v.push('s' as u8);
    v.push('s' as u8);
    assert(v@ =~= lit_compress());
    v
}

pub open spec fn lit_deflate() -> Seq<u8> {
    seq!['d' as u8, 'e' as u8, 'f' as u8, 'l' as u8, 'a' as u8, 't' as u8, 'e' as u8]
}

pub fn deflate_bytes() -> (v: Vec<u8>)
    ensures
        v@ == lit_deflate(),
{
    let mut v: Vec<u8> = Vec::new();
    v.push('d' as u8);
    v.push('e' as u8);
    v.push('f' as u8);
    v.push('l' as u8);
    v.push('a' as u8);
    v.push('t' as u8);
    v.push('e' as u8);
    assert(v@ =~= lit_deflate());
    v
}

pub open spec fn lit_br() -> Seq<u8> {
    seq!['b' as u8, 'r' as u8]
}

pub fn br_bytes() -> (v: Vec<u8>)
    ensures
        v@ == lit_br(),
{
    let mut v: Vec<u8> = Vec::new();
    v.push('b' as u8);
    v.push('r' as u8);
    assert(v@ =~= lit_br());
    v
}

/// The method named by a start-line token, if it is a supported one.
pub open spec fn spec_method(t: Option<Seq<u8>>) -> Option<HttpMethod> {
    match t {
        Option::Some(s) => if s == lit_get() {
            Option::Some(HttpMethod::Get)
        } else if s == lit_post() {
            Option::Some(HttpMethod::Post)
        } else {
            Option::None
        },
        Option::None => Option::None,
    }
}

/// The version named by a start-line token, if it is the supported one.
pub open spec fn spec_version(t: Option<Seq<u8>>) -> Option<HttpVersion> {
    match t {
        Option::Some(s) => if s == lit_http11() {
            Option::Some(HttpVersion::Http11)
        } else {
            Option::None
        },
        Option::None => Option::None,
    }
}

/// Reads the method token of the start line: `GET` or `POST`, anything
/// else — a missing token included — is a parse failure.
pub fn parse_method(s: Option<&Vec<u8>>) -> (r: Result<HttpMethod, ()>)
    ensures
        match spec_method(match s {
            Option::Some(v) => Option::Some(v@),
            Option::None => Option::None,
        }) {
            Option::Some(m) => r == Result::<HttpMethod, ()>::Ok(m),
            Option::None => r is Err,
        },
{
    match s {
        Option::None => Err(()),
        Option::Some(v) => {
            let get = get_bytes();
            let post = post_bytes();
            if bytes_eq(v, &get) {
                Ok(HttpMethod::Get)
            } else if bytes_eq(v, &post) {
                Ok(HttpMethod::Post)
            } else {
                Err(())
            }
        },
    }
}

/// Reads the version token of the start line: exactly `HTTP/1.1`, anything
/// else — a missing token included — is a parse failure.
pub fn parse_version(s: Option<&Vec<u8>>) -> (r: Result<HttpVersion, ()>)
    ensures
        match spec_version(match s {
            Option::Some(v) => Option::Some(v@),
            Option::None => Option::None,
        }) {
            Option::Some(ver) => r == Result::<HttpVersion, ()>::Ok(ver),
            Option::None => r is Err,
        },
{
    match s {
        Option::None => Err(()),
        Option::Some(v) => {
            let http11 = http11_bytes();
            if bytes_eq(v, &http11) {
                Ok(HttpVersion::Http11)
            } else {
                Err(())
            }
        },
    }
}

/// The value carried by a header line whose name-plus-colon prefix has the
/// given length: everything after the first colon, trimmed.
pub open spec fn spec_header_value(line: Seq<u8>, prefix_len: int) -> Seq<u8> {
    spec_trim(line.skip(prefix_len))
}

/// Reads a `Host:` header line; any other line is refused.
pub fn parse_host(s: &Vec<u8>) -> (r: Result<Vec<u8>, ()>)
    ensures
        starts_with_lower(s@, lit_host_header()) ==> (r matches Ok(v) && v@
            == spec_header_value(s@, 5)),
        !starts_with_lower(s@, lit_host_header()) ==> r is Err,
{
    let p = host_header_bytes();
    if starts_with_lower_bytes(s, &p) {
        let tail = subvec(s, 5, s.len());
        assert(tail@ =~= s@.skip(5));
        Ok(trim_bytes(&tail))
    } else {
        Err(())
    }
}

/// Reads a `User-Agent:` header line; any other line is refused.
pub fn parse_user_agent(s: &Vec<u8>) -> (r: Result<Vec<u8>, ()>)
    ensures
        starts_with_lower(s@, lit_user_agent_header()) ==> (r matches Ok(v) && v@
            == spec_header_value(s@, 11)),
        !starts_with_lower(s@, lit_user_agent_header()) ==> r is Err,
{
    let p = user_agent_header_bytes();
    if starts_with_lower_bytes(s, &p) {
        let tail = subvec(s, 11, s.len());
        assert(tail@ =~= s@.skip(11));
        Ok(trim_bytes(&tail))
    } else {
        Err(())
    }
}

/// Reads an `Accept:` header line; any other line is refused.
pub fn parse_accept(s: &Vec<u8>) -> (r: Result<Vec<u8>, ()>)
    ensures
        starts_with_lower(s@, lit_accept_header()) ==> (r matches Ok(v) && v@
            == spec_header_value(s@, 7)),
        !starts_with_lower(s@, lit_accept_header()) ==> r is Err,
{
    let p = accept_header_bytes();
    if starts_with_lower_bytes(s, &p) {
        let tail = subvec(s, 7, s.len());
        assert(tail@ =~= s@.skip(7));
        Ok(trim_bytes(&tail))
    } else {
        Err(())
    }
}

/// The encoding named by one comma-separated field, after trimming, if it
/// is a recognised one.
pub open spec fn spec_enc_token(t: Seq<u8>) -> Option<HttpEncoding> {
    let u = spec_trim(t);
    if u == lit_gzip() {
        Option::Some(HttpEncoding::Gzip)
    } else if u == lit_compress() {
        Option::Some(HttpEncoding::Compress)
    } else if u == lit_deflate() {
        Option::Some(HttpEncoding::Deflate)
    } else if u == lit_br() {
        Option::Some(HttpEncoding::Br)
    } else {
        Option::None
    }
}

/// The recognised encodings among a sequence of fields, in order;
/// unrecognised fields are dropped silently.
pub open spec fn spec_enc_list(fields: Seq<Seq<u8>>) -> Seq<HttpEncoding>
    decreases fields.len(),
{
    if fields.len() == 0 {
        Seq::empty()
    } else {
        match spec_enc_token(fields[0]) {
            Option::Some(e) => seq![e] + spec_enc_list(fields.drop_first()),
            Option::None => spec_enc_list(fields.drop_first()),
        }
    }
}

/// The encodings of an `Accept-Encoding` value: split at commas, each field
/// trimmed and mapped to a known encoding, unknown fields dropped, order
/// preserved.
pub open spec fn spec_encodings(value: Seq<u8>) -> Seq<HttpEncoding> {
    spec_enc_list(spec_comma_split(value))
}

/// The encoding of one field, executably.
fn enc_of_field(field: &Vec<u8>) -> (r: Option<HttpEncoding>)
    ensures
        r == spec_enc_token(field@),
{
    let t = trim_bytes(field);
    let gz = gzip_bytes();
    let co = compress_bytes();
    let de = deflate_bytes();
    let br = br_bytes();
    if bytes_eq(&t, &gz) {
        Some(HttpEncoding::Gzip)
    } else if bytes_eq(&t, &co) {
        Some(HttpEncoding::Compress)
    } else if bytes_eq(&t, &de) {
        Some(HttpEncoding::Deflate)
    } else if bytes_eq(&t, &br) {
        Some(HttpEncoding::Br)
    } else {
        None
    }
}

/// Reads an `Accept-Encoding:` header line; any other line is refused.
pub fn parse_accept_encoding(s: &Vec<u8>) -> (r: Result<Vec<HttpEncoding>, ()>)
    ensures
        starts_with_lower(s@, lit_accept_encoding_header()) ==> (r matches Ok(v) && v@
            == spec_encodings(spec_header_value(s@, 16))),
        !starts_with_lower(s@, lit_accept_encoding_header()) ==> r is Err,
{
    let p = accept_encoding_header_bytes();
    if !starts_with_lower_bytes(s, &p) {
        return Err(());
    }
    let tail = subvec(s, 16, s.len());
    assert(tail@ =~= s@.skip(16));
    let value = trim_bytes(&tail);
    let mut res: Vec<HttpEncoding> = Vec::new();
    let mut pos: usize = 0;
    let mut more: bool = true;
    proof {
        assert(value@.skip(0) =~= value@);
        assert(res@ + spec_encodings(value@) =~= spec_encodings(value@));
    }
    while more
        invariant
            more ==> pos <= value@.len(),
            more ==> res@ + spec_enc_list(spec_comma_split(value@.skip(pos as int)))
                == spec_encodings(value@),
            !more ==> res@ == spec_encodings(value@),
        decreases value@.len() - pos + (if more {
            1int
        } else {
            0int
        }),
    {
        let ghost p0 = pos as int;
        let ghost rest = value@.skip(pos as int);
        // scan for the next comma
        let mut j: usize = pos;
        while j < value.len() && value[j] != ',' as u8
            invariant
                pos <= j <= value@.len(),
                forall|k: int| pos <= k < j ==> value@[k] != ',' as u8,
            decreases value@.len() - j,
        {
            j = j + 1;
        }
        proof {
            assert forall|k: int| 0 <= k < j - p0 implies !crate::text::in_class(
                rest[k],
                crate::text::ByteClass::Comma,
            ) by {
                assert(rest[k] == value@[k + p0]);
            }
            if j < value@.len() {
                assert(rest[j - p0] == value@[j as int]);
                crate::text::lemma_find_class_is(rest, crate::text::ByteClass::Comma, j - p0);
            } else {
                crate::text::lemma_find_class_none(rest, crate::text::ByteClass::Comma);
            }
        }
        let field = subvec(&value, pos, j);
        let ghost res_old = res@;
        match enc_of_field(&field) {
            Some(e) => { res.push(e); },
            None => {},
        }
        if j == value.len() {
            more = false;
            proof {
                assert(field@ =~= rest);
                assert(spec_comma_split(rest) =~= seq![rest]);
                assert(seq![rest][0] == rest);
                assert((seq![rest]).drop_first() =~= Seq::<Seq<u8>>::empty());
                assert(spec_enc_list(Seq::<Seq<u8>>::empty()) =~= Seq::<HttpEncoding>::empty());
                assert(spec_enc_list(seq![rest]) =~= match spec_enc_token(rest) {
                    Option::Some(e) => seq![e],
                    Option::None => Seq::<HttpEncoding>::empty(),
                });
                assert(spec_enc_list(spec_comma_split(rest)) =~= match spec_enc_token(rest) {
                    Option::Some(e) => seq![e],
                    Option::None => Seq::<HttpEncoding>::empty(),
                });
                assert(res@ =~= res_old + spec_enc_list(spec_comma_split(rest)));
            }
        } else {
            pos = j + 1;
            proof {
                assert(field@ =~= rest.take(j - p0));
                assert(spec_comma_split(rest) == seq![rest.take(j - p0)] + spec_comma_split(
                    rest.skip(j - p0 + 1),
                ));
                assert(rest.skip(j - p0 + 1) =~= value@.skip(pos as int));
                let sub = spec_comma_split(rest).drop_first();
                assert(sub =~= spec_comma_split(value@.skip(pos as int)));
                assert(spec_comma_split(rest)[0] == field@);
                assert(res@ =~= res_old + match spec_enc_token(field@) {
                    Option::Some(e) => seq![e],
                    Option::None => Seq::<HttpEncoding>::empty(),
                });
                assert(res@ + spec_enc_list(spec_comma_split(value@.skip(pos as int)))
                    =~= res_old + spec_enc_list(spec_comma_split(rest)));
            }
        }
    }
    Ok(res)
}

/// One header line folded into the request being built: the first matching
/// recognised header, if any, has its value stored (a repeated header is
/// simply stored again, so the last occurrence wins); any other line leaves
/// the request unchanged.
pub open spec fn spec_header_update(r: RequestView, line: Seq<u8>) -> RequestView {
    if starts_with_lower(line, lit_host_header()) {
        RequestView { host: Option::Some(spec_header_value(line, 5)), ..r }
    } else if starts_with_lower(line, lit_user_agent_header()) {
        RequestView { user_agent: Option::Some(spec_header_value(line, 11)), ..r }
    } else if starts_with_lower(line, lit_accept_header()) {
        RequestView { accept: Option::Some(spec_header_value(line, 7)), ..r }
    } else if starts_with_lower(line, lit_accept_encoding_header()) {
        RequestView { accept_encoding: spec_encodings(spec_header_value(line, 16)), ..r }
    } else {
        r
    }
}

/// The lines from index `i` on, folded in order into `r` as headers, up to
/// the first empty line; the line after that empty line, if there is one,
/// becomes the body, and anything later is dropped.
pub open spec fn spec_fold_lines(r: RequestView, ls: Seq<Seq<u8>>, i: int) -> RequestView
    decreases ls.len() - i,
{
    if i < 0 || i >= ls.len() {
        r
    } else if ls[i].len() == 0 {
        if i + 1 < ls.len() {
            RequestView { body: ls[i + 1], ..r }
        } else {
            r
        }
    } else {
        spec_fold_lines(spec_header_update(r, ls[i]), ls, i + 1)
    }
}

/// The request denoted by raw connection bytes, if they parse: the first
/// line's tokens give method, target and version; the following lines up to
/// the first empty one are headers; the line after that is the body.
pub open spec fn spec_parse(s: Seq<u8>) -> Option<RequestView> {
    let ls = spec_lines(s);
    if ls.len() == 0 {
        Option::None
    } else {
        let toks = spec_tokens(ls[0]);
        let m = spec_method(
            if toks.len() > 0 {
                Option::Some(toks[0])
            } else {
                Option::None
            },
        );
        let tgt = spec_classify_opt(
            if toks.len() > 1 {
                Option::Some(toks[1])
            } else {
                Option::None
            },
        );
        let ver = spec_version(
            if toks.len() > 2 {
                Option::Some(toks[2])
            } else {
                Option::None
            },
        );
        if m is None || ver is None {
            Option::None
        } else {
            Option::Some(
                spec_fold_lines(
                    RequestView {
                        method: m->Some_0,
                        target: tgt,
                        version: ver->Some_0,
                        host: Option::None,
                        user_agent: Option::None,
                        accept: Option::None,
                        accept_encoding: Seq::empty(),
                        body: Seq::empty(),
                    },
                    ls,
                    1,
                ),
            )
        }
    }
}

impl HttpRequest {
    /// Parses one connection's worth of raw bytes into a request, or fails
    /// exactly when the bytes do not denote one.
    pub fn from_bytes(input: &Vec<u8>) -> (r: Result<HttpRequest, ()>)
        ensures
            match spec_parse(input@) {
                Option::Some(m) => (r matches Ok(req) && req@ == m),
                Option::None => r is Err,
            },
    {
        let ghost ls = spec_lines(input@);
        let lines = split_lines(input);
        proof {
            crate::text::lemma_deep_view_bytes(lines);
        }
        if lines.len() == 0 {
            return Err(());
        }
        let toks = split_tokens(&lines[0]);
        proof {
            crate::text::lemma_deep_view_bytes(toks);
            assert(lines@[0]@ == ls[0]);
            assert(toks.deep_view() == spec_tokens(ls[0]));
        }
        let t0: Option<&Vec<u8>> = if toks.len() > 0 {
            Some(&toks[0])
        } else {
            None
        };
        let method = match parse_method(t0) {
            Ok(m) => m,
            Err(_) => {
                return Err(());
            },
        };
        let t1: Option<&Vec<u8>> = if toks.len() > 1 {
            Some(&toks[1])
        } else {
            None
        };
        let target = match parse_target(t1) {
            Ok(t) => t,
            Err(_) => {
                return Err(());
            },
        };
        let t2: Option<&Vec<u8>> = if toks.len() > 2 {
            Some(&toks[2])
        } else {
            None
        };
        let version = match parse_version(t2) {
            Ok(v) => v,
            Err(_) => {
                return Err(());
            },
        };
        let mut req = HttpRequest::new(method, target, version, Vec::new());
        let ghost base = req@;
        proof {
            assert(spec_parse(input@) == Option::Some(spec_fold_lines(base, ls, 1)));
        }
        // find the end of the header block: the first empty line
        let mut h: usize = 1;
        while h < lines.len() && lines[h].len() > 0
            invariant
                1 <= h <= lines@.len(),
                ls.len() == lines@.len(),
                forall|k: int| 0 <= k < lines@.len() ==> #[trigger] lines@[k]@ == ls[k],
                forall|k: int| 1 <= k < h ==> ls[k].len() > 0,
            decreases lines@.len() - h,
        {
            h = h + 1;
        }
        // fold the header lines in order
        let mut i: usize = 1;
        while i < h
            invariant
                1 <= i <= h,
                h <= lines@.len(),
                ls.len() == lines@.len(),
                forall|k: int| 0 <= k < lines@.len() ==> #[trigger] lines@[k]@ == ls[k],
                forall|k: int| 1 <= k < h ==> ls[k].len() > 0,
                spec_fold_lines(base, ls, 1) == spec_fold_lines(req@, ls, i as int),
            decreases h - i,
        {
            let line = &lines[i];
            let ghost prev = req@;
            if let Ok(v) = parse_host(line) {
                req.host = Some(v);
            } else if let Ok(v) = parse_user_agent(line) {
                req.user_agent = Some(v);
            } else if let Ok(v) = parse_accept(line) {
                req.accept = Some(v);
            } else if let Ok(v) = parse_accept_encoding(line) {
                req.accept_encoding = v;
            }
            proof {
                assert(line@ == ls[i as int]);
                assert(req@ == spec_header_update(prev, ls[i as int]));
                assert(ls[i as int].len() > 0);
                assert(spec_fold_lines(prev, ls, i as int) == spec_fold_lines(req@, ls, i + 1));
            }
            i = i + 1;
        }
        // the line after the empty line, if any, is the body
        if h < lines.len() {
            let ghost pre_body = req@;
            assert(ls[h as int].len() == 0);
            if h + 1 < lines.len() {
                req.body = crate::text::copy_bytes(&lines[h + 1]);
            }
            proof {
                assert(spec_fold_lines(pre_body, ls, h as int) == req@);
            }
        }
        Ok(req)
    }
}

} // verus!
