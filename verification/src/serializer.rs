//! The response serializer: a structured response to its exact HTTP/1.1
//! wire format,
//! `{version} {status}\r\nContent-Type: {type}\r\nContent-Length: {length}\r\n\r\n{body}`,
//! with the status and content-type texts fixed per variant and the length
//! rendered in decimal. No other headers are ever emitted. The round-trip
//! lemmas show that the header block contains no `\r\n\r\n`, so splitting
//! the wire bytes at the first separator recovers the header block and the
//! body exactly.

use vstd::prelude::*;

use crate::message::{
    resp_wf, HttpApplicationContentType, HttpContentType, HttpResponse, HttpStatus, HttpVersion,
    ResponseView,
};
use crate::parser::{http11_bytes, lit_http11};
use crate::text::push_all;

verus! {

/// The byte of one decimal digit.
pub open spec fn spec_dec_digit(d: int) -> u8 {
    ('0' as u8 + d) as u8
}

/// The decimal rendering of `n`, most significant digit first, without
/// leading zeros (a lone zero for 0).
pub open spec fn spec_dec(n: int) -> Seq<u8>
    decreases n,
{
    if n < 10 {
        seq![spec_dec_digit(n)]
    } else {
        spec_dec(n / 10) + seq![spec_dec_digit(n % 10)]
    }
}

/// Every byte of a nonnegative number's rendering is a digit.
pub proof fn lemma_dec_digits(n: int)
    requires
        n >= 0,
    ensures
        spec_dec(n).len() >= 1,
        forall|i: int| 0 <= i < spec_dec(n).len() ==> '0' as u8 <= #[trigger] spec_dec(n)[i]
            <= '9' as u8,
    decreases n,
{
    if n >= 10 {
        lemma_dec_digits(n / 10);
        assert forall|i: int| 0 <= i < spec_dec(n).len() implies '0' as u8 <= #[trigger] spec_dec(
            n,
        )[i] <= '9' as u8 by {
            if i < spec_dec(n / 10).len() {
                assert(spec_dec(n)[i] == spec_dec(n / 10)[i]);
            } else {
                assert(spec_dec(n)[i] == spec_dec_digit(n % 10));
            }
        }
    }
}

/// `spec_dec`, executably.
pub fn render_dec(n: usize) -> (v: Vec<u8>)
    ensures
        v@ == spec_dec(n as int),
    decreases n,
{
    if n < 10 {
        let mut v: Vec<u8> = Vec::new();
        v.push('0' as u8 + (n as u8));
        assert(v@ =~= spec_dec(n as int));
        v
    } else {
        let mut v = render_dec(n / 10);
        v.push('0' as u8 + ((n % 10) as u8));
        assert(v@ =~= spec_dec((n / 10) as int) + seq![spec_dec_digit((n % 10) as int)]);
        v
    }
}

pub open spec fn crlf() -> Seq<u8> {
    seq!['\r' as u8, '\n' as u8]
}

/// The `\r\n\r\n` separator between the header block and the body.
pub open spec fn crlf2() -> Seq<u8> {
    seq!['\r' as u8, '\n' as u8, '\r' as u8, '\n' as u8]
}

/// The fixed status-line text of each status.
pub open spec fn spec_status_text(s: HttpStatus) -> Seq<u8> {
    match s {
        HttpStatus::Okay => seq!['2' as u8, '0' as u8, '0' as u8, ' ' as u8, 'O' as u8, 'K' as u8],
        HttpStatus::Created => seq![
            '2' as u8,
            '0' as u8,
            '1' as u8,
            ' ' as u8,
            'C' as u8,
            'R' as u8,
            'E' as u8,
            'A' as u8,
            'T' as u8,
            'E' as u8,
            'D' as u8,
        ],
        HttpStatus::NotFound => seq![
            '4' as u8,
            '0' as u8,
            '4' as u8,
            ' ' as u8,
            'N' as u8,
            'O' as u8,
            'T' as u8,
            ' ' as u8,
            'F' as u8,
            'O' as u8,
            'U' as u8,
            'N' as u8,
            'D' as u8,
        ],
    }
}

pub fn status_text_bytes(s: &HttpStatus) -> (v: Vec<u8>)
    ensures
        v@ == spec_status_text(*s),
{
    let mut v: Vec<u8> = Vec::new();
    match s {
        HttpStatus::Okay => {
            v.push('2' as u8);
            v.push('0' as u8);
            v.push('0' as u8);
            v.push(' ' as u8);
            v.push('O' as u8);
            v.push('K' as u8);
        },
        HttpStatus::Created => {
            v.push('2' as u8);
            v.push('0' as u8);
            v.push('1' as u8);
            v.push(' ' as u8);
            v.push('C' as u8);
            v.push('R' as u8);
            v.push('E' as u8);
            v.push('A' as u8);
            v.push('T' as u8);
            v.push('E' as u8);
            v.push('D' as u8);
        },
        HttpStatus::NotFound => {
            v.push('4' as u8);
            v.push('0' as u8);
            v.push('4' as u8);
            v.push(' ' as u8);
            v.push('N' as u8);
            v.push('O' as u8);
            v.push('T' as u8);
            v.push(' ' as u8);
            v.push('F' as u8);
            v.push('O' as u8);
            v.push('U' as u8);
            v.push('N' as u8);
            v.push('D' as u8);
        },
    }
    assert(v@ =~= spec_status_text(*s));
    v
}

/// The fixed text of each content type.
pub open spec fn spec_content_type_text(ct: HttpContentType) -> Seq<u8> {
    match ct {
        HttpContentType::TextPlain => seq![
            't' as u8,
            'e' as u8,
            'x' as u8,
            't' as u8,
            '/' as u8,
            'p' as u8,
            'l' as u8,
            'a' as u8,
            'i' as u8,
            'n' as u8,
        ],
        HttpContentType::Application(HttpApplicationContentType::OctetStream) => seq![
            'a' as u8,
            'p' as u8,
            'p' as u8,
            'l' as u8,
            'i' as u8,
            'c' as u8,
            'a' as u8,
            't' as u8,
            'i' as u8,
            'o' as u8,
            'n' as u8,
            '/' as u8,
            'o' as u8,
            'c' as u8,
            't' as u8,
            'e' as u8,
            't' as u8,
            '-' as u8,
            's' as u8,
            't' as u8,
            'r' as u8,
            'e' as u8,
            'a' as u8,
            'm' as u8,
        ],
    }
}

pub fn content_type_text_bytes(ct: &HttpContentType) -> (v: Vec<u8>)
    ensures
        v@ == spec_content_type_text(*ct),
{
    let mut v: Vec<u8> = Vec::new();
    match ct {
        HttpContentType::TextPlain => {
            v.push('t' as u8);
            v.push('e' as u8);
            v.push('x' as u8);
            v.push('t' as u8);
            v.push('/' as u8);
            v.push('p' as u8);
            v.push('l' as u8);
            v.push('a' as u8);
            v.push('i' as u8);
            v.push('n' as u8);
        },
        HttpContentType::Application(HttpApplicationContentType::OctetStream) => {
            v.push('a' as u8);
            v.push('p' as u8);
            v.push('p' as u8);
            v.push('l' as u8);
            v.push('i' as u8);
            v.push('c' as u8);
            v.push('a' as u8);
            v.push('t' as u8);
            v.push('i' as u8);
            v.push('o' as u8);
            v.push('n' as u8);
            v.push('/' as u8);
            v.push('o' as u8);
            v.push('c' as u8);
            v.push('t' as u8);
            v.push('e' as u8);
            v.push('t' as u8);
            v.push('-' as u8);
            v.push('s' as u8);
            v.push('t' as u8);
            v.push('r' as u8);
            v.push('e' as u8);
            v.push('a' as u8);
            v.push('m' as u8);
        },
    }
    assert(v@ =~= spec_content_type_text(*ct));
    v
}

pub open spec fn lit_content_type_header() -> Seq<u8> {
    seq![
        'C' as u8,
        'o' as u8,
        'n' as u8,
        't' as u8,
        'e' as u8,
        'n' as u8,
        't' as u8,
        '-' as u8,
        'T' as u8,
        'y' as u8,
        'p' as u8,
        'e' as u8,
        ':' as u8,
        ' ' as u8,
    ]
}

pub fn content_type_header_bytes() -> (v: Vec<u8>)
    ensures
        v@ == lit_content_type_header(),
{
    let mut v: Vec<u8> = Vec::new();
    v.push('C' as u8);
    v.push('o' as u8);
    v.push('n' as u8);
    v.push('t' as u8);
    v.push('e' as u8);
    v.push('n' as u8);
    v.push('t' as u8);
    v.push('-' as u8);
    v.push('T' as u8);
    v.push('y' as u8);
    v.push('p' as u8);
    v.push('e' as u8);
    v.push(':' as u8);
    v.push(' ' as u8);
    assert(v@ =~= lit_content_type_header());
    v
}

pub open spec fn lit_content_length_header() -> Seq<u8> {
    seq![
        'C' as u8,
        'o' as u8,
        'n' as u8,
        't' as u8,
        'e' as u8,
        'n' as u8,
        't' as u8,
        '-' as u8,
        'L' as u8,
        'e' as u8,
        'n' as u8,
        'g' as u8,
        't' as u8,
        'h' as u8,
        ':' as u8,
        ' ' as u8,
    ]
}

pub fn content_length_header_bytes() -> (v: Vec<u8>)
    ensures
        v@ == lit_content_length_header(),
{
    let mut v: Vec<u8> = Vec::new();
    v.push('C' as u8);
    v.push('o' as u8);
    v.push('n' as u8);
    v.push('t' as u8);
    v.push('e' as u8);
    v.push('n' as u8);
    v.push('t' as u8);
    v.push('-' as u8);
    v.push('L' as u8);
    v.push('e' as u8);
    v.push('n' as u8);
    v.push('g' as u8);
    v.push('t' as u8);
    v.push('h' as u8);
    v.push(':' as u8);
    v.push(' ' as u8);
    assert(v@ =~= lit_content_length_header());
    v
}

/// The header block of a response's wire format: everything before the
/// `\r\n\r\n` separator.
pub open spec fn spec_header_block(r: ResponseView) -> Seq<u8> {
    lit_http11() + seq![' ' as u8] + spec_status_text(r.status) + crlf()
        + lit_content_type_header() + spec_content_type_text(r.content_type) + crlf()
        + lit_content_length_header() + spec_dec(r.content_length)
}

/// The full wire format of a response.
pub open spec fn spec_serialize(r: ResponseView) -> Seq<u8> {
    spec_header_block(r) + crlf2() + r.body
}

impl HttpResponse {
    /// Renders the response into its exact wire format.
    pub fn to_bytes(&self) -> (v: Vec<u8>)
        ensures
            v@ == spec_serialize(self@),
    {
        let mut v = http11_bytes();
        v.push(' ' as u8);
        let st = status_text_bytes(&self.status);
        push_all(&mut v, &st);
        v.push('\r' as u8);
        v.push('\n' as u8);
        let cth = content_type_header_bytes();
        push_all(&mut v, &cth);
        let ctt = content_type_text_bytes(&self.content_type);
        push_all(&mut v, &ctt);
        v.push('\r' as u8);
        v.push('\n' as u8);
        let clh = content_length_header_bytes();
        push_all(&mut v, &clh);
        let n = render_dec(self.content_length);
        push_all(&mut v, &n);
        v.push('\r' as u8);
        v.push('\n' as u8);
        v.push('\r' as u8);
        v.push('\n' as u8);
        push_all(&mut v, &self.body);
        assert(v@ =~= spec_serialize(self@));
        v
    }
}

/// No byte of `x` is a carriage return or a line feed.
pub open spec fn no_line_break(x: Seq<u8>) -> bool {
    forall|i: int| 0 <= i < x.len() ==> x[i] != '\r' as u8 && x[i] != '\n' as u8
}

/// The `\r\n\r\n` separator stands at position `i` of `s`.
pub open spec fn is_sep_at(s: Seq<u8>, i: int) -> bool {
    0 <= i && i + 4 <= s.len() && s[i] == '\r' as u8 && s[i + 1] == '\n' as u8 && s[i + 2]
        == '\r' as u8 && s[i + 3] == '\n' as u8
}

proof fn lemma_status_text_clean(s: HttpStatus)
    ensures
        no_line_break(spec_status_text(s)),
        spec_status_text(s).len() >= 1,
{
}

proof fn lemma_content_type_text_clean(ct: HttpContentType)
    ensures
        no_line_break(spec_content_type_text(ct)),
        spec_content_type_text(ct).len() >= 1,
{
}

proof fn lemma_dec_clean(n: int)
    requires
        n >= 0,
    ensures
        no_line_break(spec_dec(n)),
        spec_dec(n).len() >= 1,
{
    lemma_dec_digits(n);
}

/// The wire format of a response splits as header block, separator, body,
/// and the separator's first occurrence is exactly at the end of the header
/// block: it stands there, and nowhere earlier.
pub proof fn lemma_serialize_shape(r: ResponseView)
    requires
        r.content_length >= 0,
    ensures
        spec_serialize(r) == spec_header_block(r) + crlf2() + r.body,
        is_sep_at(spec_serialize(r), spec_header_block(r).len() as int),
        forall|i: int| 0 <= i < spec_header_block(r).len() ==> !is_sep_at(spec_serialize(r), i),
{
    let s = spec_serialize(r);
    let first = lit_http11() + seq![' ' as u8] + spec_status_text(r.status);
    let second = lit_content_type_header() + spec_content_type_text(r.content_type);
    let third = lit_content_length_header() + spec_dec(r.content_length);
    let h = spec_header_block(r);
    assert(h =~= first + crlf() + second + crlf() + third);
    assert(s =~= first + crlf() + second + crlf() + third + crlf2() + r.body);
    lemma_status_text_clean(r.status);
    lemma_content_type_text_clean(r.content_type);
    lemma_dec_clean(r.content_length);
    assert(no_line_break(first));
    assert(no_line_break(second));
    assert(no_line_break(third));
    let n1 = first.len() as int;
    let n2 = n1 + 2 + second.len() as int;
    let n3 = n2 + 2 + third.len() as int;
    assert(h.len() == n3);
    // where each byte of the header region comes from
    assert forall|k: int| 0 <= k < n3 implies #[trigger] s[k] == (if k < n1 {
        first[k]
    } else if k == n1 {
        '\r' as u8
    } else if k == n1 + 1 {
        '\n' as u8
    } else if k < n2 {
        second[k - n1 - 2]
    } else if k == n2 {
        '\r' as u8
    } else if k == n2 + 1 {
        '\n' as u8
    } else {
        third[k - n2 - 2]
    }) by {
    }
    assert(s[n3] == '\r' as u8);
    assert(s[n3 + 1] == '\n' as u8);
    assert(s[n3 + 2] == '\r' as u8);
    assert(s[n3 + 3] == '\n' as u8);
    assert(is_sep_at(s, n3));
    // a separator needs a carriage return, and the only carriage returns
    // before the end of the header block are the two line endings inside
    // it, each followed by the next line's first byte, which is not one
    assert forall|i: int| 0 <= i < n3 implies !is_sep_at(s, i) by {
        if is_sep_at(s, i) {
            assert(s[i] == '\r' as u8);
            if i == n1 {
                assert(s[i + 2] == second[0]);
            } else if i == n2 {
                assert(s[i + 2] == third[0]);
            }
        }
    }
}

/// A byte sequence splits at a first occurrence of the separator in only
/// one way: two splits whose header parts both contain no separator are the
/// same split.
pub proof fn lemma_split_at_sep_unique(
    s: Seq<u8>,
    h1: Seq<u8>,
    b1: Seq<u8>,
    h2: Seq<u8>,
    b2: Seq<u8>,
)
    requires
        s == h1 + crlf2() + b1,
        s == h2 + crlf2() + b2,
        forall|i: int| 0 <= i < h1.len() ==> !is_sep_at(s, i),
        forall|i: int| 0 <= i < h2.len() ==> !is_sep_at(s, i),
    ensures
        h1 == h2,
        b1 == b2,
{
    assert(is_sep_at(s, h1.len() as int));
    assert(is_sep_at(s, h2.len() as int));
    assert(h1.len() == h2.len());
    assert forall|i: int| 0 <= i < h1.len() implies h1[i] == h2[i] by {
        assert(h1[i] == s[i]);
        assert(h2[i] == s[i]);
    }
    assert(h1 =~= h2);
    assert(b1.len() == b2.len());
    assert forall|i: int| 0 <= i < b1.len() implies b1[i] == b2[i] by {
        assert(b1[i] == s[h1.len() + 4 + i]);
        assert(b2[i] == s[h2.len() + 4 + i]);
    }
    assert(b1 =~= b2);
}

/// Splitting a serialized response at the first `\r\n\r\n` recovers exactly
/// the header block and the body, with no byte lost, and the declared
/// `Content-Length` is exactly the body's length: whoever cuts the wire
/// bytes before the first separator gets the original parts back.
pub proof fn lemma_serialize_round_trip(r: ResponseView, h: Seq<u8>, b: Seq<u8>)
    requires
        resp_wf(r),
        spec_serialize(r) == h + crlf2() + b,
        forall|i: int| 0 <= i < h.len() ==> !is_sep_at(spec_serialize(r), i),
    ensures
        h == spec_header_block(r),
        b == r.body,
        r.content_length == b.len(),
{
    lemma_serialize_shape(r);
    lemma_split_at_sep_unique(spec_serialize(r), h, b, spec_header_block(r), r.body);
}

} // verus!
