use vstd::prelude::*;

use crate::request::http11_token;
use crate::wire::{
    copy_bytes, crlf, decimal, headers_view, push_all, push_crlf, push_decimal, Header,
};

verus! {

/// What `hyper::StatusCode::canonical_reason` gives for a status code.
pub uninterp spec fn canonical_reason_of(code: u16) -> Option<Seq<u8>>;

/// Relies on `hyper::StatusCode::from_u16`, which accepts every code in
/// 100..=999, and on `StatusCode::canonical_reason`, the registered reason
/// phrase of that code ("OK" for 200, "Not Found" for 404), if it has one.
#[verifier::external_body]
fn canonical_reason(code: u16) -> (r: Option<Vec<u8>>)
    requires
        100 <= code <= 999,
    ensures
        match r {
            Some(p) => canonical_reason_of(code) == Some(p@),
            None => canonical_reason_of(code).is_none(),
        },
        code == 200 ==> r.is_some() && r.unwrap()@ == seq![0x4fu8, 0x4bu8],
        code == 404 ==> r.is_some() && r.unwrap()@ == not_found_phrase(),
{
    match hyper::StatusCode::from_u16(code) {
        Ok(status) => status.canonical_reason().map(|p| p.as_bytes().to_vec()),
        Err(_) => None,
    }
}

/// `Not Found`
pub open spec fn not_found_phrase() -> Seq<u8> {
    seq![0x4eu8, 0x6fu8, 0x74u8, 0x20u8, 0x46u8, 0x6fu8, 0x75u8, 0x6eu8, 0x64u8]
}

/// `content-type`
pub open spec fn content_type_name() -> Seq<u8> {
    seq![0x63u8, 0x6fu8, 0x6eu8, 0x74u8, 0x65u8, 0x6eu8, 0x74u8, 0x2du8, 0x74u8, 0x79u8, 0x70u8, 0x65u8]
}

/// `content-length`
pub open spec fn content_length_name() -> Seq<u8> {
    seq![0x63u8, 0x6fu8, 0x6eu8, 0x74u8, 0x65u8, 0x6eu8, 0x74u8, 0x2du8, 0x6cu8, 0x65u8, 0x6eu8, 0x67u8, 0x74u8, 0x68u8]
}

/// The reason phrase rendered for `code`: the canonical one, or nothing for
/// a code that has none.
pub open spec fn reason_phrase(code: u16) -> Seq<u8> {
    match canonical_reason_of(code) {
        Some(p) => p,
        None => Seq::empty(),
    }
}

/// `HTTP/1.1 <code> <reason>\r\n`: every response announces `HTTP/1.1`,
/// whatever version the request declared.
pub open spec fn status_line(code: u16) -> Seq<u8> {
    http11_token() + seq![0x20u8] + decimal(code as nat) + seq![0x20u8] + reason_phrase(code) + crlf()
}

/// `<name>: <value>\r\n`
pub open spec fn header_line(h: (Seq<u8>, Seq<u8>)) -> Seq<u8> {
    h.0 + seq![0x3au8, 0x20u8] + h.1 + crlf()
}

/// The header lines of `hs`, in the order given.
pub open spec fn header_block(hs: Seq<(Seq<u8>, Seq<u8>)>) -> Seq<u8>
    decreases hs.len(),
{
    if hs.len() == 0 {
        Seq::empty()
    } else {
        header_block(hs.drop_last()) + header_line(hs.last())
    }
}

/// The abstract value of a response.
pub ghost struct ResponseView {
    pub status: u16,
    pub headers: Seq<(Seq<u8>, Seq<u8>)>,
    pub body: Option<Seq<u8>>,
}

impl ResponseView {
    /// A status code in range, and a body only together with a
    /// `content-length` header that gives its length.
    pub open spec fn wf(self) -> bool {
        &&& 100 <= self.status <= 599
        &&& match self.body {
            Some(b) => exists|i: int|
                0 <= i < self.headers.len() && #[trigger] self.headers[i] == (
                content_length_name(),
                decimal(b.len()),
            ),
            None => true,
        }
    }

    /// Everything up to and including the blank line that ends the headers.
    pub open spec fn head_bytes(self) -> Seq<u8> {
        status_line(self.status) + header_block(self.headers) + crlf()
    }

    /// The body bytes, or nothing.
    pub open spec fn body_bytes(self) -> Seq<u8> {
        match self.body {
            Some(b) => b,
            None => Seq::empty(),
        }
    }

    /// The complete bytes sent for this response.
    pub open spec fn wire_bytes(self) -> Seq<u8> {
        self.head_bytes() + self.body_bytes()
    }
}

/// An HTTP response: status, headers in insertion order, optional body.
#[derive(Debug)]
pub struct Response {
    status: u16,
    headers: Vec<Header>,
    body: Option<Vec<u8>>,
}

impl View for Response {
    type V = ResponseView;

    closed spec fn view(&self) -> ResponseView {
        ResponseView {
            status: self.status,
            headers: headers_view(self.headers@),
            body: match self.body {
                Some(b) => Some(b@),
                None => None,
            },
        }
    }
}

impl Response {
    #[verifier::type_invariant]
    spec fn inv(self) -> bool {
        self@.wf()
    }

    /// A response with the given status, no headers and no body.
    pub fn new(status: u16) -> (r: Response)
        requires
            100 <= status <= 599,
        ensures
            r@ == (ResponseView { status, headers: Seq::empty(), body: None }),
    {
        let r = Response { status, headers: Vec::new(), body: None };
        assert(r@.headers =~= Seq::empty());
        r
    }

    /// A response with the given status and body, announced by a
    /// `content-type` header with the given value and a `content-length`
    /// header with the body's length, in that order.
    pub fn with_body(status: u16, content_type: &[u8], body: Vec<u8>) -> (r: Response)
        requires
            100 <= status <= 599,
        ensures
            r@ == (ResponseView {
                status,
                headers: seq![
                    (content_type_name(), content_type@),
                    (content_length_name(), decimal(body@.len())),
                ],
                body: Some(body@),
            }),
    {
        let ct_name: Vec<u8> = vec![
            0x63u8, 0x6fu8, 0x6eu8, 0x74u8, 0x65u8, 0x6eu8, 0x74u8, 0x2du8, 0x74u8, 0x79u8, 0x70u8, 0x65u8,
        ];
        let cl_name: Vec<u8> = vec![
            0x63u8, 0x6fu8, 0x6eu8, 0x74u8, 0x65u8, 0x6eu8, 0x74u8, 0x2du8, 0x6cu8, 0x65u8, 0x6eu8, 0x67u8, 0x74u8, 0x68u8,
        ];
        let mut len_digits: Vec<u8> = Vec::new();
        push_decimal(&mut len_digits, body.len());
        assert(len_digits@ =~= decimal(body@.len()));
        let mut headers: Vec<Header> = Vec::new();
        headers.push(Header { name: ct_name, value: copy_bytes(content_type) });
        headers.push(Header { name: cl_name, value: len_digits });
        let ghost hs = seq![
            (content_type_name(), content_type@),
            (content_length_name(), decimal(body@.len())),
        ];
        assert(headers_view(headers@) =~= hs);
        let ghost v = ResponseView { status, headers: hs, body: Some(body@) };
        assert(v.headers[1] == (content_length_name(), decimal(body@.len())));
        assert(v.wf());
        Response { status, headers, body: Some(body) }
    }

    /// The status line, the header lines and the blank line that ends them.
    pub fn serialize_without_body(&self) -> (r: Vec<u8>)
        ensures
            r@ == self@.head_bytes(),
            self@.wf(),
    {
        proof {
            use_type_invariant(self);
        }
        let mut out: Vec<u8> = vec![0x48u8, 0x54u8, 0x54u8, 0x50u8, 0x2fu8, 0x31u8, 0x2eu8, 0x31u8, 0x20u8];
        push_decimal(&mut out, self.status as usize);
        out.push(0x20u8);
        match canonical_reason(self.status) {
            Some(p) => push_all(&mut out, p.as_slice()),
            None => {},
        }
        push_crlf(&mut out);
        assert(out@ =~= status_line(self.status));
        let ghost hs = self@.headers;
        let mut i: usize = 0;
        while i < self.headers.len()
            invariant
                i <= self.headers@.len(),
                hs == headers_view(self.headers@),
                out@ == status_line(self.status) + header_block(hs.take(i as int)),
            decreases self.headers@.len() - i,
        {
            let h = &self.headers[i];
            let ghost before = out@;
            push_all(&mut out, h.name.as_slice());
            out.push(0x3au8);
            out.push(0x20u8);
            push_all(&mut out, h.value.as_slice());
            push_crlf(&mut out);
            proof {
                assert(hs.take(i + 1).drop_last() =~= hs.take(i as int));
                assert(hs.take(i + 1).last() == h@);
                assert(out@ =~= before + header_line(h@));
            }
            i += 1;
        }
        assert(hs.take(i as int) =~= hs);
        push_crlf(&mut out);
        out
    }

    /// The complete bytes of this response: head, then the body as it is.
    pub fn serialize(&self) -> (r: Vec<u8>)
        ensures
            r@ == self@.wire_bytes(),
            self@.wf(),
    {
        let mut out = self.serialize_without_body();
        match &self.body {
            Some(b) => push_all(&mut out, b.as_slice()),
            None => {},
        }
        assert(out@ =~= self@.wire_bytes());
        out
    }
}

/// Rendering two lists of headers one after the other is rendering their
/// concatenation.
pub proof fn lemma_header_block_append(
    a: Seq<(Seq<u8>, Seq<u8>)>,
    b: Seq<(Seq<u8>, Seq<u8>)>,
)
    ensures
        header_block(a + b) == header_block(a) + header_block(b),
    decreases b.len(),
{
    if b.len() == 0 {
        assert(a + b =~= a);
        assert(header_block(a) + header_block(b) =~= header_block(a));
    } else {
        lemma_header_block_append(a, b.drop_last());
        assert((a + b).drop_last() =~= a + b.drop_last());
        assert((a + b).last() == b.last());
        assert(header_block(a + b) =~= header_block(a) + header_block(b));
    }
}

/// Serialization keeps header order: the bytes of a response are its status
/// line, the lines of the headers before the `i`-th, the `i`-th header's
/// line, the lines of the headers after it, the blank line and the body.
pub proof fn serialize_keeps_header_order(r: ResponseView, i: int)
    requires
        0 <= i < r.headers.len(),
    ensures
        r.wire_bytes() == status_line(r.status) + header_block(r.headers.take(i))
            + header_line(r.headers[i]) + header_block(r.headers.skip(i + 1)) + crlf()
            + r.body_bytes(),
{
    let hs = r.headers;
    let one = seq![hs[i]];
    assert(hs =~= hs.take(i) + one + hs.skip(i + 1));
    lemma_header_block_append(hs.take(i) + one, hs.skip(i + 1));
    lemma_header_block_append(hs.take(i), one);
    assert(one.drop_last() =~= Seq::<(Seq<u8>, Seq<u8>)>::empty());
    assert(one.last() == hs[i]);
    assert(header_block(one.drop_last()) =~= Seq::<u8>::empty());
    assert(header_block(one) =~= header_line(hs[i]));
    assert(r.wire_bytes() =~= status_line(r.status) + header_block(hs.take(i)) + header_line(
        hs[i],
    ) + header_block(hs.skip(i + 1)) + crlf() + r.body_bytes());
}

/// Serialization depends on the response's value alone: two responses with
/// the same value, or one response serialized twice, give the same bytes.
pub proof fn serialize_is_deterministic(a: &Response, b: &Response)
    requires
        a@ == b@,
    ensures
        a@.wire_bytes() == b@.wire_bytes(),
        a@.head_bytes() == b@.head_bytes(),
{
}

} // verus!
