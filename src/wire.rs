use vstd::prelude::*;
use vstd::string::StringSliceAdditionalSpecFns;

verus! {

/// Appends all of `src` to `out`.
pub fn append_bytes(out: &mut Vec<u8>, src: &[u8])
    ensures
        final(out)@ == old(out)@ + src@,
{
    let mut i: usize = 0;
    while i < src.len()
        invariant
            i <= src@.len(),
            out@ == old(out)@ + src@.subrange(0, i as int),
        decreases src@.len() - i,
    {
        out.push(src[i]);
        i = i + 1;
        assert(src@.subrange(0, i as int) == src@.subrange(0, i - 1 as int).push(src@[i - 1]));
    }
    assert(src@.subrange(0, src@.len() as int) == src@);
}

/// Whether two byte sequences are equal.
pub fn bytes_eq(a: &[u8], b: &[u8]) -> (r: bool)
    ensures
        r == (a@ == b@),
{
    if a.len() != b.len() {
        return false;
    }
    let mut i: usize = 0;
    while i < a.len()
        invariant
            i <= a@.len(),
            a@.len() == b@.len(),
            forall|j: int| 0 <= j < i ==> a@[j] == b@[j],
        decreases a@.len() - i,
    {
        if a[i] != b[i] {
            return false;
        }
        i = i + 1;
    }
    assert(a@ =~= b@);
    true
}

/// A copy of the bytes of `s` from position `start` on.
pub fn tail_from(s: &[u8], start: usize) -> (r: Vec<u8>)
    requires
        start <= s@.len(),
    ensures
        r@ == s@.subrange(start as int, s@.len() as int),
{
    let mut out: Vec<u8> = Vec::new();
    let mut i: usize = start;
    while i < s.len()
        invariant
            start <= i <= s@.len(),
            out@ == s@.subrange(start as int, i as int),
        decreases s@.len() - i,
    {
        out.push(s[i]);
        i = i + 1;
        assert(s@.subrange(start as int, i as int) == s@.subrange(start as int, i - 1 as int).push(
            s@[i - 1],
        ));
    }
    out
}

/// The bytes of a string.
pub fn bytes_of(s: &str) -> (r: Vec<u8>)
    ensures
        r@ == s.spec_bytes(),
{
    let mut out: Vec<u8> = Vec::new();
    append_bytes(&mut out, s.as_bytes());
    out
}

/// The decimal digits of `n`, most significant first, without leading zeros.
pub open spec fn decimal(n: nat) -> Seq<u8>
    decreases n,
{
    if n < 10 {
        seq![(48 + n) as u8]
    } else {
        decimal(n / 10).push((48 + n % 10) as u8)
    }
}

/// Appends the decimal digits of `n` to `out`.
pub fn append_decimal(out: &mut Vec<u8>, n: u32)
    ensures
        final(out)@ == old(out)@ + decimal(n as nat),
    decreases n,
{
    if n >= 10 {
        append_decimal(out, n / 10);
    }
    let ghost mid = out@;
    out.push(48 + (n % 10) as u8);
    assert(out@ == old(out)@ + decimal(n as nat)) by {
        if n >= 10 {
            assert(mid == old(out)@ + decimal((n / 10) as nat));
        } else {
            assert(mid == old(out)@);
        }
    }
}

/// The status of a reply.
#[derive(Clone, Copy, PartialEq, Eq, Structural)]
pub enum Status {
    Success,
    BadRequest,
    InternalError,
}

/// The media type of a reply's body.
#[derive(Clone, Copy, PartialEq, Eq, Structural)]
pub enum ContentType {
    Html,
    Json,
    Plain,
}

/// One reply: a status, the type of its body, and the body.
pub struct Response {
    pub status: Status,
    pub content_type: ContentType,
    pub body: Vec<u8>,
}

pub open spec fn status_line(s: Status) -> Seq<u8> {
    match s {
        Status::Success => "HTTP/1.1 200 OK".spec_bytes(),
        Status::BadRequest => "HTTP/1.1 400 BAD REQUEST".spec_bytes(),
        Status::InternalError => "HTTP/1.1 500 INTERNAL SERVER ERROR".spec_bytes(),
    }
}

pub open spec fn media_type(c: ContentType) -> Seq<u8> {
    match c {
        ContentType::Html => "text/html".spec_bytes(),
        ContentType::Json => "text/json".spec_bytes(),
        ContentType::Plain => "text/plain".spec_bytes(),
    }
}

/// The bytes sent for a reply: the status line, one `Content-Type` header,
/// an empty line, the body, and a closing line break.
pub open spec fn encoding(status: Status, content_type: ContentType, body: Seq<u8>) -> Seq<u8> {
    status_line(status) + "\r\nContent-Type: ".spec_bytes() + media_type(content_type)
        + "; charset=UTF-8\r\n\r\n".spec_bytes() + body + "\r\n".spec_bytes()
}

/// Serializes a reply into the bytes to write back.
pub fn encode_response(resp: &Response) -> (r: Vec<u8>)
    ensures
        r@ == encoding(resp.status, resp.content_type, resp.body@),
{
    let mut out: Vec<u8> = Vec::new();
    match resp.status {
        Status::Success => append_bytes(&mut out, "HTTP/1.1 200 OK".as_bytes()),
        Status::BadRequest => append_bytes(&mut out, "HTTP/1.1 400 BAD REQUEST".as_bytes()),
        Status::InternalError => append_bytes(
            &mut out,
            "HTTP/1.1 500 INTERNAL SERVER ERROR".as_bytes(),
        ),
    }
    append_bytes(&mut out, "\r\nContent-Type: ".as_bytes());
    match resp.content_type {
        ContentType::Html => append_bytes(&mut out, "text/html".as_bytes()),
        ContentType::Json => append_bytes(&mut out, "text/json".as_bytes()),
        ContentType::Plain => append_bytes(&mut out, "text/plain".as_bytes()),
    }
    append_bytes(&mut out, "; charset=UTF-8\r\n\r\n".as_bytes());
    append_bytes(&mut out, resp.body.as_slice());
    append_bytes(&mut out, "\r\n".as_bytes());
    out
}

} // verus!
