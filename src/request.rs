use vstd::prelude::*;

use crate::wire::{copy_range, find_byte, headers_view, tail_equals, Header};

verus! {

/// The largest number of header fields a request may carry.
pub const MAX_HEADER_NUM: usize = 1024;

/// The space that separates the parts of a request line.
pub const SP: u8 = 0x20;

/// The colon that ends a header name.
pub const COLON: u8 = 0x3a;

/// The slash every request target starts with.
pub const SLASH: u8 = 0x2f;

/// Carriage return.
pub const CR: u8 = 0x0d;

/// Line feed.
pub const LF: u8 = 0x0a;

/// The protocol version a request declares.
#[derive(PartialEq, Eq, Structural, Clone, Copy, Debug)]
pub enum Version {
    Http10,
    Http11,
}

/// A request the parser refused.
#[derive(PartialEq, Eq, Structural, Clone, Copy, Debug)]
pub struct ParseError;

/// `HTTP/1.0`
pub open spec fn http10_token() -> Seq<u8> {
    seq![0x48u8, 0x54u8, 0x54u8, 0x50u8, 0x2fu8, 0x31u8, 0x2eu8, 0x30u8]
}

/// `HTTP/1.1`
pub open spec fn http11_token() -> Seq<u8> {
    seq![0x48u8, 0x54u8, 0x54u8, 0x50u8, 0x2fu8, 0x31u8, 0x2eu8, 0x31u8]
}

/// The version a version token names, if it names one.
pub open spec fn version_of(tok: Seq<u8>) -> Option<Version> {
    if tok == http10_token() {
        Some(Version::Http10)
    } else if tok == http11_token() {
        Some(Version::Http11)
    } else {
        None
    }
}

/// `line` holds a space at `i` and at `j` and nowhere else.
pub open spec fn spaces_at(line: Seq<u8>, i: int, j: int) -> bool {
    &&& 0 <= i < j < line.len()
    &&& line[i] == SP
    &&& line[j] == SP
    &&& forall|k: int| 0 <= k < line.len() && k != i && k != j ==> #[trigger] line[k] != SP
}

/// Method, target and version of a request line, if it is well formed:
/// exactly three parts separated by single spaces, a non-empty method, a
/// target that starts with `/`, and a known version token.
pub open spec fn request_line(line: Seq<u8>) -> Option<(Seq<u8>, Seq<u8>, Version)> {
    if exists|i: int, j: int| spaces_at(line, i, j) {
        let (i, j) = choose|i: int, j: int| spaces_at(line, i, j);
        let method = line.subrange(0, i);
        let target = line.subrange(i + 1, j);
        let version = version_of(line.subrange(j + 1, line.len() as int));
        if method.len() > 0 && target.len() > 0 && target[0] == SLASH && version.is_some() {
            Some((method, target, version.unwrap()))
        } else {
            None
        }
    } else {
        None
    }
}

/// `c` is the position of the first colon of `line`.
pub open spec fn first_colon(line: Seq<u8>, c: int) -> bool {
    &&& 0 <= c < line.len()
    &&& line[c] == COLON
    &&& forall|k: int| 0 <= k < c ==> #[trigger] line[k] != COLON
}

/// `s` without its first byte if that byte is a space.
pub open spec fn strip_one_space(s: Seq<u8>) -> Seq<u8> {
    if s.len() > 0 && s[0] == SP {
        s.skip(1)
    } else {
        s
    }
}

/// `s` holds a carriage return or a line feed.
pub open spec fn has_line_break(s: Seq<u8>) -> bool {
    exists|k: int| 0 <= k < s.len() && (#[trigger] s[k] == CR || s[k] == LF)
}

/// What one header line contributes: `None` if it is malformed (no colon,
/// or a line break in the value), `Some(None)` if it is skipped (blank, or
/// an empty name), `Some(Some(field))` otherwise.
pub open spec fn header_entry(line: Seq<u8>) -> Option<Option<(Seq<u8>, Seq<u8>)>> {
    if line.len() == 0 {
        Some(None)
    } else if exists|c: int| first_colon(line, c) {
        let c = choose|c: int| first_colon(line, c);
        let value = strip_one_space(line.skip(c + 1));
        if c == 0 {
            Some(None)
        } else if has_line_break(value) {
            None
        } else {
            Some(Some((line.take(c), value)))
        }
    } else {
        None
    }
}

/// The header fields of `lines`, in order, or `None` if one is malformed.
pub open spec fn header_entries(lines: Seq<Seq<u8>>) -> Option<Seq<(Seq<u8>, Seq<u8>)>>
    decreases lines.len(),
{
    if lines.len() == 0 {
        Some(Seq::empty())
    } else {
        match header_entries(lines.drop_last()) {
            None => None,
            Some(hs) => match header_entry(lines.last()) {
                None => None,
                Some(None) => Some(hs),
                Some(Some(h)) => Some(hs.push(h)),
            },
        }
    }
}

/// The abstract value of a request.
pub ghost struct RequestView {
    pub method: Seq<u8>,
    pub target: Seq<u8>,
    pub version: Version,
    pub headers: Seq<(Seq<u8>, Seq<u8>)>,
}

/// The request that a header block, given as its lines without their line
/// terminators, describes; `None` where the block is malformed or carries
/// more than `MAX_HEADER_NUM` fields.
pub open spec fn parse_spec(lines: Seq<Seq<u8>>) -> Option<RequestView> {
    if lines.len() == 0 {
        None
    } else {
        match request_line(lines[0]) {
            None => None,
            Some((method, target, version)) => match header_entries(lines.skip(1)) {
                Some(headers) => if headers.len() <= MAX_HEADER_NUM {
                    Some(RequestView { method, target, version, headers })
                } else {
                    None
                },
                None => None,
            },
        }
    }
}

/// The abstract value of a list of lines.
pub open spec fn lines_view(lines: Seq<Vec<u8>>) -> Seq<Seq<u8>> {
    lines.map_values(|l: Vec<u8>| l@)
}

/// A parsed request: method, target, version and header fields in order.
#[derive(Debug)]
pub struct Request {
    pub method: Vec<u8>,
    pub target: Vec<u8>,
    pub version: Version,
    pub headers: Vec<Header>,
}

impl View for Request {
    type V = RequestView;

    open spec fn view(&self) -> RequestView {
        RequestView {
            method: self.method@,
            target: self.target@,
            version: self.version,
            headers: headers_view(self.headers@),
        }
    }
}

/// Parses a request line.
pub fn parse_request_line(line: &[u8]) -> (r: Result<(Vec<u8>, Vec<u8>, Version), ParseError>)
    ensures
        match r {
            Ok((m, t, v)) => request_line(line@) == Some((m@, t@, v)),
            Err(_) => request_line(line@).is_none(),
        },
{
    let n: usize = line.len();
    let i = match find_byte(line, SP, 0) {
        Some(i) => i,
        None => {
            return Err(ParseError);
        },
    };
    let j = match find_byte(line, SP, i + 1) {
        Some(j) => j,
        None => {
            assert forall|a: int, b: int| !spaces_at(line@, a, b) by {
                if spaces_at(line@, a, b) {
                    assert(line@[b] == SP);
                }
            }
            return Err(ParseError);
        },
    };
    match find_byte(line, SP, j + 1) {
        Some(k) => {
            assert forall|a: int, b: int| !spaces_at(line@, a, b) by {
                if spaces_at(line@, a, b) {
                    assert(line@[i as int] == SP && line@[j as int] == SP && line@[k as int] == SP);
                }
            }
            return Err(ParseError);
        },
        None => {},
    }
    assert(spaces_at(line@, i as int, j as int));
    proof {
        let (a, b) = choose|a: int, b: int| spaces_at(line@, a, b);
        assert(line@[a] == SP && line@[b] == SP);
        assert(a == i && b == j);
    }
    let v10: Vec<u8> = vec![0x48u8, 0x54u8, 0x54u8, 0x50u8, 0x2fu8, 0x31u8, 0x2eu8, 0x30u8];
    let v11: Vec<u8> = vec![0x48u8, 0x54u8, 0x54u8, 0x50u8, 0x2fu8, 0x31u8, 0x2eu8, 0x31u8];
    let version = if tail_equals(line, j + 1, v10.as_slice()) {
        Version::Http10
    } else if tail_equals(line, j + 1, v11.as_slice()) {
        Version::Http11
    } else {
        return Err(ParseError);
    };
    if i == 0 || line[i + 1] != SLASH {
        return Err(ParseError);
    }
    let method = copy_range(line, 0, i);
    let target = copy_range(line, i + 1, j);
    Ok((method, target, version))
}

/// `s` holds no space.
pub open spec fn no_space(s: Seq<u8>) -> bool {
    forall|k: int| 0 <= k < s.len() ==> #[trigger] s[k] != SP
}

/// A request line made of a method, a target and a version token joined by
/// single spaces gives back exactly that method, target and version when the
/// token is `HTTP/1.0` or `HTTP/1.1`, and is refused for any other token; a
/// header block of that line alone is the request with no header fields.
pub proof fn request_line_recovers_parts(method: Seq<u8>, target: Seq<u8>, tok: Seq<u8>)
    requires
        method.len() > 0,
        target.len() > 0,
        target[0] == SLASH,
        no_space(method),
        no_space(target),
        no_space(tok),
    ensures
        tok == http10_token() ==> request_line(method + seq![SP] + target + seq![SP] + tok)
            == Some((method, target, Version::Http10)),
        tok == http11_token() ==> request_line(method + seq![SP] + target + seq![SP] + tok)
            == Some((method, target, Version::Http11)),
        tok != http10_token() && tok != http11_token() ==> request_line(
            method + seq![SP] + target + seq![SP] + tok,
        ).is_none(),
        match version_of(tok) {
            Some(v) => parse_spec(seq![method + seq![SP] + target + seq![SP] + tok]) == Some(
                RequestView { method, target, version: v, headers: Seq::empty() },
            ),
            None => parse_spec(seq![method + seq![SP] + target + seq![SP] + tok]).is_none(),
        },
{
    let line = method + seq![SP] + target + seq![SP] + tok;
    let i = method.len() as int;
    let j = i + 1 + target.len();
    assert forall|k: int| 0 <= k < line.len() && k != i && k != j implies #[trigger] line[k]
        != SP by {
        if k < i {
            assert(line[k] == method[k]);
        } else if k < j {
            assert(line[k] == target[k - i - 1]);
        } else {
            assert(line[k] == tok[k - j - 1]);
        }
    }
    assert(line[i] == SP && line[j] == SP);
    assert(spaces_at(line, i, j));
    let (a, b) = choose|a: int, b: int| spaces_at(line, a, b);
    assert(line[a] == SP && line[b] == SP);
    assert(a == i && b == j);
    assert(line.subrange(0, i) =~= method);
    assert(line.subrange(i + 1, j) =~= target);
    assert(line.subrange(j + 1, line.len() as int) =~= tok);
    let ls = seq![line];
    assert(ls[0] == line);
    assert(ls.skip(1) =~= Seq::<Seq<u8>>::empty());
}

/// Parses one header line: `Err` if it is malformed, `Ok(None)` if it is
/// skipped, the field otherwise.
pub fn parse_header_line(line: &[u8]) -> (r: Result<Option<Header>, ParseError>)
    ensures
        match r {
            Ok(Some(h)) => header_entry(line@) == Some(Some(h@)),
            Ok(None) => header_entry(line@) == Some(None::<(Seq<u8>, Seq<u8>)>),
            Err(_) => header_entry(line@).is_none(),
        },
{
    let n: usize = line.len();
    if n == 0 {
        return Ok(None);
    }
    let c = match find_byte(line, COLON, 0) {
        Some(c) => c,
        None => {
            assert(!exists|c: int| first_colon(line@, c));
            return Err(ParseError);
        },
    };
    assert(first_colon(line@, c as int));
    proof {
        let d = choose|d: int| first_colon(line@, d);
        assert(line@[d] == COLON);
        assert(d == c);
    }
    assert((choose|d: int| first_colon(line@, d)) == c);
    if c == 0 {
        return Ok(None);
    }
    let start: usize = if c + 1 < n && line[c + 1] == SP {
        c + 2
    } else {
        c + 1
    };
    let ghost value = strip_one_space(line@.skip(c + 1));
    assert(value =~= line@.subrange(start as int, n as int));
    let mut k: usize = start;
    while k < n
        invariant
            start <= k <= n,
            n == line@.len(),
            value == line@.subrange(start as int, n as int),
            value == strip_one_space(line@.skip(c + 1)),
            (choose|d: int| first_colon(line@, d)) == c,
            0 < c < n,
            forall|q: int| start <= q < k ==> line@[q] != CR && line@[q] != LF,
        decreases n - k,
    {
        if line[k] == CR || line[k] == LF {
            assert(value[k - start] == line@[k as int]);
            assert(has_line_break(value));
            return Err(ParseError);
        }
        k += 1;
    }
    assert(!has_line_break(value)) by {
        if has_line_break(value) {
            let q = choose|q: int| 0 <= q < value.len() && (#[trigger] value[q] == CR || value[q] == LF);
            assert(value[q] == line@[start + q]);
        }
    }
    let name = copy_range(line, 0, c);
    let val = copy_range(line, start, n);
    assert(name@ =~= line@.take(c as int));
    Ok(Some(Header { name, value: val }))
}

/// Once a prefix of the header lines is malformed, every longer prefix is.
proof fn lemma_entries_fail_extends(s: Seq<Seq<u8>>, i: int, m: int)
    requires
        0 <= i <= m <= s.len(),
        header_entries(s.take(i)).is_none(),
    ensures
        header_entries(s.take(m)).is_none(),
    decreases m - i,
{
    if m > i {
        lemma_entries_fail_extends(s, i, m - 1);
        assert(s.take(m).drop_last() =~= s.take(m - 1));
    }
}

/// Parses a header block given as its lines, without their line
/// terminators: the request line first, then one line per header field.
pub fn parse_request(lines: &Vec<Vec<u8>>) -> (r: Result<Request, ParseError>)
    ensures
        match r {
            Ok(req) => parse_spec(lines_view(lines@)) == Some(req@),
            Err(_) => parse_spec(lines_view(lines@)).is_none(),
        },
{
    let ghost ls = lines_view(lines@);
    if lines.len() == 0 {
        return Err(ParseError);
    }
    let (method, target, version) = match parse_request_line(lines[0].as_slice()) {
        Ok(parts) => parts,
        Err(e) => {
            return Err(e);
        },
    };
    let ghost rest = ls.skip(1);
    let mut headers: Vec<Header> = Vec::new();
    let mut i: usize = 1;
    assert(rest.take(0) =~= Seq::<Seq<u8>>::empty());
    while i < lines.len()
        invariant
            1 <= i <= lines@.len(),
            ls == lines_view(lines@),
            rest == ls.skip(1),
            header_entries(rest.take(i - 1)) == Some(headers_view(headers@)),
        decreases lines@.len() - i,
    {
        let ghost pre = rest.take(i - 1);
        let ghost cur = rest.take(i as int);
        assert(cur.drop_last() =~= pre);
        assert(cur.last() == lines@[i as int]@);
        match parse_header_line(lines[i].as_slice()) {
            Ok(Some(h)) => {
                let ghost before = headers_view(headers@);
                headers.push(h);
                assert(headers_view(headers@) =~= before.push(h@));
            },
            Ok(None) => {},
            Err(e) => {
                proof {
                    assert(header_entries(cur).is_none());
                    lemma_entries_fail_extends(rest, i as int, rest.len() as int);
                    assert(rest.take(rest.len() as int) =~= rest);
                }
                return Err(e);
            },
        }
        i += 1;
    }
    assert(rest.take(i - 1) =~= rest);
    if headers.len() > MAX_HEADER_NUM {
        return Err(ParseError);
    }
    Ok(Request { method, target, version, headers })
}

/// `b` with ASCII upper case letters made lower case.
pub open spec fn ascii_lower(b: u8) -> u8 {
    if 0x41 <= b <= 0x5a {
        (b + 0x20) as u8
    } else {
        b
    }
}

/// `a` and `b` are the same header name, ignoring ASCII case.
pub open spec fn same_name(a: Seq<u8>, b: Seq<u8>) -> bool {
    a.len() == b.len() && forall|k: int| 0 <= k < a.len() ==> #[trigger] ascii_lower(a[k]) == ascii_lower(b[k])
}

/// The value of the last field of `hs` named `name`, ignoring ASCII case:
/// a later field of the same name replaces an earlier one.
pub open spec fn header_value(hs: Seq<(Seq<u8>, Seq<u8>)>, name: Seq<u8>) -> Option<Seq<u8>>
    decreases hs.len(),
{
    if hs.len() == 0 {
        None
    } else if same_name(hs.last().0, name) {
        Some(hs.last().1)
    } else {
        header_value(hs.drop_last(), name)
    }
}

/// Whether `a` and `b` are the same header name, ignoring ASCII case.
pub fn names_match(a: &[u8], b: &[u8]) -> (r: bool)
    ensures
        r == same_name(a@, b@),
{
    if a.len() != b.len() {
        return false;
    }
    let mut i: usize = 0;
    while i < a.len()
        invariant
            i <= a@.len(),
            a@.len() == b@.len(),
            forall|k: int| 0 <= k < i ==> #[trigger] ascii_lower(a@[k]) == ascii_lower(b@[k]),
        decreases a@.len() - i,
    {
        let x: u8 = if 0x41 <= a[i] && a[i] <= 0x5a {
            a[i] + 0x20
        } else {
            a[i]
        };
        let y: u8 = if 0x41 <= b[i] && b[i] <= 0x5a {
            b[i] + 0x20
        } else {
            b[i]
        };
        if x != y {
            assert(x == ascii_lower(a@[i as int]) && y == ascii_lower(b@[i as int]));
            return false;
        }
        i += 1;
    }
    true
}

impl Request {
    /// A copy of the value of the header field named `name`, ignoring ASCII
    /// case; where several fields have that name, the last one's.
    pub fn header(&self, name: &[u8]) -> (r: Option<Vec<u8>>)
        ensures
            match r {
                Some(v) => header_value(self@.headers, name@) == Some(v@),
                None => header_value(self@.headers, name@).is_none(),
            },
    {
        let ghost hs = self@.headers;
        let mut i: usize = self.headers.len();
        assert(hs.take(i as int) =~= hs);
        while i > 0
            invariant
                i <= self.headers@.len(),
                hs == headers_view(self.headers@),
                header_value(hs, name@) == header_value(hs.take(i as int), name@),
            decreases i,
        {
            let h = &self.headers[i - 1];
            let ghost pre = hs.take(i as int);
            assert(pre.last() == h@);
            assert(pre.drop_last() =~= hs.take(i - 1));
            if names_match(h.name.as_slice(), name) {
                let v = copy_range(h.value.as_slice(), 0, h.value.len());
                assert(v@ =~= h.value@);
                return Some(v);
            }
            i -= 1;
        }
        None
    }
}

} // verus!
