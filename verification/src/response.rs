//! HTTP responses: a status line, header fields and a body, and the text that
//! is sent for them.
use vstd::prelude::*;
use crate::field_map::{Entries, FieldMap, distinct_keys, store};
use crate::request::{field_lines, header_fields, law_header_fields_of_lines, names_free_of, values_free_of};
use crate::text::{decimal, decimal_string, digits_value, join, law_decimal_denotes, lemma_join_push};

verus! {

/// What a response holds: its status (code and reason phrase), its header
/// fields in order, and its body.
pub ghost struct ResponseView {
    pub status: Seq<char>,
    pub headers: Entries<Seq<char>>,
    pub body: Seq<char>,
}

/// An HTTP response under construction.
pub struct Response {
    status: String,
    headers: FieldMap<String>,
    body: String,
}

impl View for Response {
    type V = ResponseView;

    closed spec fn view(&self) -> ResponseView {
        ResponseView { status: self.status@, headers: self.headers@, body: self.body@ }
    }
}

/// The header lines `key: value\r\n`, one per entry, in order.
pub open spec fn header_lines(e: Entries<Seq<char>>) -> Seq<char>
    decreases e.len(),
{
    if e.len() == 0 {
        Seq::empty()
    } else {
        header_lines(e.drop_last()) + e.last().0 + ": "@ + e.last().1 + "\r\n"@
    }
}

/// The number of bytes of the UTF-8 encoding of `s`.
pub open spec fn byte_len(s: Seq<char>) -> nat {
    vstd::utf8::encode_utf8(s).len()
}

/// The text of a response: the status line, the header lines, a
/// `Content-Length` line with the body's length in bytes, an empty line,
/// and the body.
pub open spec fn message(r: ResponseView) -> Seq<char> {
    "HTTP/1.1 "@ + r.status + "\r\n"@ + header_lines(r.headers) + "Content-Length: "@
        + decimal(byte_len(r.body)) + "\r\n"@ + "\r\n"@ + r.body
}

/// The header lines of entries are the lines `name: value`, each name and
/// value written in full, joined by `\r\n` and ended by `\r\n`; there are
/// none for no entries.
pub proof fn law_header_lines_are_fields(e: Entries<Seq<char>>)
    ensures
        e.len() == 0 ==> header_lines(e) == Seq::<char>::empty(),
        e.len() > 0 ==> header_lines(e) == join(field_lines(e, ": "@), "\r\n"@) + "\r\n"@,
    decreases e.len(),
{
    if e.len() > 1 {
        let d = e.drop_last();
        law_header_lines_are_fields(d);
        let fd = field_lines(d, ": "@);
        let last = e.last().0 + ": "@ + e.last().1;
        assert(field_lines(e, ": "@) =~= fd.push(last));
        lemma_join_push(fd, "\r\n"@, last);
        assert(header_lines(e) =~= join(fd, "\r\n"@) + "\r\n"@ + e.last().0 + ": "@ + e.last().1 + "\r\n"@);
        assert(join(fd, "\r\n"@) + "\r\n"@ + e.last().0 + ": "@ + e.last().1 + "\r\n"@
            =~= join(fd.push(last), "\r\n"@) + "\r\n"@);
    } else if e.len() == 1 {
        let d = e.drop_last();
        assert(d.len() == 0);
        assert(header_lines(d) == Seq::<char>::empty());
        assert(field_lines(e, ": "@) =~= seq![e.last().0 + ": "@ + e.last().1]);
        assert(join(field_lines(e, ": "@), "\r\n"@) == e.last().0 + ": "@ + e.last().1);
        assert(header_lines(e) =~= e.last().0 + ": "@ + e.last().1 + "\r\n"@);
    }
}

/// The header fields a response's text carries read back as the response's
/// fields, names and values in full and in order, when the names are
/// distinct and hold no `:` and no `\r`, and the values hold no `\r`.
pub proof fn law_message_header_fields_read_back(r: ResponseView)
    requires
        r.headers.len() > 0,
        distinct_keys(r.headers),
        names_free_of(r.headers, ':'),
        names_free_of(r.headers, '\r'),
        values_free_of(r.headers, '\r'),
    ensures
        message(r) == "HTTP/1.1 "@ + r.status + "\r\n"@ + join(field_lines(r.headers, ": "@), "\r\n"@) + "\r\n"@
            + "Content-Length: "@ + decimal(byte_len(r.body)) + "\r\n"@ + "\r\n"@ + r.body,
        header_fields(join(field_lines(r.headers, ": "@), "\r\n"@)) == r.headers,
{
    law_header_lines_are_fields(r.headers);
    law_header_fields_of_lines(r.headers);
}

/// The text of a response starts with its status line, ends with its body,
/// and the `Content-Length` before the body states, in ASCII digits, the
/// length of the body in bytes.
pub proof fn law_message_frames_body(r: ResponseView)
    ensures
        message(r).take(("HTTP/1.1 "@ + r.status + "\r\n"@).len() as int) == "HTTP/1.1 "@ + r.status + "\r\n"@,
        message(r).skip(message(r).len() - r.body.len()) == r.body,
        message(r) == "HTTP/1.1 "@ + r.status + "\r\n"@ + header_lines(r.headers) + "Content-Length: "@
            + decimal(byte_len(r.body)) + "\r\n"@ + "\r\n"@ + r.body,
        digits_value(decimal(byte_len(r.body))) == byte_len(r.body),
{
    law_decimal_denotes(byte_len(r.body));
    let head = "HTTP/1.1 "@ + r.status + "\r\n"@;
    let m = message(r);
    let before = head + header_lines(r.headers) + "Content-Length: "@ + decimal(byte_len(r.body)) + "\r\n"@
        + "\r\n"@;
    assert(m =~= before + r.body);
    assert(m.skip(before.len() as int) =~= r.body);
    assert(m.take(head.len() as int) =~= head);
}

impl Response {
    /// The text of this response, as it is written to the connection.
    pub fn build(&self) -> (s: String)
        ensures
            s@ == message(self@),
    {
        let mut s = String::new();
        s.append("HTTP/1.1 ");
        s.append(self.status.as_str());
        s.append("\r\n");
        let n = self.headers.len();
        let mut i: usize = 0;
        while i < n
            invariant
                n == self.headers@.len(),
                i <= n,
                s@ == "HTTP/1.1 "@ + self.status@ + "\r\n"@ + header_lines(self.headers@.take(i as int)),
            decreases n - i,
        {
            let ghost before = s@;
            s.append(self.headers.key_at(i).as_str());
            s.append(": ");
            s.append(self.headers.value_at(i).as_str());
            s.append("\r\n");
            proof {
                let t = self.headers@.take(i + 1);
                assert(t.drop_last() =~= self.headers@.take(i as int));
                assert(s@ =~= before + t.last().0 + ": "@ + t.last().1 + "\r\n"@);
            }
            i += 1;
        }
        assert(self.headers@.take(n as int) =~= self.headers@);
        s.append("Content-Length: ");
        let len = decimal_string(self.body.as_str().as_bytes().len());
        s.append(len.as_str());
        s.append("\r\n");
        s.append("\r\n");
        s.append(self.body.as_str());
        s
    }

    /// Sets the status line's code and reason phrase.
    pub fn set_status(&mut self, status: &str) -> (r: &Self)
        ensures
            final(self)@ == (ResponseView { status: status@, ..old(self)@ }),
            r@ == final(self)@,
    {
        self.status = status.to_string();
        self
    }

    /// Stores a header field; a field with the same name gets the new value.
    pub fn insert_header(&mut self, key: &str, value: &str) -> (r: &Self)
        ensures
            final(self)@ == (ResponseView { headers: store(old(self)@.headers, key@, value@), ..old(self)@ }),
            r@ == final(self)@,
    {
        self.headers.insert(key.to_string(), value.to_string());
        self
    }

    /// Sets the body.
    pub fn set_body(&mut self, body: &str) -> (r: &Self)
        ensures
            final(self)@ == (ResponseView { body: body@, ..old(self)@ }),
            r@ == final(self)@,
    {
        self.body = body.to_string();
        self
    }

    /// A response with an empty status, no header fields and an empty body.
    pub fn new() -> (r: Self)
        ensures
            r@ == (ResponseView { status: Seq::empty(), headers: Seq::empty(), body: Seq::empty() }),
    {
        Response { status: String::new(), headers: FieldMap::new(), body: String::new() }
    }

    /// `200 OK` with `data` as body.
    pub fn ok(data: &str) -> (r: Self)
        ensures
            r@ == (ResponseView { status: "200 OK"@, headers: Seq::empty(), body: data@ }),
    {
        Response { status: "200 OK".to_string(), headers: FieldMap::new(), body: data.to_string() }
    }

    /// `404 Not Found` with an empty body.
    pub fn not_found() -> (r: Self)
        ensures
            r@ == (ResponseView { status: "404 Not Found"@, headers: Seq::empty(), body: Seq::empty() }),
    {
        Response { status: "404 Not Found".to_string(), headers: FieldMap::new(), body: String::new() }
    }

    /// `500 Internal Server Error` with `data` as body.
    pub fn err(data: &str) -> (r: Self)
        ensures
            r@ == (ResponseView {
                status: "500 Internal Server Error"@,
                headers: Seq::empty(),
                body: data@,
            }),
    {
        Response {
            status: "500 Internal Server Error".to_string(),
            headers: FieldMap::new(),
            body: data.to_string(),
        }
    }
}

} // verus!
