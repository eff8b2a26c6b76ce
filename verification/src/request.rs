//! HTTP requests: parsing the bytes read from a connection into a request
//! line, header text and body, and reading the header and query fields.
use vstd::prelude::*;
use crate::field_map::{Entries, FieldMap, distinct_keys, law_store_lookup, lookup, store};
use crate::service::SocketBuffer;
use crate::text::{
    free_of, join, law_split_join,
    find, is_white_space, is_word, lemma_find_from_first, lemma_words_append_word, lemma_words_push_white, occurs_at,
    find_from, find_from_exec, lemma_find_from, pieces_view, split, split_exec, split_once,
    split_once_exec, str_from_utf8, sub_string, to_chars, words, words_exec,
};

verus! {

/// What a request holds: the header text (absent when empty), the method,
/// the path, the query text after `?` (absent when there is no `?`), and
/// the body (absent when empty).
pub ghost struct RequestView {
    pub header: Option<Seq<char>>,
    pub method: Seq<char>,
    pub path: Seq<char>,
    pub query: Option<Seq<char>>,
    pub body: Option<Seq<char>>,
}

/// Why bytes read from a connection are no request.
#[derive(Debug, Clone, Copy, PartialEq, Eq, Structural)]
pub enum ParseError {
    /// The bytes are not valid UTF-8.
    InvalidUtf8,
    /// No `\r\n` ends the request line.
    MissingRequestLineEnd,
    /// No `\r\n\r\n` ends the header text.
    MissingHeaderEnd,
    /// The request line is not three words.
    InvalidRequestLine,
}

/// An HTTP request.
pub struct Request {
    header: Option<String>,
    method: String,
    path: String,
    query: Option<String>,
    body: Option<String>,
}

/// The text of an optional string.
pub open spec fn opt_view(s: Option<String>) -> Option<Seq<char>> {
    match s {
        Some(t) => Some(t@),
        None => None,
    }
}

impl View for Request {
    type V = RequestView;

    closed spec fn view(&self) -> RequestView {
        RequestView {
            header: opt_view(self.header),
            method: self.method@,
            path: self.path@,
            query: opt_view(self.query),
            body: opt_view(self.body),
        }
    }
}

/// `Some(s)` for a non-empty `s`, nothing for an empty one.
pub open spec fn non_empty(s: Seq<char>) -> Option<Seq<char>> {
    if s.len() == 0 { None } else { Some(s) }
}

/// The request that a text holds: the request line ends at the first
/// `\r\n`; the header text then ends at the first `\r\n\r\n` and the body
/// follows; the request line is three words (method, target, version); the
/// target splits at its first `?` into path and query.
pub open spec fn parse_text(text: Seq<char>) -> Result<RequestView, ParseError> {
    match split_once(text, "\r\n"@) {
        None => Err(ParseError::MissingRequestLineEnd),
        Some((line, rest)) => match split_once(rest, "\r\n\r\n"@) {
            None => Err(ParseError::MissingHeaderEnd),
            Some((header, body)) => {
                let parts = words(line);
                if parts.len() != 3 {
                    Err(ParseError::InvalidRequestLine)
                } else {
                    let (path, query) = match split_once(parts[1], "?"@) {
                        Some((p, q)) => (p, Some(q)),
                        None => (parts[1], None),
                    };
                    Ok(RequestView {
                        header: non_empty(header),
                        method: parts[0],
                        path: path,
                        query: query,
                        body: non_empty(body),
                    })
                }
            },
        },
    }
}

/// The request that bytes hold: their UTF-8 decoding, parsed.
pub open spec fn parse_bytes(bytes: Seq<u8>) -> Result<RequestView, ParseError> {
    if vstd::utf8::valid_utf8(bytes) {
        parse_text(vstd::utf8::decode_utf8(bytes))
    } else {
        Err(ParseError::InvalidUtf8)
    }
}

/// The request target: the path, then `?` and the query when there is one.
pub open spec fn target(path: Seq<char>, query: Option<Seq<char>>) -> Seq<char> {
    match query {
        Some(q) => path + "?"@ + q,
        None => path,
    }
}

/// The text of a request: the request line `method target version`, the
/// header text, an empty line, and the body.
pub open spec fn request_text(
    method: Seq<char>,
    path: Seq<char>,
    query: Option<Seq<char>>,
    version: Seq<char>,
    header: Seq<char>,
    body: Seq<char>,
) -> Seq<char> {
    method + " "@ + target(path, query) + " "@ + version + "\r\n"@ + header + "\r\n\r\n"@ + body
}

/// A request read back from its text gives its parts: its method, path,
/// query, and its header text and body unchanged (absent only when empty),
/// when the method, target and version are words, the path holds no `?`, and the header text holds no empty line
/// (`\r\n\r\n`) and does not end with `\r\n`.
pub proof fn law_parse_request_text(
    method: Seq<char>,
    path: Seq<char>,
    query: Option<Seq<char>>,
    version: Seq<char>,
    header: Seq<char>,
    body: Seq<char>,
)
    requires
        is_word(method),
        is_word(target(path, query)),
        is_word(version),
        !path.contains('?'),
        find(header, "\r\n\r\n"@) is None,
        !(header.len() >= 2 && header[header.len() - 2] == '\r' && header[header.len() - 1] == '\n'),
    ensures
        parse_text(request_text(method, path, query, version, header, body)) == Ok::<RequestView, ParseError>(
            RequestView {
                header: if header.len() == 0 { None } else { Some(header) },
                method: method,
                path: path,
                query: query,
                body: if body.len() == 0 { None } else { Some(body) },
            },
        ),
{
    reveal_strlit(" ");
    reveal_strlit("?");
    reveal_strlit("\r\n");
    reveal_strlit("\r\n\r\n");
    let sp = " "@;
    let crlf = "\r\n"@;
    let blank = "\r\n\r\n"@;
    let t = target(path, query);
    let line = method + sp + t + sp + version;
    let rest = header + blank + body;
    let text = request_text(method, path, query, version, header, body);
    assert(text =~= line + crlf + rest);
    // The request line holds no `\r`, so the first `\r\n` ends it.
    assert(is_white_space('\r'));
    assert(is_white_space(' '));
    assert forall|k: int| 0 <= k < line.len() implies line[k] != '\r' by {
        if k < method.len() {
            assert(line[k] == method[k]);
        } else if k < method.len() + 1 {
        } else if k < method.len() + 1 + t.len() {
            assert(line[k] == t[k - method.len() - 1]);
        } else if k < method.len() + 2 + t.len() {
        } else {
            assert(line[k] == version[k - method.len() - 2 - t.len()]);
        }
    }
    assert(text.subrange(line.len() as int, line.len() + 2 as int) =~= crlf);
    assert forall|k: int| 0 <= k < line.len() implies !occurs_at(text, crlf, k) by {
        assert(text[k] == line[k]);
        if occurs_at(text, crlf, k) {
            assert(text.subrange(k, k + 2)[0] == text[k]);
        }
    }
    lemma_find_from_first(text, crlf, 0, line.len() as int);
    assert(text.take(line.len() as int) =~= line);
    assert(text.skip(line.len() + 2 as int) =~= rest);
    // The first empty line in the rest ends the header text.
    let h = header.len() as int;
    assert(rest.subrange(h as int, h + 4 as int) =~= blank);
    crate::text::lemma_find_from(header, blank, 0);
    assert forall|k: int| 0 <= k < h implies !occurs_at(rest, blank, k) by {
        if occurs_at(rest, blank, k) {
            let w = rest.subrange(k, k + 4);
            if k + 4 <= h {
                assert(header.subrange(k, k + 4) =~= w);
                assert(occurs_at(header, blank, k));
            } else if k == h - 1 {
                assert(w[1] == rest[h as int]);
            } else if k == h - 2 {
                assert(w[0] == header[h - 2]);
                assert(w[1] == header[h - 1]);
            } else {
                assert(w[3] == rest[h as int]);
            }
        }
    }
    lemma_find_from_first(rest, blank, 0, h as int);
    assert(rest.take(h as int) =~= header);
    assert(rest.skip(h + 4 as int) =~= body);
    // The request line is three words.
    assert(Seq::<char>::empty() + method =~= method);
    lemma_words_append_word(Seq::empty(), method);
    lemma_words_push_white(method, ' ');
    assert(method + sp =~= method.push(' '));
    lemma_words_append_word(method + sp, t);
    lemma_words_push_white(method + sp + t, ' ');
    assert(method + sp + t + sp =~= (method + sp + t).push(' '));
    lemma_words_append_word(method + sp + t + sp, version);
    assert(words(line) =~= seq![method, t, version]);
    // The target splits at its first `?`.
    let qm = "?"@;
    match query {
        Some(q) => {
            assert(t.subrange(path.len() as int, path.len() + 1 as int) =~= qm);
            assert forall|k: int| 0 <= k < path.len() implies !occurs_at(t, qm, k) by {
                if occurs_at(t, qm, k) {
                    assert(t.subrange(k, k + 1)[0] == t[k]);
                    assert(t[k] == path[k]);
                }
            }
            lemma_find_from_first(t, qm, 0, path.len() as int);
            assert(t.take(path.len() as int) =~= path);
            assert(t.skip(path.len() + 1 as int) =~= q);
        },
        None => {
            crate::text::lemma_find_from(t, qm, 0);
            match find(t, qm) {
                Some(k) => {
                    assert(t.subrange(k, k + 1)[0] == t[k]);
                    assert(path.contains(t[k]));
                },
                None => {},
            }
        },
    }
}

/// Bytes are parsed as the text they encode: the UTF-8 encoding of a text
/// gives the request that the text gives.
pub proof fn law_parse_encoded_text(text: Seq<char>)
    ensures
        parse_bytes(vstd::utf8::encode_utf8(text)) == parse_text(text),
{
    vstd::utf8::encode_utf8_valid_utf8(text);
    vstd::utf8::encode_utf8_decode_utf8(text);
}

/// The fields of lines `name<sep>value`, in order of their first
/// appearance; a later line with the same name replaces the value; a line
/// without `sep` is skipped.
pub open spec fn fields(lines: Seq<Seq<char>>, sep: Seq<char>) -> Entries<Seq<char>>
    decreases lines.len(),
{
    if lines.len() == 0 {
        Seq::empty()
    } else {
        let e = fields(lines.drop_last(), sep);
        match split_once(lines.last(), sep) {
            Some((k, v)) => store(e, k, v),
            None => e,
        }
    }
}

/// The line `line` is of the form `k<sep>...`.
pub open spec fn names(line: Seq<char>, sep: Seq<char>, k: Seq<char>) -> bool {
    match split_once(line, sep) {
        Some((n, _)) => n == k,
        None => false,
    }
}

/// The fields of lines never hold a name twice.
pub proof fn lemma_fields_distinct(lines: Seq<Seq<char>>, sep: Seq<char>)
    ensures
        distinct_keys(fields(lines, sep)),
    decreases lines.len(),
{
    if lines.len() > 0 {
        let e = fields(lines.drop_last(), sep);
        lemma_fields_distinct(lines.drop_last(), sep);
        match split_once(lines.last(), sep) {
            Some((k, v)) => {
                law_store_lookup(e, k, v, k);
            },
            None => {},
        }
    }
}

/// A field has the value of the last line with its name: the fields of
/// lines give `k` the value `v` exactly when some line is `k<sep>v` and no
/// later line has the name `k`.
pub proof fn law_fields_last_line_wins(lines: Seq<Seq<char>>, sep: Seq<char>, k: Seq<char>, v: Seq<char>)
    ensures
        lookup(fields(lines, sep), k) == Some(v) <==> exists|i: int|
            0 <= i < lines.len() && split_once(#[trigger] lines[i], sep) == Some((k, v))
                && forall|j: int| i < j < lines.len() ==> !names(#[trigger] lines[j], sep, k),
    decreases lines.len(),
{
    if lines.len() == 0 {
    } else {
        let l = lines.drop_last();
        let n = lines.len() - 1;
        let e = fields(l, sep);
        lemma_fields_distinct(l, sep);
        law_fields_last_line_wins(l, sep, k, v);
        assert forall|i: int| 0 <= i < l.len() implies l[i] == lines[i] by {}
        match split_once(lines.last(), sep) {
            Some((k2, v2)) => {
                law_store_lookup(e, k2, v2, k);
                assert(names(lines[n], sep, k2));
                if k2 == k {
                    if lookup(fields(lines, sep), k) == Some(v) {
                        assert(split_once(lines[n], sep) == Some((k, v)));
                    }
                    if exists|i: int|
                        0 <= i < lines.len() && split_once(#[trigger] lines[i], sep) == Some((k, v))
                            && forall|j: int| i < j < lines.len() ==> !names(#[trigger] lines[j], sep, k)
                    {
                        let i = choose|i: int|
                            0 <= i < lines.len() && split_once(#[trigger] lines[i], sep) == Some((k, v))
                                && forall|j: int| i < j < lines.len() ==> !names(#[trigger] lines[j], sep, k);
                        if i < n {
                            assert(!names(lines[n], sep, k));
                        }
                    }
                } else {
                    if lookup(e, k) == Some(v) {
                        let i = choose|i: int|
                            0 <= i < l.len() && split_once(#[trigger] l[i], sep) == Some((k, v))
                                && forall|j: int| i < j < l.len() ==> !names(#[trigger] l[j], sep, k);
                        assert(split_once(lines[i], sep) == Some((k, v)));
                        assert forall|j: int| i < j < lines.len() implies !names(#[trigger] lines[j], sep, k) by {
                            if j < n {
                                assert(l[j] == lines[j]);
                            }
                        }
                    }
                    if exists|i: int|
                        0 <= i < lines.len() && split_once(#[trigger] lines[i], sep) == Some((k, v))
                            && forall|j: int| i < j < lines.len() ==> !names(#[trigger] lines[j], sep, k)
                    {
                        let i = choose|i: int|
                            0 <= i < lines.len() && split_once(#[trigger] lines[i], sep) == Some((k, v))
                                && forall|j: int| i < j < lines.len() ==> !names(#[trigger] lines[j], sep, k);
                        assert(i < n);
                        assert(split_once(l[i], sep) == Some((k, v)));
                        assert forall|j: int| i < j < l.len() implies !names(#[trigger] l[j], sep, k) by {
                            assert(l[j] == lines[j]);
                        }
                    }
                }
            },
            None => {
                assert(!names(lines[n], sep, k));
                if lookup(e, k) == Some(v) {
                    let i = choose|i: int|
                        0 <= i < l.len() && split_once(#[trigger] l[i], sep) == Some((k, v))
                            && forall|j: int| i < j < l.len() ==> !names(#[trigger] l[j], sep, k);
                    assert(split_once(lines[i], sep) == Some((k, v)));
                    assert forall|j: int| i < j < lines.len() implies !names(#[trigger] lines[j], sep, k) by {
                        if j < n {
                            assert(l[j] == lines[j]);
                        }
                    }
                }
                if exists|i: int|
                    0 <= i < lines.len() && split_once(#[trigger] lines[i], sep) == Some((k, v))
                        && forall|j: int| i < j < lines.len() ==> !names(#[trigger] lines[j], sep, k)
                {
                    let i = choose|i: int|
                        0 <= i < lines.len() && split_once(#[trigger] lines[i], sep) == Some((k, v))
                            && forall|j: int| i < j < lines.len() ==> !names(#[trigger] lines[j], sep, k);
                    assert(i < n);
                    assert(split_once(l[i], sep) == Some((k, v)));
                    assert forall|j: int| i < j < l.len() implies !names(#[trigger] l[j], sep, k) by {
                        assert(l[j] == lines[j]);
                    }
                }
            },
        }
    }
}

/// The lines `name<sep>value` of entries.
pub open spec fn field_lines(e: Entries<Seq<char>>, sep: Seq<char>) -> Seq<Seq<char>> {
    e.map_values(|kv: (Seq<char>, Seq<char>)| kv.0 + sep + kv.1)
}

/// No name among the entries holds the character `c`.
pub open spec fn names_free_of(e: Entries<Seq<char>>, c: char) -> bool {
    forall|i: int, j: int| 0 <= i < e.len() && 0 <= j < e[i].0.len() ==> #[trigger] e[i].0[j] != c
}

/// No value among the entries holds the character `c`.
pub open spec fn values_free_of(e: Entries<Seq<char>>, c: char) -> bool {
    forall|i: int, j: int| 0 <= i < e.len() && 0 <= j < e[i].1.len() ==> #[trigger] e[i].1[j] != c
}

/// Entries written as lines `name<sep>value` read back as those entries,
/// when the names are distinct and hold no first character of `sep`.
pub proof fn law_fields_of_lines(e: Entries<Seq<char>>, sep: Seq<char>)
    requires
        distinct_keys(e),
        sep.len() > 0,
        names_free_of(e, sep[0]),
    ensures
        fields(field_lines(e, sep), sep) == e,
    decreases e.len(),
{
    let lines = field_lines(e, sep);
    if e.len() == 0 {
        assert(fields(lines, sep) =~= e);
    } else {
        let d = e.drop_last();
        assert(lines.drop_last() =~= field_lines(d, sep));
        assert forall|i: int, j: int| 0 <= i < d.len() && 0 <= j < d[i].0.len() implies #[trigger] d[i].0[j] != sep[0] by {
            assert(d[i] == e[i]);
        }
        law_fields_of_lines(d, sep);
        let n = e.len() - 1;
        let (k, v) = e[n];
        let line = lines.last();
        assert(line == k + sep + v);
        assert(line.subrange(k.len() as int, (k.len() + sep.len()) as int) =~= sep);
        assert forall|m: int| 0 <= m < k.len() implies !occurs_at(line, sep, m) by {
            assert(e[n].0[m] != sep[0]);
            if occurs_at(line, sep, m) {
                assert(line.subrange(m, m + sep.len())[0] == line[m]);
            }
        }
        lemma_find_from_first(line, sep, 0, k.len() as int);
        assert(line.take(k.len() as int) =~= k);
        assert(line.skip((k.len() + sep.len()) as int) =~= v);
        crate::field_map::lemma_position(d, k);
        match crate::field_map::position(d, k) {
            Some(i) => {
                assert(d[i].0 == e[i].0);
            },
            None => {},
        }
        assert(d.push((k, v)) =~= e);
    }
}

/// Header fields written as `name: value` lines joined by `\r\n` read back
/// as those fields, when the names are distinct and hold no `:` and no
/// `\r`, and the values hold no `\r`.
pub proof fn law_header_fields_of_lines(e: Entries<Seq<char>>)
    requires
        distinct_keys(e),
        names_free_of(e, ':'),
        names_free_of(e, '\r'),
        values_free_of(e, '\r'),
    ensures
        header_fields(join(field_lines(e, ": "@), "\r\n"@)) == e,
{
    reveal_strlit(": ");
    reveal_strlit("\r\n");
    lemma_lines_joinable(e, ": "@, "\r\n"@);
    law_fields_of_lines(e, ": "@);
    if e.len() == 0 {
        lemma_no_field_in_empty_line(": "@);
        let one = seq![Seq::<char>::empty()];
        assert(one.drop_last() =~= Seq::<Seq<char>>::empty());
        assert(one.last() == Seq::<char>::empty());
        assert(fields(one.drop_last(), ": "@) =~= Seq::<(Seq<char>, Seq<char>)>::empty());
        assert(fields(seq![Seq::<char>::empty()], ": "@) =~= e);
    }
}

/// Query fields written as `name=value` parts joined by `&` read back as
/// those fields, when the names are distinct and hold no `=` and no `&`,
/// and the values hold no `&`.
pub proof fn law_query_fields_of_parts(e: Entries<Seq<char>>)
    requires
        distinct_keys(e),
        names_free_of(e, '='),
        names_free_of(e, '&'),
        values_free_of(e, '&'),
    ensures
        query_fields(join(field_lines(e, "="@), "&"@)) == e,
{
    reveal_strlit("=");
    reveal_strlit("&");
    lemma_lines_joinable(e, "="@, "&"@);
    law_fields_of_lines(e, "="@);
    if e.len() == 0 {
        lemma_no_field_in_empty_line("="@);
        let one = seq![Seq::<char>::empty()];
        assert(one.drop_last() =~= Seq::<Seq<char>>::empty());
        assert(one.last() == Seq::<char>::empty());
        assert(fields(one.drop_last(), "="@) =~= Seq::<(Seq<char>, Seq<char>)>::empty());
        assert(fields(seq![Seq::<char>::empty()], "="@) =~= e);
    }
}

/// An empty line holds no field.
proof fn lemma_no_field_in_empty_line(sep: Seq<char>)
    requires
        sep.len() > 0,
    ensures
        split_once(Seq::<char>::empty(), sep) is None,
{
    crate::text::lemma_find_from(Seq::<char>::empty(), sep, 0);
}

/// Splitting the joined lines of entries gives the lines back, when neither
/// names, nor `sep`, nor values hold the first character of `delim`.
proof fn lemma_lines_joinable(e: Entries<Seq<char>>, sep: Seq<char>, delim: Seq<char>)
    requires
        delim.len() > 0,
        names_free_of(e, delim[0]),
        values_free_of(e, delim[0]),
        forall|j: int| 0 <= j < sep.len() ==> sep[j] != delim[0],
    ensures
        split(join(field_lines(e, sep), delim), delim) == (if e.len() == 0 {
            seq![Seq::<char>::empty()]
        } else {
            field_lines(e, sep)
        }),
{
    let lines = field_lines(e, sep);
    if e.len() == 0 {
        assert(join(lines, delim) =~= Seq::<char>::empty());
        crate::text::lemma_find_from(Seq::<char>::empty(), delim, 0);
        assert(Seq::<char>::empty().subrange(0, 0) =~= Seq::<char>::empty());
    } else {
        assert forall|i: int, j: int| 0 <= i < lines.len() && 0 <= j < lines[i].len() implies #[trigger] lines[i][j] != delim[0] by {
            let (k, v) = e[i];
            assert(lines[i] == k + sep + v);
            if j < k.len() {
                assert(lines[i][j] == e[i].0[j]);
            } else if j < k.len() + sep.len() {
                assert(lines[i][j] == sep[j - k.len()]);
            } else {
                assert(lines[i][j] == e[i].1[j - k.len() - sep.len()]);
            }
        }
        law_split_join(lines, delim);
    }
}

/// The header fields of a header text: its `\r\n`-separated lines of the
/// form `name: value`.
pub open spec fn header_fields(h: Seq<char>) -> Entries<Seq<char>> {
    fields(split(h, "\r\n"@), ": "@)
}

/// The query fields of a query text: its `&`-separated parts of the form
/// `name=value`.
pub open spec fn query_fields(q: Seq<char>) -> Entries<Seq<char>> {
    fields(split(q, "&"@), "="@)
}

/// The map of the fields of `text`, split at `delim` into lines of the form
/// `name<sep>value`.
fn parse_fields(text: &str, delim: &Vec<char>, sep: &Vec<char>) -> (m: FieldMap<String>)
    requires
        delim@.len() > 0,
    ensures
        m@ == fields(split(text@, delim@), sep@),
{
    let chars = to_chars(text);
    let lines = split_exec(&chars, delim);
    let ghost lv = pieces_view(lines@);
    let mut m: FieldMap<String> = FieldMap::new();
    let mut i: usize = 0;
    while i < lines.len()
        invariant
            i <= lines@.len(),
            lv == pieces_view(lines@),
            m@ == fields(lv.take(i as int), sep@),
        decreases lines.len() - i,
    {
        let ghost before = lv.take(i as int);
        assert(lv.take(i + 1).drop_last() =~= before);
        assert(lv.take(i + 1).last() == lines@[i as int]@);
        match split_once_exec(&lines[i], sep) {
            Some((k, v)) => {
                m.insert(k, v);
            },
            None => {},
        }
        i += 1;
    }
    assert(lv.take(lines@.len() as int) =~= lv);
    m
}

/// The characters of `v` as a string.
fn chars_to_string(v: &Vec<char>) -> (s: String)
    ensures
        s@ == v@,
{
    let s = sub_string(v, 0, v.len());
    assert(v@.subrange(0, v@.len() as int) =~= v@);
    s
}

/// `Some` of a string for non-empty text, nothing for empty text.
fn non_empty_string(v: &Vec<char>, from: usize, to: usize) -> (r: Option<String>)
    requires
        from <= to <= v.len(),
    ensures
        opt_view(r) == non_empty(v@.subrange(from as int, to as int)),
{
    if from == to {
        None
    } else {
        Some(sub_string(v, from, to))
    }
}

impl Request {
    /// Parses the bytes read into `value`: the request it holds, or why it
    /// holds none.
    pub fn parse(value: SocketBuffer) -> (r: Result<Request, ParseError>)
        requires
            value.length <= value.buffer@.len(),
        ensures
            match r {
                Ok(req) => parse_bytes(value.buffer@.take(value.length as int)) == Ok::<RequestView, ParseError>(req@),
                Err(e) => parse_bytes(value.buffer@.take(value.length as int)) == Err::<RequestView, ParseError>(e),
            },
    {
        let bytes = vstd::slice::slice_subrange(value.buffer, 0, value.length);
        assert(bytes@ =~= value.buffer@.take(value.length as int));
        let text = match str_from_utf8(bytes) {
            Some(t) => t,
            None => return Err(ParseError::InvalidUtf8),
        };
        proof {
            vstd::utf8::encode_utf8_decode_utf8(text@);
        }
        let chars = to_chars(text);
        let crlf = to_chars("\r\n");
        let blank = to_chars("\r\n\r\n");
        let ghost t = chars@;
        proof {
            lemma_find_from(t, crlf@, 0);
        }
        let i = match find_from_exec(&chars, &crlf, 0) {
            Some(i) => i,
            None => return Err(ParseError::MissingRequestLineEnd),
        };
        let total = chars.len();
        assert(i + crlf@.len() <= total);
        let line = vstd::slice::slice_to_vec(vstd::slice::slice_subrange(chars.as_slice(), 0, i));
        let rest_start = i + crlf.len();
        let rest = vstd::slice::slice_to_vec(vstd::slice::slice_subrange(chars.as_slice(), rest_start, chars.len()));
        assert(line@ =~= t.take(i as int));
        assert(rest@ =~= t.skip(i + crlf@.len()));
        proof {
            lemma_find_from(rest@, blank@, 0);
        }
        let j = match find_from_exec(&rest, &blank, 0) {
            Some(j) => j,
            None => return Err(ParseError::MissingHeaderEnd),
        };
        assert(j + blank@.len() <= rest@.len());
        let parts = words_exec(&line);
        if parts.len() != 3 {
            return Err(ParseError::InvalidRequestLine);
        }
        let method = chars_to_string(&parts[0]);
        let qmark = to_chars("?");
        proof {
            lemma_find_from(parts@[1]@, qmark@, 0);
        }
        let (path, query) = match find_from_exec(&parts[1], &qmark, 0) {
            Some(q) => {
                let target_len = parts[1].len();
                assert(q + qmark@.len() <= target_len);
                (
                sub_string(&parts[1], 0, q),
                Some(sub_string(&parts[1], q + qmark.len(), parts[1].len())),
            )},
            None => (chars_to_string(&parts[1]), None),
        };
        let header = non_empty_string(&rest, 0, j);
        let body = non_empty_string(&rest, j + blank.len(), rest.len());
        let req = Request { header, method, path, query, body };
        proof {
            assert(rest@.subrange(0, j as int) =~= rest@.take(j as int));
            assert(rest@.subrange(j + blank@.len(), rest@.len() as int) =~= rest@.skip(j + blank@.len()));
            let p1 = parts@[1]@;
            match find_from(p1, qmark@, 0) {
                Some(q) => {
                    assert(p1.subrange(0, q) =~= p1.take(q));
                    assert(p1.subrange(q + qmark@.len(), p1.len() as int) =~= p1.skip(q + qmark@.len()));
                },
                None => {},
            }
            assert(pieces_view(parts@)[0] == parts@[0]@);
            assert(pieces_view(parts@)[1] == p1);
        }
        Ok(req)
    }

    /// The header text, as it was read.
    pub fn header_raw(&self) -> (r: Option<&str>)
        ensures
            match r {
                Some(s) => self@.header == Some(s@),
                None => self@.header is None,
            },
    {
        match &self.header {
            Some(h) => Some(h.as_str()),
            None => None,
        }
    }

    /// The header fields, when there is header text.
    pub fn header(&self) -> (r: Option<FieldMap<String>>)
        ensures
            match r {
                Some(m) => self@.header matches Some(h) && m@ == header_fields(h),
                None => self@.header is None,
            },
    {
        match &self.header {
            Some(h) => {
                let delim = to_chars("\r\n");
                let sep = to_chars(": ");
                proof {
                    reveal_strlit("\r\n");
                }
                Some(parse_fields(h.as_str(), &delim, &sep))
            },
            None => None,
        }
    }

    /// The method.
    pub fn method(&self) -> (r: &str)
        ensures
            r@ == self@.method,
    {
        self.method.as_str()
    }

    /// The path, without the query.
    pub fn path(&self) -> (r: &str)
        ensures
            r@ == self@.path,
    {
        self.path.as_str()
    }

    /// The query text after `?`, as it was read.
    pub fn query_raw(&self) -> (r: Option<&str>)
        ensures
            match r {
                Some(s) => self@.query == Some(s@),
                None => self@.query is None,
            },
    {
        match &self.query {
            Some(q) => Some(q.as_str()),
            None => None,
        }
    }

    /// The query fields, when there is a query.
    pub fn query(&self) -> (r: Option<FieldMap<String>>)
        ensures
            match r {
                Some(m) => self@.query matches Some(q) && m@ == query_fields(q),
                None => self@.query is None,
            },
    {
        match &self.query {
            Some(q) => {
                let delim = to_chars("&");
                let sep = to_chars("=");
                proof {
                    reveal_strlit("&");
                }
                Some(parse_fields(q.as_str(), &delim, &sep))
            },
            None => None,
        }
    }

    /// The body, when it is not empty.
    pub fn body(&self) -> (r: Option<&str>)
        ensures
            match r {
                Some(s) => self@.body == Some(s@),
                None => self@.body is None,
            },
    {
        match &self.body {
            Some(b) => Some(b.as_str()),
            None => None,
        }
    }
}

} // verus!
