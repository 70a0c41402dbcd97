//! The callback server that receives the SAML response from the browser.

use vstd::prelude::*;
use vstd::utf8::{
    decode_utf8, encode_utf8, encode_utf8_decode_utf8, encode_utf8_valid_utf8, is_ascii_chars,
    is_ascii_chars_encode_utf8, valid_utf8,
};
use vstd::slice::slice_subrange;
use crate::error::{view_error, view_result, Error, ErrorView, Result};
use crate::net::{IpAddr, SocketAddr};
use crate::number::{
    decimal, lemma_decimal_digits, lemma_decimal_parse, parse, parse_number, to_decimal,
};
use crate::split::{join, pieces, split, split_text, text_pieces, trim, trimmed, word_list, words};
use crate::text::{
    cat, chars, contains, control_free, extend, halves, holds, is_control_free, is_text, lowercase,
    same, split_once, string, texts, to_lowercase,
};

verus! {

/// The longest SAML response, in bytes.
pub const MAX_SAML_RESPONSE_BYTES: usize = 131_072;

/// The most bytes that may come without an end of the headers.
pub const MAX_HEADER_BYTES: usize = 16384;

/// The longest form, in bytes.
pub const MAX_FORM_BODY_BYTES: usize = 524288;

/// The most bytes of the headers that are read at once.
pub const HEADER_CHUNK_BYTES: usize = 2048;

/// The most bytes of the form that are read at once.
pub const BODY_CHUNK_BYTES: usize = 8192;

// ---------------------------------------------------------------------------
// Assertions

/// Whether a text can be an assertion: it is not empty, not too long, and
/// holds no control characters.
pub open spec fn valid_assertion(value: Seq<char>) -> bool {
    value.len() > 0 && encode_utf8(value).len() <= MAX_SAML_RESPONSE_BYTES && control_free(value)
}

/// The assertion that a text makes up.
pub open spec fn assertion_of(value: Seq<char>) -> std::result::Result<Seq<char>, ErrorView> {
    if value.len() == 0 {
        Err(ErrorView::SamlResponseMissing)
    } else if encode_utf8(value).len() > MAX_SAML_RESPONSE_BYTES {
        Err(ErrorView::SamlResponseTooLarge)
    } else if !control_free(value) {
        Err(ErrorView::InvalidConfig("SAML response contains control characters"@))
    } else {
        Ok(value)
    }
}

/// A SAML response that can be handed to OpenVPN.
#[derive(Debug, PartialEq, Eq)]
pub struct SamlAssertion {
    value: String,
}

impl View for SamlAssertion {
    type V = Seq<char>;

    closed spec fn view(&self) -> Seq<char> {
        self.value@
    }
}

impl SamlAssertion {
    #[verifier::type_invariant]
    spec fn valid(self) -> bool {
        valid_assertion(self.value@)
    }

    /// The assertion that a text makes up.
    pub fn new(value: String) -> (r: Result<SamlAssertion>)
        ensures
            view_result(r) == assertion_of(value@),
    {
        let found = chars(value.as_str());
        if found.len() == 0 {
            return Err(Error::SamlResponseMissing);
        }
        if value.as_str().as_bytes().len() > MAX_SAML_RESPONSE_BYTES {
            return Err(Error::SamlResponseTooLarge);
        }
        if !is_control_free(found.as_slice()) {
            return Err(
                Error::InvalidConfig("SAML response contains control characters".to_owned()),
            );
        }
        Ok(SamlAssertion { value })
    }

    /// The text of the assertion.
    pub fn expose_for_openvpn(&self) -> (r: &str)
        ensures
            r@ == self@,
            valid_assertion(self@),
    {
        proof {
            use_type_invariant(self);
        }
        self.value.as_str()
    }

    /// The length of the assertion in bytes.
    pub fn len(&self) -> (r: usize)
        ensures
            r == encode_utf8(self@).len(),
            r <= MAX_SAML_RESPONSE_BYTES,
    {
        proof {
            use_type_invariant(self);
        }
        self.value.as_str().as_bytes().len()
    }

    /// Whether the assertion is empty, which it never is.
    pub fn is_empty(&self) -> (r: bool)
        ensures
            r == (self@.len() == 0),
            !r,
    {
        proof {
            use_type_invariant(self);
        }
        chars(self.value.as_str()).len() == 0
    }
}

// ---------------------------------------------------------------------------
// Requests

/// The words for the error of `std::str::from_utf8` on bytes that are no text.
pub uninterp spec fn utf8_error_text(bytes: Seq<u8>) -> Seq<char>;

/// Calls `std::str::from_utf8`: bytes in UTF-8 are the text that they encode,
/// and other bytes give an error, whose words are named by `utf8_error_text`.
#[verifier::external_body]
fn text_from_utf8(bytes: &[u8]) -> (r: std::result::Result<String, String>)
    ensures
        match r {
            Ok(text) => valid_utf8(bytes@) && text@ == decode_utf8(bytes@),
            Err(cause) => !valid_utf8(bytes@) && cause@ == utf8_error_text(bytes@),
        },
{
    match std::str::from_utf8(bytes) {
        Ok(text) => Ok(text.to_owned()),
        Err(err) => Err(err.to_string()),
    }
}

/// The head of a request.
#[derive(Debug)]
pub struct HttpRequest {
    method: Vec<char>,
    path: Vec<char>,
    headers: Vec<(Vec<char>, Vec<char>)>,
}

/// The model of a head: header names are in small letters.
pub struct HttpRequestView {
    pub method: Seq<char>,
    pub path: Seq<char>,
    pub headers: Map<Seq<char>, Seq<char>>,
}

/// The headers in a list of names and values: the last value of a name counts.
pub closed spec fn header_map(list: Seq<(Vec<char>, Vec<char>)>) -> Map<Seq<char>, Seq<char>>
    decreases list.len(),
{
    if list.len() == 0 {
        Map::empty()
    } else {
        header_map(list.drop_last()).insert(list.last().0@, list.last().1@)
    }
}

impl View for HttpRequest {
    type V = HttpRequestView;

    closed spec fn view(&self) -> HttpRequestView {
        HttpRequestView {
            method: self.method@,
            path: self.path@,
            headers: header_map(self.headers@),
        }
    }
}

/// The headers once a line has been read too.
pub open spec fn with_header(
    before: Map<Seq<char>, Seq<char>>,
    line: Seq<char>,
) -> Map<Seq<char>, Seq<char>> {
    match split_once(line, ":"@) {
        Some((name, value)) => before.insert(lowercase(trim(name)), trim(value)),
        None => before,
    }
}

/// The headers in a number of lines.
pub open spec fn read_headers(lines: Seq<Seq<char>>) -> Map<Seq<char>, Seq<char>>
    decreases lines.len(),
{
    if lines.len() == 0 {
        Map::empty()
    } else {
        with_header(read_headers(lines.drop_last()), lines.last())
    }
}

/// The request that a head makes up.
pub open spec fn request_of(head: Seq<char>) -> std::result::Result<HttpRequestView, ErrorView> {
    let lines = split_text(head, "\r\n"@);
    let parts = words(lines[0]);
    if parts.len() < 1 {
        Err(ErrorView::InvalidConfig("SAML callback missing method"@))
    } else if parts.len() < 2 {
        Err(ErrorView::InvalidConfig("SAML callback missing path"@))
    } else {
        Ok(
            HttpRequestView {
                method: parts[0],
                path: parts[1],
                headers: read_headers(lines.skip(1)),
            },
        )
    }
}

/// The request that the bytes of a head make up.
pub open spec fn request_in(head: Seq<u8>) -> std::result::Result<HttpRequestView, ErrorView> {
    if valid_utf8(head) {
        request_of(decode_utf8(head))
    } else {
        Err(
            ErrorView::InvalidConfig(
                "SAML callback was not valid UTF-8: "@ + utf8_error_text(head),
            ),
        )
    }
}

/// The media type in a content type.
pub open spec fn media_type(content_type: Seq<char>) -> Seq<char> {
    lowercase(trim(split(content_type, ';')[0]))
}

/// Whether a request can be the callback: a form posted to the root.
pub open spec fn acceptable(request: HttpRequestView) -> std::result::Result<(), ErrorView> {
    if request.method != "POST"@ {
        Err(ErrorView::InvalidConfig("SAML callback must use POST"@))
    } else if request.path != "/"@ {
        Err(ErrorView::InvalidConfig("SAML callback path must be /"@))
    } else if request.headers.contains_key("content-type"@) && media_type(
        request.headers["content-type"@],
    ) != "application/x-www-form-urlencoded"@ {
        Err(
            ErrorView::InvalidConfig(
                "SAML callback content type must be application/x-www-form-urlencoded"@,
            ),
        )
    } else {
        Ok(())
    }
}

/// The length of the form that a request announces.
pub open spec fn announced_length(request: HttpRequestView) -> std::result::Result<
    usize,
    ErrorView,
> {
    if !request.headers.contains_key("content-length"@) {
        Err(ErrorView::InvalidConfig("SAML callback missing Content-Length"@))
    } else {
        match parse_number(request.headers["content-length"@], usize::MAX as nat) {
            Err(e) => Err(ErrorView::InvalidConfig("invalid Content-Length: "@ + e.text())),
            Ok(n) => if n > MAX_FORM_BODY_BYTES {
                Err(ErrorView::SamlResponseTooLarge)
            } else {
                Ok(n as usize)
            },
        }
    }
}

impl HttpRequest {
    /// The value of a header.
    fn header(&self, name: &str) -> (r: Option<&Vec<char>>)
        ensures
            match r {
                Some(value) => self@.headers.contains_key(name@) && self@.headers[name@] == value@,
                None => !self@.headers.contains_key(name@),
            },
    {
        let wanted = chars(name);
        let mut n: usize = self.headers.len();
        let ghost all = self.headers@;
        assert(all.take(n as int) == all);
        while n > 0
            invariant
                n <= self.headers@.len(),
                all == self.headers@,
                wanted@ == name@,
                header_map(all).contains_key(name@) == header_map(all.take(n as int)).contains_key(
                    name@,
                ),
                header_map(all)[name@] == header_map(all.take(n as int))[name@],
            decreases n,
        {
            let entry = &self.headers[n - 1];
            assert(all.take(n as int).drop_last() == all.take(n - 1));
            assert(all.take(n as int).last() == *entry);
            if same(entry.0.as_slice(), wanted.as_slice()) {
                return Some(&entry.1);
            }
            n -= 1;
        }
        assert(all.take(0) == Seq::<(Vec<char>, Vec<char>)>::empty());
        None
    }
}

/// Reads the head of a request.
pub fn parse_request(head: &[u8]) -> (r: Result<HttpRequest>)
    ensures
        view_result(r) == request_in(head@),
{
    let head = match text_from_utf8(head) {
        Ok(head) => head,
        Err(cause) => {
            return Err(
                Error::InvalidConfig(cat("SAML callback was not valid UTF-8: ", cause.as_str())),
            );
        },
    };
    let lines = text_pieces(chars(head.as_str()).as_slice(), "\r\n");
    let ghost all = texts(lines@);
    assert(all.len() == lines@.len());
    assert(forall|i: int| 0 <= i < all.len() ==> #[trigger] all[i] == lines@[i]@);
    let mut parts = word_list(lines[0].as_slice());
    let ghost found = texts(parts@);
    assert(found.len() == parts@.len());
    assert(forall|i: int| 0 <= i < found.len() ==> #[trigger] found[i] == parts@[i]@);
    if parts.len() < 1 {
        return Err(Error::InvalidConfig("SAML callback missing method".to_owned()));
    }
    if parts.len() < 2 {
        return Err(Error::InvalidConfig("SAML callback missing path".to_owned()));
    }
    let mut headers: Vec<(Vec<char>, Vec<char>)> = Vec::new();
    let mut i: usize = 1;
    assert(all.skip(1).take(0) == Seq::<Seq<char>>::empty());
    while i < lines.len()
        invariant
            1 <= i <= lines@.len(),
            all == texts(lines@),
            header_map(headers@) == read_headers(all.skip(1).take(i - 1)),
        decreases lines@.len() - i,
    {
        assert(all.skip(1).take(i as int).drop_last() == all.skip(1).take(i - 1));
        assert(all.skip(1).take(i as int).last() == lines@[i as int]@);
        if let Some((name, value)) = halves(lines[i].as_slice(), ":") {
            let ghost before = headers@;
            headers.push(
                (to_lowercase(trimmed(name.as_slice()).as_slice()), trimmed(value.as_slice())),
            );
            assert(headers@.drop_last() == before);
        }
        i += 1;
    }
    assert(all.skip(1).take(i - 1) == all.skip(1));
    let path = parts.swap_remove(1);
    let method = parts.swap_remove(0);
    Ok(HttpRequest { method, path, headers })
}

/// Checks that a request can be the callback.
pub fn validate_request(request: &HttpRequest) -> (r: Result<()>)
    ensures
        view_error(r) == acceptable(request@),
{
    if !is_text(request.method.as_slice(), "POST") {
        return Err(Error::InvalidConfig("SAML callback must use POST".to_owned()));
    }
    if !is_text(request.path.as_slice(), "/") {
        return Err(Error::InvalidConfig("SAML callback path must be /".to_owned()));
    }
    if let Some(content_type) = request.header("content-type") {
        let parts = pieces(content_type.as_slice(), ';');
        assert(texts(parts@)[0] == parts@[0]@);
        let media = to_lowercase(trimmed(parts[0].as_slice()).as_slice());
        if !is_text(media.as_slice(), "application/x-www-form-urlencoded") {
            return Err(
                Error::InvalidConfig(
                    "SAML callback content type must be application/x-www-form-urlencoded".to_owned(),
                ),
            );
        }
    }
    Ok(())
}

/// The length of the form that a request announces.
fn content_length(request: &HttpRequest) -> (r: Result<usize>)
    ensures
        view_error(r) == announced_length(request@),
{
    match request.header("content-length") {
        None => Err(Error::InvalidConfig("SAML callback missing Content-Length".to_owned())),
        Some(value) => match parse(value.as_slice(), usize::MAX as u64) {
            Err(e) => Err(
                Error::InvalidConfig(cat("invalid Content-Length: ", e.message().as_str())),
            ),
            Ok(n) => if n > MAX_FORM_BODY_BYTES as u64 {
                Err(Error::SamlResponseTooLarge)
            } else {
                Ok(n as usize)
            },
        },
    }
}

// ---------------------------------------------------------------------------
// Forms

/// The pairs of names and values that `form_urlencoded::parse` reads in bytes.
pub uninterp spec fn form_pairs(body: Seq<u8>) -> Seq<(Seq<char>, Seq<char>)>;

/// The pairs of texts in a list of pairs of strings.
pub open spec fn view_pairs(list: Seq<(String, String)>) -> Seq<(Seq<char>, Seq<char>)> {
    list.map_values(|pair: (String, String)| (pair.0@, pair.1@))
}

/// The digit for a number below sixteen, as a byte.
pub open spec fn hex_byte(d: int) -> u8 {
    if d < 10 {
        (48 + d) as u8
    } else {
        (55 + d) as u8
    }
}

/// A byte in a form: letters, digits and `*-._` stand for themselves, a plus
/// sign stands for a blank, and every other byte is a percent sign and two
/// hexadecimal digits.
pub open spec fn form_byte(b: u8) -> Seq<u8> {
    if 48 <= b <= 57 || 65 <= b <= 90 || 97 <= b <= 122 || b == 42 || b == 45 || b == 46 || b
        == 95 {
        seq![b]
    } else if b == 32 {
        seq![43u8]
    } else {
        seq![37u8, hex_byte(b as int / 16), hex_byte(b as int % 16)]
    }
}

/// Bytes in a form.
pub open spec fn form_bytes(bytes: Seq<u8>) -> Seq<u8>
    decreases bytes.len(),
{
    if bytes.len() == 0 {
        Seq::empty()
    } else {
        form_bytes(bytes.drop_last()) + form_byte(bytes.last())
    }
}

/// A field of a form: a name, an equals sign and a value.
pub open spec fn form_field(name: Seq<char>, value: Seq<char>) -> Seq<u8> {
    form_bytes(encode_utf8(name)).push(61u8) + form_bytes(encode_utf8(value))
}

/// A form: fields with an ampersand between them.
pub open spec fn form_body(fields: Seq<(Seq<char>, Seq<char>)>) -> Seq<u8>
    decreases fields.len(),
{
    if fields.len() == 0 {
        Seq::empty()
    } else if fields.len() == 1 {
        form_field(fields[0].0, fields[0].1)
    } else {
        form_body(fields.drop_last()).push(38u8) + form_field(fields.last().0, fields.last().1)
    }
}

/// Calls `form_urlencoded::parse`, which the `url` crate passes on, and
/// collects the pairs. The list is named by `form_pairs`. The fields of a form
/// come back as they were: parsing cuts at each ampersand and at the first
/// equals sign, and undoes the encoding of the bytes.
#[verifier::external_body]
fn parse_form(body: &[u8]) -> (r: Vec<(String, String)>)
    ensures
        view_pairs(r@) == form_pairs(body@),
        forall|fields: Seq<(Seq<char>, Seq<char>)>|
            body@ == #[trigger] form_body(fields) ==> view_pairs(r@) == fields,
{
    url::form_urlencoded::parse(body).into_owned().collect()
}

/// The value of the first field with a given name.
pub open spec fn first_value(fields: Seq<(Seq<char>, Seq<char>)>, name: Seq<char>) -> Option<
    Seq<char>,
>
    decreases fields.len(),
{
    if fields.len() == 0 {
        None
    } else if fields[0].0 == name {
        Some(fields[0].1)
    } else {
        first_value(fields.skip(1), name)
    }
}

/// The assertion among the fields of a form.
pub open spec fn response_in(fields: Seq<(Seq<char>, Seq<char>)>) -> std::result::Result<
    Seq<char>,
    ErrorView,
> {
    match first_value(fields, "SAMLResponse"@) {
        Some(value) => assertion_of(value),
        None => Err(ErrorView::SamlResponseMissing),
    }
}

/// The assertion among the fields of a form.
pub fn find_saml_response(fields: Vec<(String, String)>) -> (r: Result<SamlAssertion>)
    ensures
        view_result(r) == response_in(view_pairs(fields@)),
{
    let ghost all = view_pairs(fields@);
    let mut i: usize = 0;
    assert(all.skip(0) == all);
    while i < fields.len()
        invariant
            i <= fields@.len(),
            all == view_pairs(fields@),
            first_value(all, "SAMLResponse"@) == first_value(all.skip(i as int), "SAMLResponse"@),
        decreases fields@.len() - i,
    {
        assert(all.skip(i as int)[0] == (fields@[i as int].0@, fields@[i as int].1@));
        if is_text(chars(fields[i].0.as_str()).as_slice(), "SAMLResponse") {
            return SamlAssertion::new(fields[i].1.clone());
        }
        assert(all.skip(i as int).skip(1) == all.skip(i + 1));
        i += 1;
    }
    Err(Error::SamlResponseMissing)
}

/// The assertion in the body of a callback. The response that a form carries
/// is read back as it was.
pub fn parse_saml_response(body: &[u8]) -> (r: Result<SamlAssertion>)
    ensures
        view_result(r) == response_in(form_pairs(body@)),
        forall|fields: Seq<(Seq<char>, Seq<char>)>|
            body@ == #[trigger] form_body(fields) ==> view_result(r) == response_in(fields),
{
    find_saml_response(parse_form(body))
}

// ---------------------------------------------------------------------------
// Reading a callback

/// Whether the bytes that end the headers stand at position `i`.
pub open spec fn terminator_at(buffer: Seq<u8>, i: int) -> bool {
    0 <= i && i + 4 <= buffer.len() && buffer[i] == 13 && buffer[i + 1] == 10 && buffer[i + 2] == 13
        && buffer[i + 3] == 10
}

/// The end of the headers, if it is at position `i` or later.
pub open spec fn header_end_from(buffer: Seq<u8>, i: int) -> Option<int>
    decreases buffer.len() - i,
{
    if i < 0 || i + 4 > buffer.len() {
        None
    } else if terminator_at(buffer, i) {
        Some(i + 4)
    } else {
        header_end_from(buffer, i + 1)
    }
}

/// The end of the headers.
pub open spec fn header_end(buffer: Seq<u8>) -> Option<int> {
    header_end_from(buffer, 0)
}

/// What is to be done with the bytes of a callback that have come so far.
#[derive(Debug)]
pub enum CallbackStep {
    /// More of the headers is to be read, at most this many bytes at once.
    ReadHeaders(usize),
    /// More of the form is to be read, at most this many bytes at once.
    ReadBody(usize),
    /// The callback is complete, or is no good.
    Done(Result<SamlAssertion>),
}

/// The model of a step.
pub enum CallbackStepView {
    ReadHeaders(usize),
    ReadBody(usize),
    Done(std::result::Result<Seq<char>, ErrorView>),
}

impl View for CallbackStep {
    type V = CallbackStepView;

    open spec fn view(&self) -> CallbackStepView {
        match self {
            CallbackStep::ReadHeaders(n) => CallbackStepView::ReadHeaders(*n),
            CallbackStep::ReadBody(n) => CallbackStepView::ReadBody(*n),
            CallbackStep::Done(r) => CallbackStepView::Done(view_result(*r)),
        }
    }
}

/// The length of the form that the bytes of a head announce, if the request
/// can be the callback.
pub open spec fn form_length(head: Seq<u8>) -> std::result::Result<usize, ErrorView> {
    match request_in(head) {
        Err(e) => Err(e),
        Ok(request) => match acceptable(request) {
            Err(e) => Err(e),
            Ok(_) => announced_length(request),
        },
    }
}

/// The form of a callback, once all of it has come.
pub open spec fn complete_body(buffer: Seq<u8>) -> Option<Seq<u8>> {
    match header_end(buffer) {
        None => None,
        Some(end) => match form_length(buffer.take(end)) {
            Err(_) => None,
            Ok(length) => if end + length <= buffer.len() {
                Some(buffer.subrange(end, end + length))
            } else {
                None
            },
        },
    }
}

/// What is to be done with the bytes of a callback that have come so far.
pub open spec fn next_callback_step(buffer: Seq<u8>) -> CallbackStepView {
    match header_end(buffer) {
        None => if buffer.len() > MAX_HEADER_BYTES {
            CallbackStepView::Done(
                Err(ErrorView::InvalidConfig("SAML callback headers are too large"@)),
            )
        } else {
            CallbackStepView::ReadHeaders(HEADER_CHUNK_BYTES)
        },
        Some(end) => match form_length(buffer.take(end)) {
            Err(e) => CallbackStepView::Done(Err(e)),
            Ok(length) => {
                let body = buffer.skip(end);
                if body.len() < length {
                    CallbackStepView::ReadBody(
                        if length - body.len() < BODY_CHUNK_BYTES {
                            (length - body.len()) as usize
                        } else {
                            BODY_CHUNK_BYTES
                        },
                    )
                } else {
                    CallbackStepView::Done(response_in(form_pairs(body.take(length as int))))
                }
            },
        },
    }
}

/// The end of the headers is after its start and inside the bytes.
proof fn lemma_header_end(buffer: Seq<u8>, i: int)
    requires
        0 <= i,
    ensures
        match header_end_from(buffer, i) {
            Some(end) => i + 4 <= end <= buffer.len() && terminator_at(buffer, end - 4) && forall|
                j: int,
            |
                i <= j < end - 4 ==> !#[trigger] terminator_at(buffer, j),
            None => forall|j: int| i <= j ==> !#[trigger] terminator_at(buffer, j),
        },
    decreases buffer.len() - i,
{
    if i + 4 <= buffer.len() && !terminator_at(buffer, i) {
        lemma_header_end(buffer, i + 1);
    }
}

/// The end of the headers.
fn find_header_end(buffer: &[u8]) -> (r: Option<usize>)
    ensures
        match r {
            Some(end) => header_end(buffer@) == Some(end as int) && end <= buffer@.len(),
            None => header_end(buffer@) is None,
        },
{
    let mut i: usize = 0;
    while i < buffer.len() && buffer.len() - i >= 4
        invariant
            i <= buffer@.len(),
            header_end(buffer@) == header_end_from(buffer@, i as int),
        decreases buffer@.len() - i,
    {
        if buffer[i] == 13 && buffer[i + 1] == 10 && buffer[i + 2] == 13 && buffer[i + 3] == 10 {
            return Some(i + 4);
        }
        i += 1;
    }
    None
}

/// The length of the form that the bytes of a head announce.
fn read_form_length(head: &[u8]) -> (r: Result<usize>)
    ensures
        view_error(r) == form_length(head@),
{
    match parse_request(head) {
        Err(e) => Err(e),
        Ok(request) => match validate_request(&request) {
            Err(e) => Err(e),
            Ok(()) => content_length(&request),
        },
    }
}

/// Decides what is to be done with the bytes of a callback that have come so
/// far: read more of it, or take the outcome.
pub fn read_saml_assertion(buffer: &[u8]) -> (r: CallbackStep)
    ensures
        r@ == next_callback_step(buffer@),
        forall|fields: Seq<(Seq<char>, Seq<char>)>|
            complete_body(buffer@) == Some(#[trigger] form_body(fields)) ==> r@
                == CallbackStepView::Done(response_in(fields)),
{
    let size: usize = buffer.len();
    match find_header_end(buffer) {
        None => if size > MAX_HEADER_BYTES {
            CallbackStep::Done(
                Err(Error::InvalidConfig("SAML callback headers are too large".to_owned())),
            )
        } else {
            CallbackStep::ReadHeaders(HEADER_CHUNK_BYTES)
        },
        Some(end) => {
            let head = slice_subrange(buffer, 0, end);
            assert(head@ == buffer@.take(end as int));
            match read_form_length(head) {
                Err(e) => CallbackStep::Done(Err(e)),
                Ok(length) => {
                    let come: usize = size - end;
                    if come < length {
                        let remaining: usize = length - come;
                        CallbackStep::ReadBody(
                            if remaining < BODY_CHUNK_BYTES {
                                remaining
                            } else {
                                BODY_CHUNK_BYTES
                            },
                        )
                    } else {
                        let body = slice_subrange(buffer, end, end + length);
                        assert(body@ == buffer@.skip(end as int).take(length as int));
                        assert(complete_body(buffer@) == Some(body@));
                        CallbackStep::Done(parse_saml_response(body))
                    }
                },
            }
        },
    }
}

/// The error for a callback that ends while more of it is to be read.
pub fn callback_ended(reading_body: bool) -> (r: Error)
    ensures
        r@ == ErrorView::InvalidConfig(
            if reading_body {
                "SAML callback body ended early"@
            } else {
                "SAML callback ended before headers completed"@
            },
        ),
{
    if reading_body {
        Error::InvalidConfig("SAML callback body ended early".to_owned())
    } else {
        Error::InvalidConfig("SAML callback ended before headers completed".to_owned())
    }
}

/// Bytes after the form of a callback that has been accepted change nothing.
pub proof fn lemma_trailing_bytes_are_ignored(buffer: Seq<u8>, more: Seq<u8>)
    requires
        next_callback_step(buffer) matches CallbackStepView::Done(Ok(_)),
    ensures
        next_callback_step(buffer + more) == next_callback_step(buffer),
{
    let all = buffer + more;
    lemma_header_end(buffer, 0);
    lemma_header_end(all, 0);
    let end = header_end(buffer)->0;
    assert(terminator_at(all, end - 4));
    assert forall|j: int| 0 <= j < end - 4 implies !#[trigger] terminator_at(all, j) by {
        assert(!terminator_at(buffer, j));
    }
    assert(header_end(all) == Some(end));
    assert(all.take(end) =~= buffer.take(end));
    let length = form_length(buffer.take(end))->Ok_0 as int;
    assert(all.skip(end).take(length) =~= buffer.skip(end).take(length));
}

// ---------------------------------------------------------------------------
// Answers

/// A page for the browser.
pub open spec fn success_html() -> Seq<char> {
    "<!doctype html><html><body>SAML login received. You can close this window.</body></html>"@
}

/// A page for the browser.
pub open spec fn failure_html() -> Seq<char> {
    "<!doctype html><html><body>SAML login could not be completed.</body></html>"@
}

/// A page for the browser.
pub open spec fn waiting_html() -> Seq<char> {
    "<!doctype html><html><body>Waiting for SAML login response.</body></html>"@
}

/// Whether an error leaves the callback server waiting: the request was not
/// the callback.
pub open spec fn not_the_callback(e: ErrorView) -> bool {
    match e {
        ErrorView::InvalidConfig(message) => contains(message, "must use POST"@) || contains(
            message,
            "path must be /"@,
        ),
        _ => false,
    }
}

/// The status, the reason and the page for an error.
pub open spec fn error_answer(e: ErrorView) -> (nat, Seq<char>, Seq<char>) {
    match e {
        ErrorView::SamlResponseTooLarge => (413, "Payload Too Large"@, failure_html()),
        ErrorView::SamlResponseMissing => (400, "Bad Request"@, failure_html()),
        ErrorView::InvalidConfig(message) => if contains(message, "must use POST"@) {
            (200, "OK"@, waiting_html())
        } else if contains(message, "path must be /"@) {
            (404, "Not Found"@, waiting_html())
        } else {
            (400, "Bad Request"@, failure_html())
        },
        _ => (400, "Bad Request"@, failure_html()),
    }
}

/// A response of the callback server.
pub open spec fn http_response(status: nat, reason: Seq<char>, body: Seq<char>) -> Seq<char> {
    "HTTP/1.1 "@ + decimal(status) + " "@ + reason
        + "\r\nContent-Type: text/html; charset=utf-8\r\nContent-Length: "@ + decimal(
        encode_utf8(body).len(),
    ) + "\r\nConnection: close\r\n\r\n"@ + body
}

/// A response of the callback server.
pub fn render_response(status: u16, reason: &str, body: &str) -> (r: String)
    ensures
        r@ == http_response(status as nat, reason@, body@),
{
    let mut out = chars("HTTP/1.1 ");
    extend(&mut out, to_decimal(status as u64).as_slice());
    extend(&mut out, chars(" ").as_slice());
    extend(&mut out, chars(reason).as_slice());
    extend(
        &mut out,
        chars("\r\nContent-Type: text/html; charset=utf-8\r\nContent-Length: ").as_slice(),
    );
    extend(&mut out, to_decimal(body.as_bytes().len() as u64).as_slice());
    extend(&mut out, chars("\r\nConnection: close\r\n\r\n").as_slice());
    extend(&mut out, chars(body).as_slice());
    string(out.as_slice())
}

/// Whether an error leaves the callback server waiting.
pub fn should_continue_after_error(err: &Error) -> (r: bool)
    ensures
        r == not_the_callback(err@),
{
    match err {
        Error::InvalidConfig(message) => {
            let message = chars(message.as_str());
            holds(message.as_slice(), "must use POST")
                || holds(message.as_slice(), "path must be /")
        },
        _ => false,
    }
}

/// The status, the reason and the page for an error.
pub fn response_for_error(err: &Error) -> (r: (u16, &'static str, &'static str))
    ensures
        (r.0 as nat, r.1@, r.2@) == error_answer(err@),
{
    let failure = "<!doctype html><html><body>SAML login could not be completed.</body></html>";
    let waiting = "<!doctype html><html><body>Waiting for SAML login response.</body></html>";
    match err {
        Error::SamlResponseTooLarge => (413, "Payload Too Large", failure),
        Error::SamlResponseMissing => (400, "Bad Request", failure),
        Error::InvalidConfig(message) => {
            let message = chars(message.as_str());
            if holds(message.as_slice(), "must use POST") {
                (200, "OK", waiting)
            } else if holds(message.as_slice(), "path must be /") {
                (404, "Not Found", waiting)
            } else {
                (400, "Bad Request", failure)
            }
        },
        _ => (400, "Bad Request", failure),
    }
}

/// What the callback server does once it has answered.
#[derive(Debug)]
pub enum AfterAnswer {
    /// It returns the assertion.
    Deliver(SamlAssertion),
    /// It waits for the next request.
    KeepWaiting,
    /// It returns the error.
    Fail(Error),
}

/// The model of what the callback server does once it has answered.
pub enum AfterAnswerView {
    Deliver(Seq<char>),
    KeepWaiting,
    Fail(ErrorView),
}

impl View for AfterAnswer {
    type V = AfterAnswerView;

    open spec fn view(&self) -> AfterAnswerView {
        match self {
            AfterAnswer::Deliver(assertion) => AfterAnswerView::Deliver(assertion@),
            AfterAnswer::KeepWaiting => AfterAnswerView::KeepWaiting,
            AfterAnswer::Fail(e) => AfterAnswerView::Fail(e@),
        }
    }
}

/// The response to a request, and what follows it.
pub open spec fn answer_to(read: std::result::Result<Seq<char>, ErrorView>) -> (
    Seq<char>,
    AfterAnswerView,
) {
    match read {
        Ok(assertion) => (
            http_response(200, "OK"@, success_html()),
            AfterAnswerView::Deliver(assertion),
        ),
        Err(e) => {
            let (status, reason, body) = error_answer(e);
            (
                http_response(status, reason, body),
                if not_the_callback(e) {
                    AfterAnswerView::KeepWaiting
                } else {
                    AfterAnswerView::Fail(e)
                },
            )
        },
    }
}

/// The response to a request that has been read, and what follows it.
pub fn answer_callback(read: Result<SamlAssertion>) -> (r: (String, AfterAnswer))
    ensures
        (r.0@, r.1@) == answer_to(view_result(read)),
{
    match read {
        Ok(assertion) => (
            render_response(
                200,
                "OK",
                "<!doctype html><html><body>SAML login received. You can close this window.</body></html>",
            ),
            AfterAnswer::Deliver(assertion),
        ),
        Err(e) => {
            let (status, reason, body) = response_for_error(&e);
            let response = render_response(status, reason, body);
            if should_continue_after_error(&e) {
                (response, AfterAnswer::KeepWaiting)
            } else {
                (response, AfterAnswer::Fail(e))
            }
        },
    }
}

/// What waiting for the callback brings: what was received, or an error if
/// nothing was received in time.
pub fn receive_outcome(received: Option<Result<SamlAssertion>>) -> (r: Result<SamlAssertion>)
    ensures
        view_result(r) == (match received {
            Some(result) => view_result(result),
            None => Err::<Seq<char>, ErrorView>(ErrorView::SamlTimeout),
        }),
{
    match received {
        Some(result) => result,
        None => Err(Error::SamlTimeout),
    }
}

/// What the callback server returns once the response has been sent, or could
/// not be sent; nothing if it waits for the next request.
pub fn after_answer(next: AfterAnswer, written: Result<()>) -> (r: Option<Result<SamlAssertion>>)
    ensures
        match (next@, r) {
            (AfterAnswerView::Deliver(assertion), Some(result)) => view_result(result) == (
            match written {
                Ok(_) => Ok::<Seq<char>, ErrorView>(assertion),
                Err(e) => Err(e@),
            }),
            (AfterAnswerView::KeepWaiting, None) => true,
            (AfterAnswerView::Fail(e), Some(result)) => view_result(result) == Err::<
                Seq<char>,
                ErrorView,
            >(e),
            _ => false,
        },
{
    match next {
        AfterAnswer::Deliver(assertion) => match written {
            Ok(()) => Some(Ok(assertion)),
            Err(e) => Some(Err(e)),
        },
        AfterAnswer::KeepWaiting => None,
        AfterAnswer::Fail(e) => Some(Err(e)),
    }
}

/// The address for the callback server to listen on: one of the local host.
pub fn acs_address(host: IpAddr, port: u16) -> (r: Result<SocketAddr>)
    ensures
        view_error(r) == (if host.loopback() {
            Ok(SocketAddr { ip: host, port })
        } else {
            Err(ErrorView::InvalidConfig("ACS host must be a loopback address"@))
        }),
{
    if !host.is_loopback() {
        return Err(Error::InvalidConfig("ACS host must be a loopback address".to_owned()));
    }
    Ok(SocketAddr { ip: host, port })
}

/// A request with another method than POST is answered with a page that asks
/// to wait, and the callback server goes on waiting.
pub proof fn lemma_get_is_ignored(request: HttpRequestView)
    requires
        request.method != "POST"@,
    ensures
        ({
            let e = ErrorView::InvalidConfig("SAML callback must use POST"@);
            &&& acceptable(request) == Err::<(), ErrorView>(e)
            &&& answer_to(Err(e)) == (
                http_response(200, "OK"@, waiting_html()),
                AfterAnswerView::KeepWaiting,
            )
        }),
{
    let message = "SAML callback must use POST"@;
    reveal_strlit("SAML callback must use POST");
    reveal_strlit("must use POST");
    assert(message.subrange(14, 27) =~= "must use POST"@);
    crate::text::lemma_find_from(message, "must use POST"@, 0);
    assert(crate::text::occurs_at(message, "must use POST"@, 14));
}

/// A request for another path than the root is answered with a page that asks
/// to wait, and the callback server goes on waiting.
pub proof fn lemma_wrong_path_is_ignored(request: HttpRequestView)
    requires
        request.method == "POST"@,
        request.path != "/"@,
    ensures
        ({
            let e = ErrorView::InvalidConfig("SAML callback path must be /"@);
            &&& acceptable(request) == Err::<(), ErrorView>(e)
            &&& answer_to(Err(e)) == (
                http_response(404, "Not Found"@, waiting_html()),
                AfterAnswerView::KeepWaiting,
            )
        }),
{
    let message = "SAML callback path must be /"@;
    reveal_strlit("SAML callback path must be /");
    reveal_strlit("must use POST");
    reveal_strlit("path must be /");
    assert(message.subrange(14, 28) =~= "path must be /"@);
    crate::text::lemma_find_from(message, "path must be /"@, 0);
    assert(crate::text::occurs_at(message, "path must be /"@, 14));
    crate::text::lemma_find_from(message, "must use POST"@, 0);
    assert forall|i: int| !#[trigger] crate::text::occurs_at(message, "must use POST"@, i) by {
        if crate::text::occurs_at(message, "must use POST"@, i) {
            assert(message.subrange(i, i + 13)[5] == message[i + 5]);
            assert(message.subrange(i, i + 13)[0] == message[i]);
        }
    }
}

// ---------------------------------------------------------------------------
// Whole requests

/// Whether a line of a head names the header `name`, written in any case.
pub open spec fn names_header(line: Seq<char>, name: Seq<char>) -> bool {
    split_once(line, ":"@) matches Some((key, _)) && lowercase(trim(key)) == name
}

/// Whether a line can stand beside the announcement of the length: it names
/// neither the length nor another type of content than a form.
pub open spec fn other_header(line: Seq<char>) -> bool {
    &&& !line.contains('\r')
    &&& !names_header(line, "content-length"@)
    &&& !names_header(line, "content-type"@) || line
        == "Content-Type: application/x-www-form-urlencoded"@
}

/// The lines of the head of a posted form of `n` bytes.
pub open spec fn form_lines(
    before: Seq<Seq<char>>,
    n: nat,
    after: Seq<Seq<char>>,
) -> Seq<Seq<char>> {
    seq!["POST / HTTP/1.1"@] + before + seq!["Content-Length: "@ + decimal(n)] + after
}

/// The head of a posted form of `n` bytes.
pub open spec fn form_head(before: Seq<Seq<char>>, n: nat, after: Seq<Seq<char>>) -> Seq<char> {
    join(form_lines(before, n, after), "\r\n"@) + "\r\n\r\n"@
}

/// Lines that do not name a header leave it as it is.
proof fn lemma_header_stays(first: Seq<Seq<char>>, more: Seq<Seq<char>>, name: Seq<char>)
    requires
        forall|i: int| 0 <= i < more.len() ==> !names_header(#[trigger] more[i], name),
    ensures
        read_headers(first + more).contains_key(name) == read_headers(first).contains_key(name),
        read_headers(first).contains_key(name) ==> read_headers(first + more)[name]
            == read_headers(first)[name],
    decreases more.len(),
{
    if more.len() == 0 {
        assert(first + more =~= first);
    } else {
        let less = more.drop_last();
        assert(forall|i: int| 0 <= i < less.len() ==> #[trigger] less[i] == more[i]);
        lemma_header_stays(first, less, name);
        assert((first + more).drop_last() =~= first + less);
        assert(!names_header(more[more.len() - 1], name));
    }
}

/// A type of content among lines that name no other than a form is that one.
proof fn lemma_form_type(lines: Seq<Seq<char>>)
    requires
        forall|i: int|
            0 <= i < lines.len() ==> !names_header(#[trigger] lines[i], "content-type"@)
                || lines[i] == "Content-Type: application/x-www-form-urlencoded"@,
    ensures
        read_headers(lines).contains_key("content-type"@) ==> media_type(
            read_headers(lines)["content-type"@],
        ) == "application/x-www-form-urlencoded"@,
    decreases lines.len(),
{
    if lines.len() > 0 {
        let less = lines.drop_last();
        let line = lines[lines.len() - 1];
        assert(forall|i: int| 0 <= i < less.len() ==> #[trigger] less[i] == lines[i]);
        lemma_form_type(less);
        if names_header(line, "content-type"@) {
            let value = "application/x-www-form-urlencoded"@;
            reveal_strlit(":");
            reveal_strlit("content-type");
            reveal_strlit("Content-Type: application/x-www-form-urlencoded");
            reveal_strlit("application/x-www-form-urlencoded");
            reveal_strlit("Content-Type");
            let key = "Content-Type"@;
            let spaced = seq![' '] + value;
            assert(line =~= key.push(':') + spaced);
            assert(":"@ =~= seq![':']);
            crate::text::lemma_split_once(key, spaced, ':');
            assert(spaced.skip(1) =~= value);
            crate::split::lemma_trimmed(value);
            assert(trim(spaced) == value);
            assert(!value.contains(';'));
            crate::split::lemma_split_single(value, ';');
            assert(lowercase(value) =~= value);
        }
    }
}

/// The request that the head of a posted form makes up.
proof fn lemma_form_head(before: Seq<Seq<char>>, n: nat, after: Seq<Seq<char>>)
    requires
        forall|i: int| 0 <= i < before.len() ==> other_header(#[trigger] before[i]),
        forall|i: int| 0 <= i < after.len() ==> other_header(#[trigger] after[i]),
    ensures
        ({
            let request = request_of(form_head(before, n, after));
            &&& request is Ok
            &&& acceptable(request->Ok_0) is Ok
            &&& request->Ok_0.headers.contains_key("content-length"@)
            &&& request->Ok_0.headers["content-length"@] == decimal(n)
        }),
{
    let sep = "\r\n"@;
    let empty = Seq::<char>::empty();
    let announced = "Content-Length: "@ + decimal(n);
    let all = form_lines(before, n, after);
    let ended = all.push(empty).push(empty);
    let head = form_head(before, n, after);
    reveal_strlit("\r\n");
    reveal_strlit("\r\n\r\n");
    reveal_strlit("POST / HTTP/1.1");
    reveal_strlit("POST");
    reveal_strlit("/");
    reveal_strlit("HTTP/1.1");
    reveal_strlit("Content-Length: ");
    reveal_strlit("Content-Length");
    reveal_strlit("content-length");
    reveal_strlit("content-type");
    reveal_strlit(":");
    lemma_decimal_digits(n);
    assert(ended.drop_last() =~= all.push(empty));
    assert(all.push(empty).drop_last() =~= all);
    assert(join(all.push(empty), sep) == join(all, sep) + sep + empty);
    assert(join(ended, sep) == join(all.push(empty), sep) + sep + empty);
    assert(join(ended, sep) =~= head);
    assert(!announced.contains('\r')) by {
        if announced.contains('\r') {
            let i = choose|i: int| 0 <= i < announced.len() && announced[i] == '\r';
            if i >= 16 {
                assert(crate::text::digit(decimal(n)[i - 16]));
            }
        }
    }
    assert forall|i: int| 0 <= i < ended.len() implies !(#[trigger] ended[i]).contains(sep[0]) by {
        let m = before.len() as int;
        if 1 <= i < 1 + m {
            assert(ended[i] == before[i - 1]);
            assert(other_header(before[i - 1]));
        } else if 2 + m <= i < 2 + m + after.len() {
            assert(ended[i] == after[i - 2 - m]);
            assert(other_header(after[i - 2 - m]));
        }
    }
    crate::split::lemma_split_text_join(ended, sep);
    let first = "POST / HTTP/1.1"@;
    assert(first =~= ("POST"@.push(' ') + "/"@).push(' ') + "HTTP/1.1"@);
    crate::split::lemma_words_single("POST"@);
    crate::split::lemma_words_append("POST"@, ' ', "/"@);
    crate::split::lemma_words_append("POST"@.push(' ') + "/"@, ' ', "HTTP/1.1"@);
    assert(words(first) =~= seq!["POST"@, "/"@, "HTTP/1.1"@]);
    let given = before.push(announced);
    let more = after.push(empty).push(empty);
    assert(ended.skip(1) =~= given + more);
    assert(!names_header(empty, "content-length"@) && !names_header(empty, "content-type"@)) by {
        crate::text::lemma_find_from(empty, ":"@, 0);
    }
    let key = "Content-Length"@;
    let spaced = seq![' '] + decimal(n);
    assert(announced =~= key.push(':') + spaced);
    assert(":"@ =~= seq![':']);
    crate::text::lemma_split_once(key, spaced, ':');
    crate::split::lemma_trimmed(key);
    assert(lowercase(key) =~= "content-length"@);
    assert(crate::text::digit(decimal(n)[0]));
    assert(crate::text::digit(decimal(n)[decimal(n).len() - 1]));
    assert(spaced.skip(1) =~= decimal(n));
    crate::split::lemma_trimmed(decimal(n));
    assert(trim(spaced) == decimal(n));
    assert(given.drop_last() =~= before);
    assert(read_headers(given)["content-length"@] == decimal(n));
    assert forall|i: int| 0 <= i < more.len() implies !names_header(
        #[trigger] more[i],
        "content-length"@,
    ) by {
        if i < after.len() {
            assert(other_header(after[i]));
        }
    }
    lemma_header_stays(given, more, "content-length"@);
    let every = given + more;
    assert("content-length"@ != "content-type"@) by {
        assert("content-length"@.len() != "content-type"@.len());
    }
    assert forall|i: int| 0 <= i < every.len() implies !names_header(
        #[trigger] every[i],
        "content-type"@,
    ) || every[i] == "Content-Type: application/x-www-form-urlencoded"@ by {
        let m = before.len() as int;
        if i < m {
            assert(other_header(before[i]));
        } else if m < i < m + 1 + after.len() {
            assert(every[i] == after[i - m - 1]);
            assert(other_header(after[i - m - 1]));
        }
    }
    lemma_form_type(every);
}

/// The end of the headers is where the first empty line ends.
proof fn lemma_header_end_is(buffer: Seq<u8>, end: int)
    requires
        terminator_at(buffer, end - 4),
        forall|j: int| 0 <= j < end - 4 ==> !#[trigger] terminator_at(buffer, j),
    ensures
        header_end(buffer) == Some(end),
{
    lemma_header_end(buffer, 0);
}

/// A form that is posted to the root, whatever other headers come with it, is
/// read as soon as all of its announced bytes have come, for every length up to
/// 524288 bytes: the SAML response in it, of up to 131072 bytes without control
/// characters, is the outcome, whole. The bytes that end the headers are the
/// first empty line.
pub proof fn lemma_posted_form_is_read(
    buffer: Seq<u8>,
    end: int,
    before: Seq<Seq<char>>,
    n: nat,
    after: Seq<Seq<char>>,
    k: int,
)
    requires
        forall|i: int| 0 <= i < before.len() ==> other_header(#[trigger] before[i]),
        forall|i: int| 0 <= i < after.len() ==> other_header(#[trigger] after[i]),
        terminator_at(buffer, end - 4),
        forall|j: int| 0 <= j < end - 4 ==> !#[trigger] terminator_at(buffer, j),
        valid_utf8(buffer.take(end)),
        decode_utf8(buffer.take(end)) == form_head(before, n, after),
        n <= 524288,
        end + n <= buffer.len(),
        ({
            let fields = form_pairs(buffer.subrange(end, end + n));
            &&& 0 <= k < fields.len()
            &&& fields[k].0 == "SAMLResponse"@
            &&& forall|j: int| 0 <= j < k ==> (#[trigger] fields[j]).0 != "SAMLResponse"@
            &&& 0 < fields[k].1.len()
            &&& encode_utf8(fields[k].1).len() <= 131072
            &&& forall|j: int|
                0 <= j < fields[k].1.len() ==> ' ' <= #[trigger] fields[k].1[j] <= '~' || fields[k].1[j]
                    >= '\u{a0}'
        }),
    ensures
        next_callback_step(buffer) == CallbackStepView::Done(
            Ok(form_pairs(buffer.subrange(end, end + n))[k].1),
        ),
{
    lemma_header_end_is(buffer, end);
    lemma_form_head(before, n, after);
    lemma_decimal_parse(n, usize::MAX as nat);
    let fields = form_pairs(buffer.subrange(end, end + n));
    assert(buffer.skip(end).take(n as int) =~= buffer.subrange(end, end + n));
    lemma_first_value(fields, "SAMLResponse"@, k);
    let value = fields[k].1;
    assert forall|j: int| 0 <= j < value.len() implies !crate::text::control(#[trigger] value[j]) by {
        assert(' ' <= value[j] <= '~' || value[j] >= '\u{a0}');
    }
}

/// The first field with a name is the one that counts.
pub proof fn lemma_first_value(fields: Seq<(Seq<char>, Seq<char>)>, name: Seq<char>, k: int)
    requires
        0 <= k < fields.len(),
        fields[k].0 == name,
        forall|j: int| 0 <= j < k ==> (#[trigger] fields[j]).0 != name,
    ensures
        first_value(fields, name) == Some(fields[k].1),
    decreases fields.len(),
{
    if k > 0 {
        let rest = fields.skip(1);
        assert(forall|j: int| 0 <= j < rest.len() ==> #[trigger] rest[j] == fields[j + 1]);
        lemma_first_value(rest, name, k - 1);
    }
}

/// While bytes of an announced form are missing, more of it is read: at least
/// one byte, never more than are missing, and never more than 8192 at once.
pub proof fn lemma_missing_bytes_are_read(
    buffer: Seq<u8>,
    end: int,
    before: Seq<Seq<char>>,
    n: nat,
    after: Seq<Seq<char>>,
)
    requires
        forall|i: int| 0 <= i < before.len() ==> other_header(#[trigger] before[i]),
        forall|i: int| 0 <= i < after.len() ==> other_header(#[trigger] after[i]),
        terminator_at(buffer, end - 4),
        forall|j: int| 0 <= j < end - 4 ==> !#[trigger] terminator_at(buffer, j),
        valid_utf8(buffer.take(end)),
        decode_utf8(buffer.take(end)) == form_head(before, n, after),
        n <= 524288,
        end + n > buffer.len(),
    ensures
        next_callback_step(buffer) matches CallbackStepView::ReadBody(more) && 0 < more <= 8192
            && more <= end + n - buffer.len() && (more == 8192 || more == end + n - buffer.len()),
{
    lemma_header_end_is(buffer, end);
    lemma_form_head(before, n, after);
    lemma_decimal_parse(n, usize::MAX as nat);
}

/// A form that is announced with more than 524288 bytes is refused as too large
/// before any of it has come.
pub proof fn lemma_large_form_is_refused(
    buffer: Seq<u8>,
    end: int,
    before: Seq<Seq<char>>,
    n: nat,
    after: Seq<Seq<char>>,
)
    requires
        forall|i: int| 0 <= i < before.len() ==> other_header(#[trigger] before[i]),
        forall|i: int| 0 <= i < after.len() ==> other_header(#[trigger] after[i]),
        terminator_at(buffer, end - 4),
        forall|j: int| 0 <= j < end - 4 ==> !#[trigger] terminator_at(buffer, j),
        valid_utf8(buffer.take(end)),
        decode_utf8(buffer.take(end)) == form_head(before, n, after),
        524288 < n <= usize::MAX,
    ensures
        next_callback_step(buffer) == CallbackStepView::Done(Err(ErrorView::SamlResponseTooLarge)),
{
    lemma_header_end_is(buffer, end);
    lemma_form_head(before, n, after);
    lemma_decimal_parse(n, usize::MAX as nat);
}

/// While no empty line has come, more of the headers is read, up to 16384
/// bytes; after that the request is refused.
pub proof fn lemma_headers_are_awaited(buffer: Seq<u8>)
    requires
        forall|j: int| 0 <= j ==> !#[trigger] terminator_at(buffer, j),
    ensures
        buffer.len() <= 16384 ==> (next_callback_step(buffer) matches CallbackStepView::ReadHeaders(
            more,
        ) && more == 2048),
        buffer.len() > 16384 ==> next_callback_step(buffer) == CallbackStepView::Done(
            Err(ErrorView::InvalidConfig("SAML callback headers are too large"@)),
        ),
{
    lemma_header_end(buffer, 0);
}

/// A text is an assertion, unchanged, exactly if it has at least one character
/// and at most 131072 bytes and holds no control character.
pub proof fn lemma_assertions_are_kept(value: Seq<char>)
    ensures
        (assertion_of(value) == Ok::<Seq<char>, ErrorView>(value)) <==> value.len() > 0
            && encode_utf8(value).len() <= 131072 && forall|j: int|
            0 <= j < value.len() ==> ' ' <= #[trigger] value[j] <= '~' || value[j] >= '\u{a0}',
        value.len() == 0 ==> assertion_of(value) == Err::<Seq<char>, ErrorView>(
            ErrorView::SamlResponseMissing,
        ),
        encode_utf8(value).len() > 131072 ==> assertion_of(value) == Err::<Seq<char>, ErrorView>(
            ErrorView::SamlResponseTooLarge,
        ),
{
    assert(forall|j: int|
        0 <= j < value.len() ==> (crate::text::control(#[trigger] value[j]) <==> !(' ' <= value[j]
            <= '~' || value[j] >= '\u{a0}')));
}

/// A form without a field for the response has none.
pub proof fn lemma_response_may_be_missing(fields: Seq<(Seq<char>, Seq<char>)>)
    requires
        forall|j: int| 0 <= j < fields.len() ==> (#[trigger] fields[j]).0 != "SAMLResponse"@,
    ensures
        response_in(fields) == Err::<Seq<char>, ErrorView>(ErrorView::SamlResponseMissing),
    decreases fields.len(),
{
    if fields.len() > 0 {
        let rest = fields.skip(1);
        assert(forall|j: int| 0 <= j < rest.len() ==> #[trigger] rest[j] == fields[j + 1]);
        lemma_response_may_be_missing(rest);
    }
}

/// Whether a line of a head is plain: it is not empty, and its characters are
/// those of ASCII that can be seen, or blanks.
pub open spec fn plain_line(line: Seq<char>) -> bool {
    line.len() > 0 && forall|i: int| 0 <= i < line.len() ==> ' ' <= #[trigger] line[i] <= '~'
}

/// Plain lines, joined, are in ASCII, and behind each line end stands the next
/// line.
proof fn lemma_joined_lines(all: Seq<Seq<char>>)
    requires
        forall|i: int| 0 <= i < all.len() ==> plain_line(#[trigger] all[i]),
    ensures
        is_ascii_chars(join(all, "\r\n"@)),
        forall|p: int|
            0 <= p < join(all, "\r\n"@).len() && (#[trigger] join(all, "\r\n"@)[p]) == '\r' ==> p + 2
                < join(all, "\r\n"@).len() && join(all, "\r\n"@)[p + 2] != '\r',
    decreases all.len(),
{
    let sep = "\r\n"@;
    let whole = join(all, sep);
    reveal_strlit("\r\n");
    if all.len() == 1 {
        assert(plain_line(all[0]));
    } else if all.len() > 1 {
        let less = all.drop_last();
        let last = all[all.len() - 1];
        let front = join(less, sep);
        assert(forall|i: int| 0 <= i < less.len() ==> #[trigger] less[i] == all[i]);
        lemma_joined_lines(less);
        assert(plain_line(last));
        let n = front.len() as int;
        assert(whole == front + sep + last);
        assert forall|p: int| 0 <= p < whole.len() implies '\0' <= #[trigger] whole[p] <= '\u{7f}' by {
            if p < n {
                assert(front[p] == whole[p]);
            } else if p >= n + 2 {
                assert(last[p - n - 2] == whole[p]);
            }
        }
        assert forall|p: int| 0 <= p < whole.len() && (#[trigger] whole[p]) == '\r' implies p + 2
            < whole.len() && whole[p + 2] != '\r' by {
            if p < n {
                assert(front[p] == '\r');
                assert(whole[p + 2] == front[p + 2]);
            } else if p >= n + 2 {
                assert(last[p - n - 2] == whole[p]);
            } else {
                assert(p == n);
                assert(whole[p + 2] == last[0]);
            }
        }
    }
}

/// The bytes of a posted form with plain headers, and whatever follows it: its
/// SAML response is the outcome, for every length up to 524288 bytes.
pub proof fn lemma_bytes_of_form_are_read(
    before: Seq<Seq<char>>,
    after: Seq<Seq<char>>,
    body: Seq<u8>,
    more: Seq<u8>,
    k: int,
)
    requires
        forall|i: int|
            0 <= i < before.len() ==> other_header(#[trigger] before[i]) && plain_line(before[i]),
        forall|i: int|
            0 <= i < after.len() ==> other_header(#[trigger] after[i]) && plain_line(after[i]),
        body.len() <= 524288,
        ({
            let fields = form_pairs(body);
            &&& 0 <= k < fields.len()
            &&& fields[k].0 == "SAMLResponse"@
            &&& forall|j: int| 0 <= j < k ==> (#[trigger] fields[j]).0 != "SAMLResponse"@
            &&& 0 < fields[k].1.len()
            &&& encode_utf8(fields[k].1).len() <= 131072
            &&& forall|j: int|
                0 <= j < fields[k].1.len() ==> ' ' <= #[trigger] fields[k].1[j] <= '~' || fields[k].1[j]
                    >= '\u{a0}'
        }),
    ensures
        next_callback_step(encode_utf8(form_head(before, body.len(), after)) + body + more)
            == CallbackStepView::Done(Ok(form_pairs(body)[k].1)),
{
    let all = form_lines(before, body.len(), after);
    let head = form_head(before, body.len(), after);
    let bytes = encode_utf8(head);
    let buffer = bytes + body + more;
    let announced = "Content-Length: "@ + decimal(body.len());
    reveal_strlit("\r\n");
    reveal_strlit("\r\n\r\n");
    reveal_strlit("POST / HTTP/1.1");
    reveal_strlit("Content-Length: ");
    lemma_decimal_digits(body.len());
    assert(plain_line(announced)) by {
        assert forall|i: int| 0 <= i < announced.len() implies ' ' <= #[trigger] announced[i] <= '~' by {
            if i >= 16 {
                assert(crate::text::digit(decimal(body.len())[i - 16]));
            }
        }
    }
    assert forall|i: int| 0 <= i < all.len() implies plain_line(#[trigger] all[i]) by {
        let m = before.len() as int;
        if 1 <= i < 1 + m {
            assert(all[i] == before[i - 1]);
            assert(other_header(before[i - 1]));
        } else if 2 + m <= i {
            assert(all[i] == after[i - 2 - m]);
            assert(other_header(after[i - 2 - m]));
        }
    }
    lemma_joined_lines(all);
    let joined = join(all, "\r\n"@);
    let end = head.len() as int;
    assert forall|p: int| 0 <= p < head.len() implies '\0' <= #[trigger] head[p] <= '\u{7f}' by {
        if p < joined.len() {
            assert(joined[p] == head[p]);
        }
    }
    is_ascii_chars_encode_utf8(head);
    encode_utf8_valid_utf8(head);
    encode_utf8_decode_utf8(head);
    assert(buffer.take(end) =~= bytes);
    assert forall|p: int| 0 <= p < end implies #[trigger] buffer[p] == head[p] as u8 by {
        assert(bytes[p] == buffer[p]);
    }
    assert(buffer[end - 4] == head[end - 4] as u8);
    assert(buffer[end - 3] == head[end - 3] as u8);
    assert(buffer[end - 2] == head[end - 2] as u8);
    assert(buffer[end - 1] == head[end - 1] as u8);
    assert(terminator_at(buffer, end - 4));
    assert forall|j: int| 0 <= j < end - 4 implies !#[trigger] terminator_at(buffer, j) by {
        if terminator_at(buffer, j) {
            assert(buffer[j] == head[j] as u8 && head[j] == joined[j]);
            assert(joined[j] == '\r');
            assert(buffer[j + 2] == head[j + 2] as u8 && head[j + 2] == joined[j + 2]);
        }
    }
    assert(buffer.subrange(end, end + body.len()) =~= body);
    lemma_posted_form_is_read(buffer, end, before, body.len(), after, k);
}

/// A posted form may name its type in any case and with parameters behind it;
/// another type is refused, and so is another method or another path.
pub proof fn lemma_types_of_requests(request: HttpRequestView, media: Seq<char>, more: Seq<char>)
    requires
        request.method == "POST"@,
        request.path == "/"@,
        request.headers.contains_key("content-type"@),
        request.headers["content-type"@] == media + more,
        media.len() > 0 && !crate::text::whitespace(media[0]) && !crate::text::whitespace(
            media.last(),
        ),
        !media.contains(';'),
        more.len() > 0 ==> more[0] == ';',
    ensures
        acceptable(request) == (if lowercase(media) == "application/x-www-form-urlencoded"@ {
            Ok::<(), ErrorView>(())
        } else {
            Err(
                ErrorView::InvalidConfig(
                    "SAML callback content type must be application/x-www-form-urlencoded"@,
                ),
            )
        }),
{
    if more.len() == 0 {
        assert(media + more =~= media);
        crate::split::lemma_split_single(media, ';');
    } else {
        assert(media + more =~= media.push(';') + more.skip(1));
        crate::split::lemma_split_front(media, more.skip(1), ';');
    }
    crate::split::lemma_trimmed(media);
}

/// A response is delivered after the page that tells of the success. A form
/// that is too large, has no response or is no good ends the wait with that
/// error, and the page says that the login could not be completed.
pub proof fn lemma_answers(assertion: Seq<char>, message: Seq<char>)
    requires
        !contains(message, "must use POST"@),
        !contains(message, "path must be /"@),
    ensures
        ({
            let good = "<!doctype html><html><body>SAML login received. You can close this window.</body></html>"@;
            let bad = "<!doctype html><html><body>SAML login could not be completed.</body></html>"@;
            let refused = ErrorView::InvalidConfig(message);
            &&& answer_to(Ok(assertion)) == (
                http_response(200, "OK"@, good),
                AfterAnswerView::Deliver(assertion),
            )
            &&& answer_to(Err(ErrorView::SamlResponseTooLarge)) == (
                http_response(413, "Payload Too Large"@, bad),
                AfterAnswerView::Fail(ErrorView::SamlResponseTooLarge),
            )
            &&& answer_to(Err(ErrorView::SamlResponseMissing)) == (
                http_response(400, "Bad Request"@, bad),
                AfterAnswerView::Fail(ErrorView::SamlResponseMissing),
            )
            &&& answer_to(Err(refused)) == (
                http_response(400, "Bad Request"@, bad),
                AfterAnswerView::Fail(refused),
            )
        }),
{
}

/// An answer begins with its status and ends with its page, after a blank line;
/// it announces the length of the page in bytes, and that the connection ends.
pub proof fn lemma_answers_are_well_formed(status: nat, reason: Seq<char>, body: Seq<char>)
    ensures
        ({
            let first = "HTTP/1.1 "@ + decimal(status) + " "@ + reason + "\r\n"@;
            let length = "Content-Length: "@ + decimal(encode_utf8(body).len()) + "\r\n"@;
            http_response(status, reason, body) == first
                + "Content-Type: text/html; charset=utf-8\r\n"@ + length
                + "Connection: close\r\n"@ + "\r\n"@ + body
        }),
{
    reveal_strlit("\r\n");
    reveal_strlit("Content-Length: ");
    reveal_strlit("Content-Type: text/html; charset=utf-8\r\n");
    reveal_strlit("Connection: close\r\n");
    reveal_strlit("\r\nContent-Type: text/html; charset=utf-8\r\nContent-Length: ");
    reveal_strlit("\r\nConnection: close\r\n\r\n");
    let first = "HTTP/1.1 "@ + decimal(status) + " "@ + reason + "\r\n"@;
    let length = "Content-Length: "@ + decimal(encode_utf8(body).len()) + "\r\n"@;
    assert("\r\nContent-Type: text/html; charset=utf-8\r\nContent-Length: "@ =~= "\r\n"@
        + "Content-Type: text/html; charset=utf-8\r\n"@ + "Content-Length: "@);
    assert("\r\nConnection: close\r\n\r\n"@ =~= "\r\n"@ + "Connection: close\r\n"@ + "\r\n"@);
    assert(http_response(status, reason, body) =~= first
        + "Content-Type: text/html; charset=utf-8\r\n"@ + length + "Connection: close\r\n"@
        + "\r\n"@ + body);
}

} // verus!
