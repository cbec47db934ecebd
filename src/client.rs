//! What the library frames and checks for outgoing and incoming requests:
//! multipart form bodies, response bodies and the medal page.
use rand::Rng;
use vstd::prelude::*;
use vstd::string::StringExecFns;
use vstd::utf8::{decode_utf8, encode_utf8, valid_utf8};

use crate::text::push_char;

verus! {

/// The number of bytes of a multipart boundary.
pub const BOUNDARY_LEN: usize = 16;

/// An ASCII letter or digit.
pub open spec fn is_alphanumeric(b: u8) -> bool {
    (48 <= b <= 57) || (65 <= b <= 90) || (97 <= b <= 122)
}

/// Relies on rand 0.8's `thread_rng` and its `Alphanumeric` distribution,
/// which picks one of `A-Z`, `a-z`, `0-9`.
#[verifier::external_body]
fn random_alphanumeric() -> (r: u8)
    ensures
        is_alphanumeric(r),
{
    rand::thread_rng().sample(rand::distributions::Alphanumeric)
}

/// Relies on `String::from_utf8`: the bytes as text where they are valid
/// UTF-8, else the bytes handed back.
#[verifier::external_body]
fn utf8_string(bytes: Vec<u8>) -> (r: Result<String, Vec<u8>>)
    ensures
        match r {
            Ok(s) => valid_utf8(bytes@) && s@ == decode_utf8(bytes@),
            Err(b) => !valid_utf8(bytes@) && b@ == bytes@,
        },
{
    match String::from_utf8(bytes) {
        Ok(s) => Ok(s),
        Err(e) => Err(e.into_bytes()),
    }
}

/// The value of the attribute `data-initial-data` of the first `div` element
/// of an HTML fragment that has one.
pub uninterp spec fn initial_data_of(html: Seq<char>) -> Option<Seq<char>>;

/// Relies on scraper's `Html::parse_fragment`, the `div` selector and
/// `ElementRef::attr`: the attribute of the first `div` that has it. The
/// result depends on the text alone.
#[verifier::external_body]
fn initial_data(html: &str) -> (r: Option<String>)
    ensures
        match r {
            Some(s) => initial_data_of(html@) == Some(s@),
            None => initial_data_of(html@) is None,
        },
{
    let doc = scraper::Html::parse_fragment(html);
    let divs = match scraper::Selector::parse("div") {
        Ok(selector) => selector,
        Err(_) => return None,
    };
    let found = doc.select(&divs).find_map(|div| div.value().attr("data-initial-data"));
    found.map(|data| data.to_string())
}

/// Appends `b` to `v`.
fn append_bytes(v: &mut Vec<u8>, b: &[u8])
    ensures
        final(v)@ == old(v)@ + b@,
{
    let mut i: usize = 0;
    while i < b.len()
        invariant
            i <= b@.len(),
            v@ == old(v)@ + b@.take(i as int),
        decreases b@.len() - i,
    {
        v.push(b[i]);
        i += 1;
        proof {
            assert(v@ =~= old(v)@ + b@.take(i as int));
        }
    }
    proof {
        assert(b@.take(i as int) =~= b@);
    }
}

/// The bytes of the text `s` (UTF-8).
pub open spec fn text_bytes(s: &str) -> Seq<u8> {
    encode_utf8(s@)
}

fn append_text(v: &mut Vec<u8>, s: &str)
    ensures
        final(v)@ == old(v)@ + text_bytes(s),
{
    append_bytes(v, s.as_bytes());
}

/// The head of a form field: a line break unless it is the first part, the
/// boundary line, the disposition with the field name, the content type if
/// any, and the blank line.
pub open spec fn field_head(
    first: bool,
    boundary: Seq<u8>,
    name: Seq<u8>,
    content_type: Option<Seq<u8>>,
) -> Seq<u8> {
    (if first {
        Seq::empty()
    } else {
        text_bytes("\r\n")
    }) + text_bytes("--") + boundary + text_bytes("\r\n") + text_bytes(
        "Content-Disposition: form-data; name=\"",
    ) + name + text_bytes("\"") + (match content_type {
        Some(ct) => text_bytes("\r\nContent-Type: ") + ct,
        None => Seq::empty(),
    }) + text_bytes("\r\n") + text_bytes("\r\n")
}

/// The end of a form: a line break unless it is empty, then the closing
/// boundary line.
pub open spec fn form_end(empty: bool, boundary: Seq<u8>) -> Seq<u8> {
    (if empty {
        Seq::empty()
    } else {
        text_bytes("\r\n")
    }) + text_bytes("--") + boundary + text_bytes("--")
}

/// A multipart form body under construction.
pub struct Multipart {
    bytes: Vec<u8>,
    boundary: Vec<u8>,
}

impl Multipart {
    /// The body so far.
    pub closed spec fn view(&self) -> Seq<u8> {
        self.bytes@
    }

    /// The boundary between the parts.
    pub closed spec fn boundary(&self) -> Seq<u8> {
        self.boundary@
    }

    pub closed spec fn wf(&self) -> bool {
        &&& self.boundary@.len() == BOUNDARY_LEN
        &&& forall|i: int| 0 <= i < BOUNDARY_LEN ==> is_alphanumeric(#[trigger] self.boundary@[i])
    }

    /// An empty form with a random boundary of letters and digits.
    pub fn new() -> (r: Multipart)
        ensures
            r.wf(),
            r@.len() == 0,
    {
        let mut boundary: Vec<u8> = Vec::new();
        while boundary.len() < BOUNDARY_LEN
            invariant
                boundary@.len() <= BOUNDARY_LEN,
                forall|i: int| 0 <= i < boundary@.len() ==> is_alphanumeric(#[trigger] boundary@[i]),
            decreases BOUNDARY_LEN - boundary@.len(),
        {
            boundary.push(random_alphanumeric());
        }
        Multipart { bytes: Vec::new(), boundary }
    }

    /// An empty form with the given boundary.
    pub fn with_boundary(boundary: Vec<u8>) -> (r: Option<Multipart>)
        ensures
            match r {
                Some(m) => m.wf() && m@.len() == 0 && m.boundary() == boundary@,
                None => !(boundary@.len() == BOUNDARY_LEN && forall|i: int|
                    0 <= i < BOUNDARY_LEN ==> is_alphanumeric(#[trigger] boundary@[i])),
            },
    {
        if boundary.len() != BOUNDARY_LEN {
            return None;
        }
        let mut i: usize = 0;
        while i < BOUNDARY_LEN
            invariant
                boundary@.len() == BOUNDARY_LEN,
                i <= BOUNDARY_LEN,
                forall|j: int| 0 <= j < i ==> is_alphanumeric(#[trigger] boundary@[j]),
            decreases BOUNDARY_LEN - i,
        {
            let b = boundary[i];
            if !((48 <= b && b <= 57) || (65 <= b && b <= 90) || (97 <= b && b <= 122)) {
                return None;
            }
            i += 1;
        }
        Some(Multipart { bytes: Vec::new(), boundary })
    }

    fn write_field_headers(&mut self, name: &[u8], content_type: Option<&str>)
        ensures
            final(self).boundary@ == old(self).boundary@,
            final(self).bytes@ == old(self).bytes@ + field_head(
                old(self).bytes@.len() == 0,
                old(self).boundary@,
                name@,
                match content_type {
                    Some(ct) => Some(text_bytes(ct)),
                    None => None,
                },
            ),
    {
        if self.bytes.len() != 0 {
            append_text(&mut self.bytes, "\r\n");
        }
        append_text(&mut self.bytes, "--");
        append_bytes(&mut self.bytes, self.boundary.as_slice());
        append_text(&mut self.bytes, "\r\n");
        append_text(&mut self.bytes, "Content-Disposition: form-data; name=\"");
        append_bytes(&mut self.bytes, name);
        append_text(&mut self.bytes, "\"");
        match content_type {
            Some(ct) => {
                append_text(&mut self.bytes, "\r\nContent-Type: ");
                append_text(&mut self.bytes, ct);
            },
            None => {},
        }
        append_text(&mut self.bytes, "\r\n");
        append_text(&mut self.bytes, "\r\n");
        proof {
            assert(self.bytes@ =~= old(self).bytes@ + field_head(
                old(self).bytes@.len() == 0,
                old(self).boundary@,
                name@,
                match content_type {
                    Some(ct) => Some(text_bytes(ct)),
                    None => None,
                },
            ));
        }
    }

    /// Adds a text field.
    pub fn push_text(self, key: &[u8], value: &[u8]) -> (r: Multipart)
        requires
            self.wf(),
        ensures
            r.wf(),
            r.boundary() == self.boundary(),
            r@ == self@ + field_head(self@.len() == 0, self.boundary(), key@, None) + value@,
    {
        let mut m = self;
        m.write_field_headers(key, None);
        append_bytes(&mut m.bytes, value);
        proof {
            assert(m.bytes@ =~= self@ + field_head(self@.len() == 0, self.boundary(), key@, None)
                + value@);
        }
        m
    }

    /// Adds a JSON field; `json` is the serialized value.
    pub fn push_json(self, key: &[u8], json: &[u8]) -> (r: Multipart)
        requires
            self.wf(),
        ensures
            r.wf(),
            r.boundary() == self.boundary(),
            r@ == self@ + field_head(
                self@.len() == 0,
                self.boundary(),
                key@,
                Some(text_bytes("application/json")),
            ) + json@,
    {
        let mut m = self;
        m.write_field_headers(key, Some("application/json"));
        append_bytes(&mut m.bytes, json);
        proof {
            assert(m.bytes@ =~= self@ + field_head(
                self@.len() == 0,
                self.boundary(),
                key@,
                Some(text_bytes("application/json")),
            ) + json@);
        }
        m
    }

    /// The finished body.
    pub fn finish(self) -> (r: Vec<u8>)
        ensures
            r@ == self@ + form_end(self@.len() == 0, self.boundary()),
    {
        let mut m = self;
        if m.bytes.len() != 0 {
            append_text(&mut m.bytes, "\r\n");
        }
        append_text(&mut m.bytes, "--");
        append_bytes(&mut m.bytes, m.boundary.as_slice());
        append_text(&mut m.bytes, "--");
        proof {
            assert(m.bytes@ =~= self@ + form_end(self@.len() == 0, self.boundary()));
        }
        m.bytes
    }

    /// The content type header value that names the boundary.
    pub fn content_type(&self) -> (r: String)
        requires
            self.wf(),
        ensures
            r@ == "multipart/form-data; boundary="@ + self.boundary().map_values(|b: u8| b as char),
    {
        let mut r = String::from_str("multipart/form-data; boundary=");
        let ghost prefix = r@;
        let mut i: usize = 0;
        while i < self.boundary.len()
            invariant
                i <= self.boundary@.len(),
                r@ == prefix + self.boundary@.take(i as int).map_values(|b: u8| b as char),
            decreases self.boundary@.len() - i,
        {
            push_char(&mut r, self.boundary[i] as char);
            i += 1;
            proof {
                assert(r@ =~= prefix + self.boundary@.take(i as int).map_values(|b: u8| b as char));
            }
        }
        proof {
            assert(self.boundary@.take(i as int) =~= self.boundary@);
        }
        r
    }
}

/// A request body held in memory; it is handed out whole, once.
pub struct BodyBytes {
    bytes: Vec<u8>,
}

impl BodyBytes {
    pub closed spec fn view(&self) -> Seq<u8> {
        self.bytes@
    }

    pub fn from_vec(bytes: Vec<u8>) -> (r: BodyBytes)
        ensures
            r@ == bytes@,
    {
        BodyBytes { bytes }
    }

    pub fn is_empty(&self) -> (r: bool)
        ensures
            r == (self@.len() == 0),
    {
        self.bytes.len() == 0
    }

    pub fn len(&self) -> (r: usize)
        ensures
            r == self@.len(),
    {
        self.bytes.len()
    }

    /// Hands out what is left, leaving the body empty; none once it is empty.
    pub fn take_data(&mut self) -> (r: Option<Vec<u8>>)
        ensures
            final(self)@.len() == 0,
            match r {
                Some(b) => old(self)@.len() > 0 && b@ == old(self)@,
                None => old(self)@.len() == 0,
            },
    {
        if self.bytes.len() != 0 {
            let b = self.bytes.split_off(0);
            Some(b)
        } else {
            None
        }
    }
}

/// A response body that is not valid UTF-8.
pub struct InvalidUtf8 {
    pub bytes: Vec<u8>,
}

/// The text of a response of the ranking site.
pub struct OsekaiResponse(pub String);

impl OsekaiResponse {
    /// The body as text; the error holds the bytes where they are not UTF-8.
    pub fn new(bytes: Vec<u8>) -> (r: Result<OsekaiResponse, InvalidUtf8>)
        ensures
            match r {
                Ok(resp) => valid_utf8(bytes@) && resp.0@ == decode_utf8(bytes@),
                Err(e) => !valid_utf8(bytes@) && e.bytes@ == bytes@,
            },
    {
        match utf8_string(bytes) {
            Ok(s) => Ok(OsekaiResponse(s)),
            Err(b) => Err(InvalidUtf8 { bytes: b }),
        }
    }

    /// The response as a suffix of a log line: empty, or `; Response: ` and the text.
    pub fn describe(&self) -> (r: String)
        ensures
            r@ == if self.0@.len() == 0 {
                Seq::<char>::empty()
            } else {
                "; Response: "@ + self.0@
            },
    {
        if self.0.as_str().unicode_len() == 0 {
            String::new()
        } else {
            let mut r = String::from_str("; Response: ");
            r.append(self.0.as_str());
            r
        }
    }
}

/// Why the medal data could not be read from a profile page.
pub enum MedalPageError {
    /// The page is not valid UTF-8.
    InvalidUtf8(Vec<u8>),
    /// No `div` carries the `data-initial-data` attribute.
    MissingData,
}

/// The embedded data of a profile page: the `data-initial-data` attribute of
/// its first `div` that has one.
pub fn medal_page_data(page: Vec<u8>) -> (r: Result<String, MedalPageError>)
    ensures
        match r {
            Ok(data) => valid_utf8(page@) && initial_data_of(decode_utf8(page@)) == Some(data@),
            Err(MedalPageError::InvalidUtf8(b)) => !valid_utf8(page@) && b@ == page@,
            Err(MedalPageError::MissingData) => valid_utf8(page@) && initial_data_of(
                decode_utf8(page@),
            ) is None,
        },
{
    let html = match utf8_string(page) {
        Ok(s) => s,
        Err(b) => return Err(MedalPageError::InvalidUtf8(b)),
    };
    match initial_data(html.as_str()) {
        Some(data) => Ok(data),
        None => Err(MedalPageError::MissingData),
    }
}

} // verus!
