//! The application wire format: one ASCII header line `<key>=<T>,len=<n>\n`,
//! where `<key>` is the type key of `type_key` and `<T>` names the message
//! type (`Request` or `Response`), followed by exactly `n` bytes of payload.

use vstd::prelude::*;
use vstd::utf8::*;

use crate::text::{
    chars_of, decimal, is_digit, is_white_space, lemma_decimal_digits, lemma_parse_decimal,
    lemma_split_concat, lemma_split_without_sep, lemma_trim_trailing, parse_usize,
    parse_usize_chars, push_decimal, push_str, same_chars, split, split_chars, string_of, trim,
    trim_chars,
};

verus! {

/// The longest header line, newline included, that a reader accepts.
pub const PROTOCOL_HEADER_MAX_LEN: usize = 2048;

/// Why a framed message could not be read.
#[derive(Debug, Clone, Copy, PartialEq, Eq, Structural)]
pub enum FramingError {
    /// No newline within the first `PROTOCOL_HEADER_MAX_LEN` bytes.
    Unterminated,
    /// The header line is not UTF-8.
    InvalidUtf8,
    /// A header field has a key but no `=value`.
    MissingValue,
    /// The `len` field is not an unsigned decimal that fits in `usize`.
    InvalidLen,
    /// No type field.
    MissingTypeName,
    /// No `len` field.
    MissingLen,
    /// Fewer payload bytes than the header announces.
    Truncated,
}

/// The account of a framing error.
pub open spec fn framing_error_text(e: FramingError) -> Seq<char> {
    match e {
        FramingError::Unterminated => "header line is not terminated"@,
        FramingError::InvalidUtf8 => "header is not valid UTF-8"@,
        FramingError::MissingValue => "value not found in header"@,
        FramingError::InvalidLen => "header 'len' is not a valid length"@,
        FramingError::MissingTypeName => "header type field is missing"@,
        FramingError::MissingLen => "header 'len' is missing"@,
        FramingError::Truncated => "payload is shorter than announced"@,
    }
}

impl FramingError {
    /// A human-readable account of the error.
    pub fn message(&self) -> (r: &'static str)
        ensures
            r@ == framing_error_text(*self),
    {
        match self {
            FramingError::Unterminated => "header line is not terminated",
            FramingError::InvalidUtf8 => "header is not valid UTF-8",
            FramingError::MissingValue => "value not found in header",
            FramingError::InvalidLen => "header 'len' is not a valid length",
            FramingError::MissingTypeName => "header type field is missing",
            FramingError::MissingLen => "header 'len' is missing",
            FramingError::Truncated => "payload is shorter than announced",
        }
    }
}

/// The header of a framed message.
#[derive(Debug)]
pub struct MojikaProtocolHeader {
    pub message_type: String,
    pub len: usize,
}

pub ghost struct HeaderView {
    pub message_type: Seq<char>,
    pub len: nat,
}

impl View for MojikaProtocolHeader {
    type V = HeaderView;

    open spec fn view(&self) -> HeaderView {
        HeaderView { message_type: self.message_type@, len: self.len as nat }
    }
}

/// A framed message: its header and its payload.
#[derive(Debug)]
pub struct MojikaProtocol {
    pub header: MojikaProtocolHeader,
    pub content: Vec<u8>,
}

/// The key of the field that names the message type.
pub open spec fn type_key() -> Seq<char> {
    seq!['t', 'y', 'p', 'e', '_', 'n', 'a', 'm', 'e']
}

/// The key of the field that gives the payload's length.
pub open spec fn len_key() -> Seq<char> {
    seq!['l', 'e', 'n']
}

/// The header line for a message of type `message_type` with `len` payload bytes.
pub open spec fn header_text(message_type: Seq<char>, len: nat) -> Seq<char> {
    type_key() + seq!['='] + message_type + seq![','] + len_key() + seq!['='] + decimal(len)
        + seq!['\n']
}

/// The fields read so far from the comma-separated `parts` of a header:
/// the last type and the last `len`, or the first malformed part.
pub open spec fn scan_fields(parts: Seq<Seq<char>>) -> Result<
    (Option<Seq<char>>, Option<nat>),
    FramingError,
>
    decreases parts.len(),
{
    if parts.len() == 0 {
        Ok((None, None))
    } else {
        match scan_fields(parts.drop_last()) {
            Err(e) => Err(e),
            Ok((t, l)) => {
                let kv = split(parts.last(), '=');
                if kv.len() < 2 {
                    Err(FramingError::MissingValue)
                } else if kv[0] == type_key() {
                    Ok((Some(kv[1]), l))
                } else if kv[0] == len_key() {
                    match parse_usize(kv[1]) {
                        Some(n) => Ok((t, Some(n))),
                        None => Err(FramingError::InvalidLen),
                    }
                } else {
                    Ok((t, l))
                }
            },
        }
    }
}

/// The header that a header line denotes. Surrounding white space is ignored,
/// fields are separated by `,`, unknown keys are skipped, and a repeated key
/// keeps its last value.
pub open spec fn parse_header_spec(s: Seq<char>) -> Result<HeaderView, FramingError> {
    match scan_fields(split(trim(s), ',')) {
        Err(e) => Err(e),
        Ok((None, _)) => Err(FramingError::MissingTypeName),
        Ok((Some(_), None)) => Err(FramingError::MissingLen),
        Ok((Some(t), Some(n))) => Ok(HeaderView { message_type: t, len: n }),
    }
}

/// The position of the first newline among the first `n` bytes of `data`.
pub open spec fn first_newline(data: Seq<u8>, n: int) -> Option<int>
    decreases n,
{
    if n <= 0 {
        None
    } else {
        match first_newline(data, n - 1) {
            Some(i) => Some(i),
            None => if data[n - 1] == 10u8 {
                Some(n - 1)
            } else {
                None
            },
        }
    }
}

pub open spec fn header_window(data: Seq<u8>) -> int {
    if data.len() < PROTOCOL_HEADER_MAX_LEN {
        data.len() as int
    } else {
        PROTOCOL_HEADER_MAX_LEN as int
    }
}

/// What a reader makes of the bytes of one direction of a stream: the header,
/// read up to the first newline within the header limit, and the `len` bytes
/// that follow it.
pub open spec fn deframe(data: Seq<u8>) -> Result<(HeaderView, Seq<u8>), FramingError> {
    match first_newline(data, header_window(data)) {
        None => Err(FramingError::Unterminated),
        Some(i) => {
            let line = data.take(i + 1);
            if !valid_utf8(line) {
                Err(FramingError::InvalidUtf8)
            } else {
                match parse_header_spec(decode_utf8(line)) {
                    Err(e) => Err(e),
                    Ok(h) => if data.len() - (i + 1) < h.len {
                        Err(FramingError::Truncated)
                    } else {
                        Ok((h, data.subrange(i + 1, i + 1 + h.len)))
                    },
                }
            }
        },
    }
}

/// The bytes that frame `payload` as a message of type `message_type`.
pub open spec fn framed(message_type: Seq<char>, payload: Seq<u8>) -> Seq<u8> {
    encode_utf8(header_text(message_type, payload.len())) + payload
}

/// Relies on `std::str::from_utf8`: succeeds exactly on well-formed UTF-8, and
/// then the string holds the decoded characters.
#[verifier::external_body]
fn utf8_str(b: &[u8]) -> (r: Option<&str>)
    ensures
        r is Some <==> valid_utf8(b@),
        r matches Some(s) ==> s@ == decode_utf8(b@),
{
    std::str::from_utf8(b).ok()
}

/// The key of the type field.
fn type_key_chars() -> (r: Vec<char>)
    ensures
        r@ == type_key(),
{
    let r = vec!['t', 'y', 'p', 'e', '_', 'n', 'a', 'm', 'e'];
    proof {
        assert(r@ =~= type_key());
    }
    r
}

fn push_chars(s: &mut String, cs: &[char])
    ensures
        final(s)@ == old(s)@ + cs@,
{
    let t = string_of(cs);
    push_str(s, t.as_str());
}

impl MojikaProtocolHeader {
    /// The header line, newline included.
    pub fn serialize(&self) -> (r: String)
        ensures
            r@ == header_text(self.message_type@, self.len as nat),
    {
        let mut r = String::new();
        push_chars(&mut r, type_key_chars().as_slice());
        push_str(&mut r, "=");
        push_str(&mut r, self.message_type.as_str());
        push_str(&mut r, ",len=");
        push_decimal(&mut r, self.len as u64);
        push_str(&mut r, "\n");
        proof {
            reveal_strlit("=");
            reveal_strlit(",len=");
            reveal_strlit("\n");
            assert(r@ =~= header_text(self.message_type@, self.len as nat));
        }
        r
    }
}

/// Reads a header line.
pub fn parse_header(header: &str) -> (r: Result<MojikaProtocolHeader, FramingError>)
    ensures
        match parse_header_spec(header@) {
            Ok(h) => r matches Ok(x) && x@ == h,
            Err(e) => r == Err::<MojikaProtocolHeader, FramingError>(e),
        },
{
    let cs = chars_of(header);
    let t = trim_chars(cs.as_slice());
    let parts = split_chars(t.as_slice(), ',');
    let ghost pv = split(trim(header@), ',');
    let type_key_cs = type_key_chars();
    let len_key_chars = chars_of("len");
    proof {
        reveal_strlit("len");
                assert(len_key_chars@ =~= len_key());
    }
    let mut message_type: Option<Vec<char>> = None;
    let mut len: Option<usize> = None;
    let mut i: usize = 0;
    while i < parts.len()
        invariant
            i <= parts@.len() == pv.len(),
            pv == split(trim(header@), ','),
            forall|k: int| 0 <= k < parts@.len() ==> #[trigger] parts@[k]@ == pv[k],
            type_key_cs@ == type_key(),
            len_key_chars@ == len_key(),
            scan_fields(pv.take(i as int)) matches Ok((tv, lv)) && (match tv {
                Some(x) => message_type matches Some(y) && y@ == x,
                None => message_type is None,
            }) && (match lv {
                Some(x) => len matches Some(y) && y as nat == x,
                None => len is None,
            }),
        decreases parts@.len() - i,
    {
        let kv = split_chars(parts[i].as_slice(), '=');
        proof {
            assert(pv.take(i + 1).drop_last() =~= pv.take(i as int));
            assert(pv.take(i + 1).last() == pv[i as int]);
        }
        if kv.len() < 2 {
            proof {
                lemma_scan_fields_err_sticky(pv, i + 1);
            }
            return Err(FramingError::MissingValue);
        }
        if same_chars(kv[0].as_slice(), type_key_cs.as_slice()) {
            message_type = Some(kv[1].clone());
        } else if same_chars(kv[0].as_slice(), len_key_chars.as_slice()) {
            match parse_usize_chars(kv[1].as_slice()) {
                Some(n) => {
                    len = Some(n);
                },
                None => {
                    proof {
                        lemma_scan_fields_err_sticky(pv, i + 1);
                    }
                    return Err(FramingError::InvalidLen);
                },
            }
        }
        i += 1;
    }
    proof {
        assert(pv.take(pv.len() as int) =~= pv);
    }
    match (message_type, len) {
        (None, _) => Err(FramingError::MissingTypeName),
        (Some(_), None) => Err(FramingError::MissingLen),
        (Some(tn), Some(n)) => Ok(MojikaProtocolHeader { message_type: string_of(tn.as_slice()), len: n }),
    }
}

impl MojikaProtocol {
    /// A message from a header line and its payload.
    pub fn new(header: &str, content: Vec<u8>) -> (r: Result<MojikaProtocol, FramingError>)
        ensures
            match parse_header_spec(header@) {
                Ok(h) => r matches Ok(m) && m.header@ == h && m.content@ == content@,
                Err(e) => r == Err::<MojikaProtocol, FramingError>(e),
            },
    {
        let header = parse_header(header)?;
        Ok(MojikaProtocol { header, content })
    }

    /// Reads one framed message from the bytes of a stream: the header up to
    /// the first newline, which must come within `PROTOCOL_HEADER_MAX_LEN`
    /// bytes, then the `len` payload bytes that it announces. Bytes after
    /// those are not read.
    pub fn from_bytes(data: &[u8]) -> (r: Result<MojikaProtocol, FramingError>)
        ensures
            match deframe(data@) {
                Ok((h, p)) => r matches Ok(m) && m.header@ == h && m.content@ == p,
                Err(e) => r == Err::<MojikaProtocol, FramingError>(e),
            },
    {
        let window: usize = if data.len() < PROTOCOL_HEADER_MAX_LEN {
            data.len()
        } else {
            PROTOCOL_HEADER_MAX_LEN
        };
        let mut i: usize = 0;
        while i < window && data[i] != 10u8
            invariant
                i <= window == header_window(data@) <= data@.len(),
                first_newline(data@, i as int) is None,
            decreases window - i,
        {
            i += 1;
        }
        proof {
            lemma_first_newline_found(data@, i as int, window as int);
        }
        if i == window {
            return Err(FramingError::Unterminated);
        }
        let line = utf8_str(&data[0..i + 1]);
        proof {
            assert(data@.subrange(0, i + 1) =~= data@.take(i + 1));
        }
        let text = match line {
            Some(text) => text,
            None => {
                return Err(FramingError::InvalidUtf8);
            },
        };
        let header = parse_header(text)?;
        let start = i + 1;
        if data.len() - start < header.len {
            return Err(FramingError::Truncated);
        }
        let mut content: Vec<u8> = Vec::new();
        content.extend_from_slice(&data[start..start + header.len]);
        proof {
            assert(content@ =~= data@.subrange(start as int, start + header.len));
        }
        Ok(MojikaProtocol { header, content })
    }
}

/// The bytes of a message of type `message_type` carrying `payload`: the
/// header line, whose `len` is the payload's length, then the payload.
pub fn frame(message_type: &str, payload: &[u8]) -> (r: Vec<u8>)
    ensures
        r@ == framed(message_type@, payload@),
{
    let header = MojikaProtocolHeader { message_type: message_type.to_owned(), len: payload.len() };
    let text = header.serialize();
    let mut r: Vec<u8> = Vec::new();
    r.extend_from_slice(text.as_str().as_bytes());
    r.extend_from_slice(payload);
    proof {
        assert(r@ =~= framed(message_type@, payload@));
    }
    r
}

proof fn lemma_first_newline_found(data: Seq<u8>, i: int, n: int)
    requires
        0 <= i <= n <= data.len(),
        first_newline(data, i) is None,
        i < n ==> data[i] == 10u8,
    ensures
        i < n ==> first_newline(data, n) == Some(i),
        i == n ==> first_newline(data, n) is None,
    decreases n - i,
{
    if i < n {
        lemma_first_newline_stays(data, i + 1, n);
    }
}

proof fn lemma_first_newline_stays(data: Seq<u8>, k: int, n: int)
    requires
        0 <= k <= n <= data.len(),
        first_newline(data, k) is Some,
    ensures
        first_newline(data, n) == first_newline(data, k),
    decreases n - k,
{
    if k < n {
        lemma_first_newline_stays(data, k, n - 1);
    }
}

/// A name that can stand as a message type: ASCII letters, digits and `_`.
pub open spec fn is_type_name(t: Seq<char>) -> bool {
    forall|i: int|
        0 <= i < t.len() ==> {
            let c = #[trigger] t[i];
            ('a' <= c && c <= 'z') || ('A' <= c && c <= 'Z') || ('0' <= c && c <= '9') || c == '_'
        }
}

/// Whether the header line for this type and payload fits the header limit.
pub open spec fn header_fits(message_type: Seq<char>, len: nat) -> bool {
    header_text(message_type, len).len() <= PROTOCOL_HEADER_MAX_LEN
}

/// A header line is read back as the header it was written from.
pub proof fn lemma_parse_header_text(message_type: Seq<char>, len: nat)
    requires
        is_type_name(message_type),
        len <= usize::MAX,
    ensures
        parse_header_spec(header_text(message_type, len)) == Ok::<HeaderView, FramingError>(
            HeaderView { message_type, len },
        ),
{
    let t = message_type;
    let d = decimal(len);
    lemma_decimal_digits(len);
    lemma_parse_decimal(len);
    let x = type_key() + seq!['='] + t;
    let y = len_key() + seq!['='] + d;
    let body = x + seq![','] + y;
    assert(header_text(t, len) =~= body.push('\n'));
    assert(body[0] == 't');
    assert(body.last() == d.last());
    assert(is_digit(d[d.len() - 1]));
    lemma_trim_trailing(body, '\n');
    lemma_split_concat(x, y, ',');
    assert forall|i: int| 0 <= i < x.len() implies x[i] != ',' by {
        if i >= type_key().len() + 1 {
            assert(x[i] == t[i - type_key().len() - 1]);
        }
    }
    assert forall|i: int| 0 <= i < y.len() implies y[i] != ',' by {
        if i >= len_key().len() + 1 {
            assert(y[i] == d[i - len_key().len() - 1]);
            assert(is_digit(d[i - len_key().len() - 1]));
        }
    }
    lemma_split_without_sep(x, ',');
    lemma_split_without_sep(y, ',');
    let parts = split(trim(header_text(t, len)), ',');
    assert(parts =~= seq![x, y]);
    lemma_split_concat(type_key(), t, '=');
    lemma_split_concat(len_key(), d, '=');
    assert forall|i: int| 0 <= i < t.len() implies t[i] != '=' by {
        assert(is_type_name(t));
    }
    assert forall|i: int| 0 <= i < d.len() implies d[i] != '=' by {
        assert(is_digit(d[i]));
    }
    lemma_split_without_sep(t, '=');
    lemma_split_without_sep(d, '=');
    lemma_split_without_sep(type_key(), '=');
    lemma_split_without_sep(len_key(), '=');
    assert(split(x, '=') =~= seq![type_key(), t]);
    assert(split(y, '=') =~= seq![len_key(), d]);
    assert(parts.drop_last() =~= seq![x]);
    assert(seq![x].drop_last() =~= Seq::<Seq<char>>::empty());
    assert(len_key().len() != type_key().len());
    assert(scan_fields(Seq::<Seq<char>>::empty()) == Ok::<(Option<Seq<char>>, Option<nat>), FramingError>((None, None)));
    assert(scan_fields(seq![x]) == Ok::<(Option<Seq<char>>, Option<nat>), FramingError>((Some(t), None)));
    assert(scan_fields(parts) == Ok::<(Option<Seq<char>>, Option<nat>), FramingError>((Some(t), Some(len))));
}

/// Every byte among the first `n` differs from a newline.
proof fn lemma_no_newline(data: Seq<u8>, n: int)
    requires
        0 <= n <= data.len(),
        forall|k: int| 0 <= k < n ==> data[k] != 10u8,
    ensures
        first_newline(data, n) is None,
    decreases n,
{
    if n > 0 {
        lemma_no_newline(data, n - 1);
    }
}

/// Framing, then reading the frame back, gives the same header and payload.
pub proof fn lemma_frame_round_trip(message_type: Seq<char>, payload: Seq<u8>)
    requires
        is_type_name(message_type),
        payload.len() <= usize::MAX,
        header_fits(message_type, payload.len()),
    ensures
        deframe(framed(message_type, payload)) == Ok::<(HeaderView, Seq<u8>), FramingError>(
            (HeaderView { message_type, len: payload.len() }, payload),
        ),
{
    let t = message_type;
    let n = payload.len();
    let h = header_text(t, n);
    let d = decimal(n);
    let data = framed(t, payload);
    lemma_decimal_digits(n);
    assert forall|i: int| 0 <= i < h.len() implies '\0' <= #[trigger] h[i] <= '\u{7f}' && (i < h.len()
        - 1 ==> h[i] != '\n') by {
        let k = type_key().len() + 1;
        let m = k + t.len() + 1 + len_key().len() + 1;
        if k <= i < k + t.len() {
            assert(h[i] == t[i - k]);
            assert(is_type_name(t));
        } else if m <= i < m + d.len() {
            assert(h[i] == d[i - m]);
            assert(is_digit(d[i - m]));
        }
    }
    assert(is_ascii_chars(h));
    is_ascii_chars_encode_utf8(h);
    let e = encode_utf8(h);
    assert forall|k: int| 0 <= k < h.len() - 1 implies data[k] != 10u8 by {
        assert(data[k] == e[k]);
        assert(h[k] as u8 == e[k]);
        assert(h[k] != '\n');
        assert(h[k] <= '\u{7f}');
    }
    assert(data[h.len() - 1] == e[h.len() - 1]);
    assert(h[h.len() - 1] == '\n');
    assert(data[h.len() - 1] == 10u8);
    lemma_no_newline(data, h.len() - 1);
    lemma_first_newline_stays(data, h.len() as int, header_window(data));
    let line = data.take(h.len() as int);
    assert(line =~= e);
    encode_utf8_valid_utf8(h);
    encode_utf8_decode_utf8(h);
    lemma_parse_header_text(t, n);
    assert(data.subrange(h.len() as int, (h.len() + n) as int) =~= payload);
}

/// Once a prefix of the parts is malformed, so is every longer prefix.
proof fn lemma_scan_fields_err_sticky(parts: Seq<Seq<char>>, k: int)
    requires
        0 <= k <= parts.len(),
        scan_fields(parts.take(k)) is Err,
    ensures
        scan_fields(parts) == scan_fields(parts.take(k)),
    decreases parts.len() - k,
{
    if k < parts.len() {
        assert(parts.drop_last().take(k) =~= parts.take(k));
        lemma_scan_fields_err_sticky(parts.drop_last(), k);
    } else {
        assert(parts.take(k) =~= parts);
    }
}

} // verus!
