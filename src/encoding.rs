use vstd::prelude::*;
use vstd::utf8::{valid_utf8, decode_utf8};

verus! {

/// Text encodings of delimited input.
#[derive(Debug, Clone, Copy, PartialEq, Eq, Structural)]
pub enum TextEncoding {
    Utf8,
    /// Latin-1 as the web reads it (windows-1252).
    Latin1,
}

/// What decoding `bytes` under `encoding` gives, malformed sequences
/// replaced.
pub uninterp spec fn decoded_with(encoding: TextEncoding, bytes: Seq<u8>) -> Seq<char>;

pub open spec fn is_ascii_bytes(b: Seq<u8>) -> bool {
    forall|i: int| 0 <= i < b.len() ==> b[i] < 0x80
}

pub open spec fn ascii_chars(b: Seq<u8>) -> Seq<char> {
    b.map_values(|x: u8| x as char)
}

/// Relies on `encoding_rs::Encoding::decode_without_bom_handling` (UTF_8 or
/// WINDOWS_1252): the decoded text, and whether a malformed sequence was
/// replaced. Valid UTF-8 under UTF-8 comes back as itself with no error, and
/// invalid UTF-8 is an error; windows-1252 maps every byte, so it never
/// reports an error, and ASCII under it comes back as itself.
#[verifier::external_body]
fn decode_bytes(bytes: &[u8], encoding: TextEncoding) -> (r: (String, bool))
    ensures
        r.0@ == decoded_with(encoding, bytes@),
        encoding is Utf8 ==> (r.1 <==> !valid_utf8(bytes@)),
        encoding is Utf8 && valid_utf8(bytes@) ==> r.0@ == decode_utf8(bytes@),
        encoding is Latin1 ==> !r.1,
        encoding is Latin1 && is_ascii_bytes(bytes@) ==> r.0@ == ascii_chars(bytes@),
{
    let e = match encoding {
        TextEncoding::Utf8 => encoding_rs::UTF_8,
        TextEncoding::Latin1 => encoding_rs::WINDOWS_1252,
    };
    let (text, had_errors) = e.decode_without_bom_handling(bytes);
    (text.into_owned(), had_errors)
}

pub open spec fn starts_with_bom(b: Seq<u8>) -> bool {
    b.len() >= 3 && b[0] == 0xEF && b[1] == 0xBB && b[2] == 0xBF
}

/// The bytes with a leading UTF-8 byte order mark removed.
pub open spec fn without_bom(b: Seq<u8>) -> Seq<u8> {
    if starts_with_bom(b) {
        b.subrange(3, b.len() as int)
    } else {
        b
    }
}

/// Decodes one field. The byte order mark is stripped where `strip_bom` is
/// set (the first field of the first record); undecodable bytes are an
/// encoding error.
pub fn decode_field(field: &[u8], encoding: TextEncoding, strip_bom: bool) -> (r: Result<
    String,
    crate::error::MawError,
>)
    ensures
        ({
            let b = if strip_bom {
                without_bom(field@)
            } else {
                field@
            };
            &&& encoding is Utf8 ==> (r is Ok <==> valid_utf8(b))
            &&& encoding is Utf8 && valid_utf8(b) ==> r->Ok_0@ == decode_utf8(b)
            &&& encoding is Latin1 ==> r is Ok
            &&& encoding is Latin1 && is_ascii_bytes(b) ==> r->Ok_0@ == ascii_chars(b)
            &&& r is Ok ==> r->Ok_0@ == decoded_with(encoding, b)
            &&& r is Err ==> r->Err_0 is Encoding
        }),
{
    let body: &[u8] = if strip_bom && field.len() >= 3 && field[0] == 0xEF && field[1] == 0xBB
        && field[2] == 0xBF {
        let (_, rest) = field.split_at(3);
        rest
    } else {
        field
    };
    let (text, had_errors) = decode_bytes(body, encoding);
    if had_errors {
        Err(crate::error::MawError::Encoding(String::from_str("undecodable bytes in field")))
    } else {
        Ok(text)
    }
}

fn lower_matches(a: char, lower: char) -> (r: bool)
    ensures
        r == (a == lower || ('a' <= lower && lower <= 'z' && (a as u32) + 32 == (lower as u32))),
{
    a == lower || ('a' <= lower && lower <= 'z' && (a as u32) + 32 == (lower as u32))
}

/// Equal ignoring ASCII case, with `lower` written in lower case.
pub open spec fn eq_ignore_case(a: Seq<char>, lower: Seq<char>) -> bool {
    a.len() == lower.len() && forall|i: int|
        0 <= i < a.len() ==> (a[i] == lower[i] || ('a' <= lower[i] && lower[i] <= 'z' && (
        a[i] as u32) + 32 == (lower[i] as u32)))
}

fn eq_ignore_case_exec(a: &str, lower: &str) -> (r: bool)
    ensures
        r == eq_ignore_case(a@, lower@),
{
    let n = a.unicode_len();
    if n != lower.unicode_len() {
        return false;
    }
    let mut i: usize = 0;
    while i < n
        invariant
            i <= n == a@.len() == lower@.len(),
            forall|k: int|
                0 <= k < i ==> (a@[k] == lower@[k] || ('a' <= lower@[k] && lower@[k] <= 'z' && (
                a@[k] as u32) + 32 == (lower@[k] as u32))),
        decreases n - i,
    {
        if !lower_matches(a.get_char(i), lower.get_char(i)) {
            return false;
        }
        i += 1;
    }
    true
}

/// The encoding an option names: `latin1` or `iso-8859-1` for Latin-1, in
/// any case; everything else reads as UTF-8.
pub fn encoding_from_label(label: &str) -> (r: TextEncoding)
    ensures
        r == if eq_ignore_case(label@, "latin1"@) || eq_ignore_case(label@, "iso-8859-1"@) {
            TextEncoding::Latin1
        } else {
            TextEncoding::Utf8
        },
{
    if eq_ignore_case_exec(label, "latin1") || eq_ignore_case_exec(label, "iso-8859-1") {
        TextEncoding::Latin1
    } else {
        TextEncoding::Utf8
    }
}

} // verus!
