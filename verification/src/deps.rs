//! Calls into outside crates (rand, md5, urlencoding, serde_json, regex,
//! image), each behind a small wrapper whose contract states what the crate's source shows.
use vstd::prelude::*;
use rand::Rng;
use vstd::string::StringSliceAdditionalSpecFns;

verus! {

/// Bytes that percent-encoding leaves as they are: ASCII letters, digits
/// and `-`, `.`, `_`, `~`.
pub open spec fn is_unreserved(b: u8) -> bool {
    ||| 0x30 <= b <= 0x39
    ||| 0x41 <= b <= 0x5A
    ||| 0x61 <= b <= 0x7A
    ||| b == 0x2D
    ||| b == 0x2E
    ||| b == 0x5F
    ||| b == 0x7E
}

/// Uppercase hexadecimal digit for a nibble.
pub open spec fn hex_upper(d: u8) -> char {
    if d < 10 {
        (0x30 + d) as char
    } else {
        (0x41 + d - 10) as char
    }
}

/// Percent-encoding of a byte string: unreserved bytes are kept, every
/// other byte becomes `%` followed by two uppercase hex digits.
pub open spec fn percent_encode(bytes: Seq<u8>) -> Seq<char>
    decreases bytes.len(),
{
    if bytes.len() == 0 {
        Seq::empty()
    } else {
        let b = bytes[0];
        let head = if is_unreserved(b) {
            seq![b as char]
        } else {
            seq!['%', hex_upper(b / 16), hex_upper(b % 16)]
        };
        head + percent_encode(bytes.drop_first())
    }
}

/// Lowercase hexadecimal digits.
pub open spec fn is_lower_hex(c: char) -> bool {
    let u = c as u32;
    (0x30 <= u <= 0x39) || (0x61 <= u <= 0x66)
}

/// What `format!("{:x}", md5::compute(bytes))` gives for a byte string.
pub uninterp spec fn md5_hex_of(bytes: Seq<u8>) -> Seq<char>;

/// A uniformly drawn index below `n`, from rand's `thread_rng().gen_range(0..n)`.
/// The contract claims only that the index is below `n` (the draw itself
/// is random); `gen_range` panics on an empty range, which `n > 0` excludes.
#[verifier::external_body]
pub(crate) fn random_below(n: usize) -> (i: usize)
    requires
        n > 0,
    ensures
        i < n,
{
    rand::thread_rng().gen_range(0..n)
}

/// MD5 digest of the UTF-8 bytes of `text` in lowercase hex
/// (`md5::compute` formatted with `{:x}`). The contract names the digest and
/// states what the crate's `LowerHex` impl writes: two lowercase hex digits
/// per byte of the 16-byte digest.
#[verifier::external_body]
pub(crate) fn md5_hex(text: &str) -> (h: String)
    ensures
        h@ == md5_hex_of(text.spec_bytes()),
        h@.len() == 32,
        forall|i: int| 0 <= i < 32 ==> is_lower_hex(#[trigger] h@[i]),
{
    format!("{:x}", md5::compute(text))
}

/// `urlencoding::encode`: percent-encodes every byte of the UTF-8 text except
/// ASCII alphanumerics and `-`, `_`, `.`, `~`, with uppercase hex digits
/// (as the crate's `encode_into` and `to_hex_digit` write them).
#[verifier::external_body]
pub(crate) fn url_encode(s: &str) -> (r: String)
    ensures
        r@ == percent_encode(s.spec_bytes()),
{
    urlencoding::encode(s).into_owned()
}


/// What `serde_json::from_str::<Value>(body)` followed by
/// `Value::pointer(pointer)` and `Value::as_str` gives: the string found at
/// that JSON pointer, or nothing (unparsable body, missing value, not a string).
pub uninterp spec fn json_pointer_str_of(body: Seq<char>, pointer: Seq<char>) -> Option<Seq<char>>;

/// As [`json_pointer_str_of`], with `Value::as_bool`.
pub uninterp spec fn json_pointer_bool_of(body: Seq<char>, pointer: Seq<char>) -> Option<bool>;

/// Parses `body` with serde_json and reads the string at a JSON pointer
/// (`serde_json::Value::pointer`, then `as_str`). The contract only names
/// the result; the JSON grammar is serde_json's.
#[verifier::external_body]
pub(crate) fn json_pointer_str(body: &str, pointer: &str) -> (r: Option<String>)
    ensures
        match r {
            Some(v) => json_pointer_str_of(body@, pointer@) == Some(v@),
            None => json_pointer_str_of(body@, pointer@) is None,
        },
{
    let v: serde_json::Value = match serde_json::from_str(body) {
        Ok(v) => v,
        Err(_) => return None,
    };
    match v.pointer(pointer) {
        Some(x) => match x.as_str() {
            Some(t) => Some(t.to_string()),
            None => None,
        },
        None => None,
    }
}

/// Parses `body` with serde_json and reads the boolean at a JSON pointer
/// (`Value::pointer`, then `as_bool`); the contract only names the result.
#[verifier::external_body]
pub(crate) fn json_pointer_bool(body: &str, pointer: &str) -> (r: Option<bool>)
    ensures
        r == json_pointer_bool_of(body@, pointer@),
{
    let v: serde_json::Value = match serde_json::from_str(body) {
        Ok(v) => v,
        Err(_) => return None,
    };
    match v.pointer(pointer) {
        Some(x) => x.as_bool(),
        None => None,
    }
}

/// What `serde_json::from_str::<Value>(body)` followed by
/// `Value::pointer(pointer)` and `Value::as_array` gives, by its length:
/// nothing for an unparsable body, a missing value or a non-array.
pub uninterp spec fn json_array_len_of(body: Seq<char>, pointer: Seq<char>) -> Option<nat>;

/// Parses `body` with serde_json and reads the length of the array at a
/// JSON pointer (`Value::pointer`, `as_array`, `Vec::len`); the contract
/// only names the result.
#[verifier::external_body]
pub(crate) fn json_array_len(body: &str, pointer: &str) -> (r: Option<usize>)
    ensures
        match r {
            Some(n) => json_array_len_of(body@, pointer@) == Some(n as nat),
            None => json_array_len_of(body@, pointer@) is None,
        },
{
    let v: serde_json::Value = match serde_json::from_str(body) {
        Ok(v) => v,
        Err(_) => return None,
    };
    match v.pointer(pointer) {
        Some(x) => match x.as_array() {
            Some(a) => Some(a.len()),
            None => None,
        },
        None => None,
    }
}

/// What `Regex::new(pattern)` and `captures_iter(haystack)` give for
/// capture group 1 of each match, in order: `None` where the group did not
/// take part in the match (no match at all for an invalid pattern).
pub uninterp spec fn regex_captures_of(pattern: Seq<char>, haystack: Seq<char>) -> Seq<Option<Seq<char>>>;

/// An optional string taken by its view.
pub open spec fn opt_string_view(o: Option<String>) -> Option<Seq<char>> {
    match o {
        Some(s) => Some(s@),
        None => None,
    }
}

/// Capture group 1 of every match of a regex (regex crate's `Regex::new`,
/// `captures_iter` and `Captures::get(1)`), one entry per match, in order.
/// The contract names the result; the regex semantics are the crate's.
#[verifier::external_body]
pub(crate) fn regex_captures(pattern: &str, haystack: &str) -> (r: Vec<Option<String>>)
    ensures
        r@.len() == regex_captures_of(pattern@, haystack@).len(),
        forall|i: int| 0 <= i < r@.len() ==> opt_string_view(#[trigger] r@[i]) == regex_captures_of(pattern@, haystack@)[i],
{
    let re = match regex::Regex::new(pattern) {
        Ok(re) => re,
        Err(_) => return Vec::new(),
    };
    let mut out = Vec::new();
    for c in re.captures_iter(haystack) {
        out.push(match c.get(1) {
            Some(m) => Some(m.as_str().to_string()),
            None => None,
        });
    }
    out
}

/// A uniformly drawn integer in `min..=max`, from rand's
/// `thread_rng().gen_range(min..=max)`. The contract claims only the range;
/// `gen_range` panics on an empty range, which `min <= max` excludes.
#[verifier::external_body]
pub(crate) fn random_in_range(min: u64, max: u64) -> (r: u64)
    requires
        min <= max,
    ensures
        min <= r <= max,
{
    rand::thread_rng().gen_range(min..=max)
}

/// What `image::load_from_memory(bytes)` decodes, read for its pixel size:
/// `(width, height)` of a decodable image, nothing otherwise.
pub uninterp spec fn image_dimensions_of(bytes: Seq<u8>) -> Option<(u32, u32)>;

/// Decode an image with the image crate (`load_from_memory`, format guessed
/// from the bytes) and report its width and height. The contract names the
/// result; the decoders are the crate's.
#[verifier::external_body]
pub(crate) fn image_dimensions(bytes: &[u8]) -> (r: Option<(u32, u32)>)
    ensures
        r == image_dimensions_of(bytes@),
{
    match image::load_from_memory(bytes) {
        Ok(img) => Some((img.width(), img.height())),
        Err(_) => None,
    }
}
} // verus!
