use vstd::prelude::*;
use vstd::string::StringExecFns;
use vstd::utf8::encode_utf8;

verus! {

/// Bytes that percent-encoding leaves as they are: ASCII letters and
/// digits, `-`, `.`, `_` and `~`.
pub open spec fn is_unreserved(b: u8) -> bool {
    (48 <= b <= 57) || (65 <= b <= 90) || (97 <= b <= 122) || b == 45 || b == 46 || b == 95 || b == 126
}

/// The upper-case hexadecimal digit of a value below 16.
pub open spec fn hex_digit(d: u8) -> char {
    if d < 10 {
        (d + 48) as char
    } else {
        (d + 55) as char
    }
}

/// One byte, percent-encoded.
pub open spec fn escape_byte(b: u8) -> Seq<char> {
    if is_unreserved(b) {
        seq![b as char]
    } else {
        seq!['%', hex_digit(b / 16), hex_digit(b % 16)]
    }
}

/// Percent-encoding of a byte string, byte by byte.
pub open spec fn percent_encoded(b: Seq<u8>) -> Seq<char>
    decreases b.len(),
{
    if b.len() == 0 {
        Seq::empty()
    } else {
        escape_byte(b[0]) + percent_encoded(b.drop_first())
    }
}

/// Relies on `urlencoding::encode`: every byte of the UTF-8 form of `s`
/// except ASCII letters, digits, `-`, `.`, `_` and `~` becomes `%` and two
/// upper-case hexadecimal digits; those stay as they are.
#[verifier::external_body]
fn url_encode(s: &str) -> (r: String)
    ensures
        r@ == percent_encoded(encode_utf8(s@)),
{
    urlencoding::encode(s).into_owned()
}

/// The address of the request for the packages that match `query`.
pub fn search_url(query: &str) -> (r: String)
    ensures
        r@ == "https://aur.archlinux.org/rpc?v=5&type=search&arg="@ + percent_encoded(encode_utf8(query@)),
{
    let encoded = url_encode(query);
    let mut r = String::from_str("https://aur.archlinux.org/rpc?v=5&type=search&arg=");
    r.append(encoded.as_str());
    r
}

/// The address of the request for the details of the package `name`.
pub fn info_url(name: &str) -> (r: String)
    ensures
        r@ == "https://aur.archlinux.org/rpc?v=5&type=info&arg="@ + percent_encoded(encode_utf8(name@)),
{
    let encoded = url_encode(name);
    let mut r = String::from_str("https://aur.archlinux.org/rpc?v=5&type=info&arg=");
    r.append(encoded.as_str());
    r
}

/// The address of the request that lists packages for the first load.
pub fn recent_url() -> (r: String)
    ensures
        r@ == "https://aur.archlinux.org/rpc?v=5&type=search&by=name&arg="@,
{
    String::from_str("https://aur.archlinux.org/rpc?v=5&type=search&by=name&arg=")
}

} // verus!
