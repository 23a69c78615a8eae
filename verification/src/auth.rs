use vstd::prelude::*;
use vstd::utf8::{encode_utf8, encode_utf8_decode_utf8};

use hmac::{Hmac, Mac};
use sha2::Sha256;
use subtle::ConstantTimeEq;

use crate::text::{append, chars_of, concat, string_from_chars};

verus! {

/// HMAC-SHA256 of `message` under `key`, as computed by the `hmac` and `sha2` crates.
pub uninterp spec fn spec_hmac_sha256(key: Seq<u8>, message: Seq<u8>) -> Seq<u8>;

/// The lower-case hexadecimal digit for `n` (0 to 15).
pub open spec fn hex_digit(n: u8) -> char {
    if n < 10 { ((48 + n) as u8) as char } else { ((87 + n) as u8) as char }
}

/// Lower-case hexadecimal text of bytes: two digits per byte, the high half first.
pub open spec fn spec_hex_lower(data: Seq<u8>) -> Seq<char>
    decreases data.len(),
{
    if data.len() == 0 {
        Seq::empty()
    } else {
        spec_hex_lower(data.drop_last()) + seq![hex_digit(data.last() / 16), hex_digit(data.last() % 16)]
    }
}

/// `Hmac::<Sha256>::new_from_slice`, `Mac::update` and `Mac::finalize`: the 32-byte
/// HMAC-SHA256 tag of `message` under `key`. The `hmac` crate accepts keys of any length
/// (longer ones are hashed first), so the construction does not fail. What the tag is, is
/// left to the name `spec_hmac_sha256`.
#[verifier::external_body]
fn hmac_sha256(key: &[u8], message: &[u8]) -> (r: Vec<u8>)
    ensures
        r@ == spec_hmac_sha256(key@, message@),
        r@.len() == 32,
{
    let mut mac = Hmac::<Sha256>::new_from_slice(key).expect("HMAC can take key of any size");
    mac.update(message);
    mac.finalize().into_bytes().to_vec()
}

/// `hex::encode`: each byte becomes two lower-case hexadecimal digits, high half first.
#[verifier::external_body]
pub(crate) fn hex_encode(data: &[u8]) -> (r: String)
    ensures
        r@ == spec_hex_lower(data@),
{
    hex::encode(data)
}

/// `subtle::ConstantTimeEq::ct_eq` on byte slices, turned into a `bool`: true exactly when
/// both slices have the same length and the same bytes.
#[verifier::external_body]
fn ct_eq_bytes(a: &[u8], b: &[u8]) -> (r: bool)
    ensures
        r == (a@ == b@),
{
    a.ct_eq(b).into()
}

/// The hex-encoded HMAC-SHA256 signature of a message under a secret, both taken as UTF-8.
pub open spec fn spec_sign(secret: Seq<char>, message: Seq<char>) -> Seq<char> {
    spec_hex_lower(spec_hmac_sha256(encode_utf8(secret), encode_utf8(message)))
}

/// The text that a channel subscription signs: `socket_id:channel`, followed by
/// `:channel_data` when there is channel data.
pub open spec fn channel_auth_message(socket_id: Seq<char>, channel: Seq<char>, channel_data: Option<Seq<char>>) -> Seq<char> {
    match channel_data {
        Some(d) => socket_id + ":"@ + channel + ":"@ + d,
        None => socket_id + ":"@ + channel,
    }
}

/// The text that a user signin signs: `socket_id::user::user_data`.
pub open spec fn signin_auth_message(socket_id: Seq<char>, user_data: Seq<char>) -> Seq<char> {
    socket_id + "::user::"@ + user_data
}

/// An auth token is accepted when it is exactly `app_key:signature` with the expected
/// signature of the message.
pub open spec fn auth_token_valid(app_key: Seq<char>, app_secret: Seq<char>, message: Seq<char>, auth: Seq<char>) -> bool {
    auth == app_key + ":"@ + spec_sign(app_secret, message)
}

/// The text that an HTTP API request signs: `METHOD\npath\nquery`.
pub open spec fn http_request_message(method: Seq<char>, path: Seq<char>, query: Seq<char>) -> Seq<char> {
    method + "\n"@ + path + "\n"@ + query
}

/// Sign a message with HMAC-SHA256 and return the hex-encoded signature.
pub fn sign(secret: &str, message: &str) -> (r: String)
    ensures
        r@ == spec_sign(secret@, message@),
        r@.len() == 64,
{
    let tag = hmac_sha256(secret.as_bytes(), message.as_bytes());
    let r = hex_encode(tag.as_slice());
    proof {
        lemma_hex_len(tag@);
    }
    r
}

/// Hexadecimal text has two characters per byte.
pub proof fn lemma_hex_len(data: Seq<u8>)
    ensures
        spec_hex_lower(data).len() == 2 * data.len(),
    decreases data.len(),
{
    if data.len() > 0 {
        lemma_hex_len(data.drop_last());
    }
}

/// Hexadecimal text consists of the digits 0-9 and a-f only.
pub proof fn lemma_hex_digits(data: Seq<u8>)
    ensures
        forall|i: int| 0 <= i < spec_hex_lower(data).len() ==> {
            let c = #[trigger] spec_hex_lower(data)[i];
            ('0' <= c <= '9') || ('a' <= c <= 'f')
        },
    decreases data.len(),
{
    if data.len() > 0 {
        lemma_hex_digits(data.drop_last());
        lemma_hex_len(data.drop_last());
        let d = data.last();
        assert(d / 16 < 16 && d % 16 < 16);
    }
}

/// Constant-time comparison of two byte strings.
fn constant_time_eq(a: &[u8], b: &[u8]) -> (r: bool)
    ensures
        r == (a@ == b@),
{
    if a.len() != b.len() {
        return false;
    }
    ct_eq_bytes(a, b)
}

/// Texts with equal UTF-8 encodings are equal.
proof fn lemma_encode_injective(a: Seq<char>, b: Seq<char>)
    requires
        encode_utf8(a) == encode_utf8(b),
    ensures
        a == b,
{
    encode_utf8_decode_utf8(a);
    encode_utf8_decode_utf8(b);
}

/// Check an `app_key:signature` token against the expected signature of `message`.
fn check_auth_token(app_key: &str, app_secret: &str, message: &str, auth: &str) -> (r: bool)
    ensures
        r == auth_token_valid(app_key@, app_secret@, message@, auth@),
{
    let auth_chars = chars_of(auth);
    let key_chars = chars_of(app_key);
    assert(auth_chars@.skip(0) =~= auth_chars@);
    let colon = chars_of(":");
    proof {
        reveal_strlit(":");
    }
    assert(colon@.len() == 1);
    let expected = sign(app_secret, message);
    let ghost want = app_key@ + ":"@ + spec_sign(app_secret@, message@);
    if !crate::text::chars_match_at(&auth_chars, 0, &key_chars) {
        assert(!auth_token_valid(app_key@, app_secret@, message@, auth@)) by {
            if auth@ == want {
                assert(auth@.subrange(0, app_key@.len() as int) =~= app_key@);
            }
        }
        return false;
    }
    let k = key_chars.len();
    if !crate::text::chars_match_at(&auth_chars, k, &colon) {
        assert(!auth_token_valid(app_key@, app_secret@, message@, auth@)) by {
            if auth@ == want {
                assert(auth@.skip(k as int).subrange(0, 1) =~= ":"@);
            }
        }
        return false;
    }
    assert(auth_chars@.skip(k as int).len() == auth_chars@.len() - k);
    assert(k + 1 <= auth_chars@.len());
    let n = auth_chars.len();
    assert(k < n);
    let signature = string_from_chars(&auth_chars, k + 1);
    let eq = constant_time_eq(signature.as_str().as_bytes(), expected.as_str().as_bytes());
    proof {
        assert(auth@ =~= app_key@ + ":"@ + signature@) by {
            assert(auth@.subrange(0, k as int) =~= app_key@);
            assert(auth@.skip(k as int).subrange(0, 1) =~= ":"@);
            assert(auth@ =~= auth@.subrange(0, k as int) + auth@.skip(k as int).subrange(0, 1) + auth@.skip(k + 1));
        }
        if eq {
            lemma_encode_injective(signature@, expected@);
        }
        if auth@ == want {
            assert((app_key@ + ":"@).len() == k + 1);
            assert(signature@ =~= want.skip(k + 1));
            assert(want.skip(k + 1) =~= spec_sign(app_secret@, message@));
        }
    }
    eq
}

/// Verify a channel subscription auth token of the form `"{app_key}:{signature}"`.
/// The signed string is `"{socket_id}:{channel}"`, or `"{socket_id}:{channel}:{channel_data}"`
/// when channel data is given (presence channels).
pub fn verify_channel_auth(
    app_key: &str,
    app_secret: &str,
    socket_id: &str,
    channel: &str,
    channel_data: Option<&str>,
    auth: &str,
) -> (r: bool)
    ensures
        r == auth_token_valid(
            app_key@,
            app_secret@,
            channel_auth_message(socket_id@, channel@, crate::websocket::opt_view(channel_data)),
            auth@,
        ),
{
    let mut message = concat(socket_id, ":");
    append(&mut message, channel);
    match channel_data {
        Some(data) => {
            append(&mut message, ":");
            append(&mut message, data);
        },
        None => {},
    }
    check_auth_token(app_key, app_secret, message.as_str(), auth)
}

/// Verify a user signin auth token of the form `"{app_key}:{signature}"`.
/// The signed string is `"{socket_id}::user::{user_data}"`.
pub fn verify_signin_auth(
    app_key: &str,
    app_secret: &str,
    socket_id: &str,
    user_data: &str,
    auth: &str,
) -> (r: bool)
    ensures
        r == auth_token_valid(app_key@, app_secret@, signin_auth_message(socket_id@, user_data@), auth@),
{
    let mut message = concat(socket_id, "::user::");
    append(&mut message, user_data);
    check_auth_token(app_key, app_secret, message.as_str(), auth)
}

/// Sign an HTTP API request using Pusher's signature scheme.
pub fn sign_http_request(secret: &str, method: &str, path: &str, query_params: &str) -> (r: String)
    ensures
        r@ == spec_sign(secret@, http_request_message(method@, path@, query_params@)),
        r@.len() == 64,
{
    let mut message = concat(method, "\n");
    append(&mut message, path);
    append(&mut message, "\n");
    append(&mut message, query_params);
    sign(secret, message.as_str())
}

} // verus!
