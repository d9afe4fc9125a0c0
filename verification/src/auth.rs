//! Who may see what: Basic credentials and download tokens.

use crate::codec::{self, base64_decode, hex_encode, hmac_sha256_of, text_from_utf8};
use crate::numbers::{self, decimal_text, parse_u64};
use crate::query::{self, Query};
use crate::text::{self, same_text, split_once, strip_prefix, Text};
use vstd::prelude::*;
use vstd::utf8::*;

verus! {

/// How long a download token lives, in milliseconds: three days.
pub const TOKEN_TTL_MILLIS: u64 = 259_200_000;

/// The name and the password of the one user.
pub struct Credentials {
    pub username: String,
    pub password: String,
}

/// The name and the password of the one user.
pub struct CredentialsView {
    pub username: Text,
    pub password: Text,
}

impl View for Credentials {
    type V = CredentialsView;

    open spec fn view(&self) -> CredentialsView {
        CredentialsView { username: self.username@, password: self.password@ }
    }
}

// ---------------------------------------------------------------------------
// What tokens and credentials mean
// ---------------------------------------------------------------------------

/// The user's name and password with a colon between them.
pub open spec fn user_and_password(user: CredentialsView) -> Text {
    user.username.push(':') + user.password
}

/// The code over `message` that only the holder of the credentials can write, in hexadecimal.
pub open spec fn signed(message: Text, user: CredentialsView) -> Text {
    codec::lower_hex(
        codec::hmac_sha256(encode_utf8(user_and_password(user)), encode_utf8(message)),
    )
}

/// The signature of a download token: over the key and the time at which it expires.
pub open spec fn token_code(key: Text, expiry: nat, user: CredentialsView) -> Text {
    signed(key.push('\n') + numbers::decimal(expiry), user)
}

/// The download token for `key` that expires at `expiry`.
pub open spec fn token_text(key: Text, expiry: nat, user: CredentialsView) -> Text {
    numbers::decimal(expiry).push('.') + token_code(key, expiry, user)
}

/// The time of expiry and the signature in a download token.
pub open spec fn token_parts(token: Text) -> Option<(nat, Text)> {
    match text::split_once_at(token, '.') {
        Some((expiry, signature)) => match numbers::parsed(expiry, u64::MAX as nat) {
            Some(millis) => Some((millis, signature)),
            None => None,
        },
        None => None,
    }
}

/// `token` opens `key` at the time `now`: it has not expired, and its signature is the one for
/// this key, this time of expiry and these credentials.
pub open spec fn token_opens(token: Text, key: Text, user: CredentialsView, now: nat) -> bool {
    token_parts(token) matches Some((expiry, signature)) && now <= expiry && signature
        == token_code(key, expiry, user)
}

/// The `Authorization` header with which the user is let in.
pub open spec fn basic_header(user: CredentialsView) -> Text {
    "Basic "@ + codec::standard_base64(encode_utf8(user_and_password(user)))
}

/// The header names the user and the password. A user name with a colon in it is never matched,
/// since the name ends at the first colon.
pub open spec fn basic_accepts(header: Text, user: CredentialsView) -> bool {
    header == basic_header(user) && !user.username.contains(':')
}

/// The request is let in: it reads, with a token for the key, or it carries the credentials.
pub open spec fn is_authenticated(
    authorization: Option<Text>,
    user: CredentialsView,
    key: Text,
    method: Text,
    params: Seq<(Text, Text)>,
    now: nat,
) -> bool {
    ||| (method == "GET"@ || method == "HEAD"@) && (query::lookup(params, "token"@) matches Some(
        token,
    ) && token_opens(token, key, user, now))
    ||| authorization matches Some(header) && basic_accepts(header, user)
}

// ---------------------------------------------------------------------------
// The functions
// ---------------------------------------------------------------------------

/// Whether two byte strings are the same. The time taken depends on their lengths alone.
pub fn constant_time_eq(left: &[u8], right: &[u8]) -> (r: bool)
    ensures
        r == (left@ == right@),
{
    let max_len = if left.len() < right.len() {
        right.len()
    } else {
        left.len()
    };
    let (m, n) = (left.len(), right.len());
    let mut difference: usize = m ^ n;
    assert(m ^ n == 0 <==> m == n) by (bit_vector);
    let mut index: usize = 0;
    while index < max_len
        invariant
            index <= max_len,
            max_len >= left@.len(),
            max_len >= right@.len(),
            max_len == left@.len() || max_len == right@.len(),
            difference == 0 <==> left@.len() == right@.len() && forall|j: int|
                0 <= j < index ==> left@[j] == right@[j],
        decreases max_len - index,
    {
        let a: u8 = if index < left.len() {
            left[index]
        } else {
            0
        };
        let b: u8 = if index < right.len() {
            right[index]
        } else {
            0
        };
        let before = difference;
        let bits: u8 = a ^ b;
        difference = before | (bits as usize);
        assert(bits == 0 <==> a == b) by (bit_vector)
            requires
                bits == a ^ b,
        ;
        let wide = bits as usize;
        assert(before | wide == 0 <==> before == 0 && wide == 0) by (bit_vector);
        index += 1;
    }
    assert(difference == 0 ==> left@ =~= right@);
    difference == 0
}

/// Whether two strings are the same, in time that depends on their lengths alone.
pub fn constant_time_same(left: &str, right: &str) -> (r: bool)
    ensures
        r == (left@ == right@),
{
    proof {
        text::lemma_same_bytes_same_text(left@, right@);
    }
    constant_time_eq(left.as_bytes(), right.as_bytes())
}

/// The code over `message` that only the holder of the credentials can write.
pub fn sign(message: &str, user: &Credentials) -> (r: String)
    ensures
        r@ == signed(message@, user@),
{
    let mut key = user.username.clone();
    key.push(':');
    key.append(user.password.as_str());
    let code = hmac_sha256_of(key.as_str().as_bytes(), message.as_bytes());
    hex_encode(code.as_slice())
}

/// The signature of the download token for `key` that expires at `expiry`.
pub fn token_signature(key: &str, expiry: u64, user: &Credentials) -> (r: String)
    ensures
        r@ == token_code(key@, expiry as nat, user@),
{
    let mut message = key.to_owned();
    message.push('\n');
    message.append(decimal_text(expiry).as_str());
    sign(message.as_str(), user)
}

/// A token of a time of expiry and a signature.
pub fn compose_token(expiry: u64, signature: &str) -> (r: String)
    ensures
        r@ == numbers::decimal(expiry as nat).push('.') + signature@,
{
    let mut token = decimal_text(expiry);
    token.push('.');
    token.append(signature);
    token
}

/// The time of expiry and the signature in a token; see `token_parts`.
pub fn read_token(token: &str) -> (r: Option<(u64, String)>)
    ensures
        match token_parts(token@) {
            Some((expiry, signature)) => r matches Some(parts) && parts.0 == expiry && parts.1@
                == signature,
            None => r is None,
        },
{
    match split_once(token, '.') {
        Some((expiry, signature)) => match parse_u64(expiry.as_str()) {
            Some(millis) => Some((millis, signature)),
            None => None,
        },
        None => None,
    }
}

/// A fresh download token for `key`.
pub fn download_token(key: &str, user: &Credentials, now: u64) -> (r: String)
    requires
        now + TOKEN_TTL_MILLIS <= u64::MAX,
    ensures
        r@ == token_text(key@, (now + TOKEN_TTL_MILLIS) as nat, user@),
{
    let expiry = now + TOKEN_TTL_MILLIS;
    compose_token(expiry, token_signature(key, expiry, user).as_str())
}

/// Whether `token` opens `key` at the time `now`.
pub fn verify_download_token(token: &str, key: &str, user: &Credentials, now: u64) -> (r: bool)
    ensures
        r == token_opens(token@, key@, user@, now as nat),
{
    match read_token(token) {
        Some((expiry, signature)) => {
            if expiry < now {
                return false;
            }
            let expected = token_signature(key, expiry, user);
            constant_time_same(signature.as_str(), expected.as_str())
        },
        None => false,
    }
}

/// Whether an `Authorization` header names the user and the password.
pub fn verify_basic(header: &str, user: &Credentials) -> (r: bool)
    ensures
        r == basic_accepts(header@, user@),
{
    let ghost whole = user_and_password(user@);
    let ghost right = codec::standard_base64(encode_utf8(whole));
    let ghost scheme = "Basic "@;
    proof {
        assert((scheme + right).subrange(0, scheme.len() as int) =~= scheme);
        assert((scheme + right).skip(scheme.len() as int) =~= right);
        encode_utf8_valid_utf8(whole);
        encode_utf8_decode_utf8(whole);
    }
    let encoded = match strip_prefix(header, "Basic ") {
        Some(encoded) => encoded,
        None => return false,
    };
    assert(header@ =~= scheme + encoded@) by {
        assert(header@ =~= header@.subrange(0, scheme.len() as int) + header@.skip(
            scheme.len() as int,
        ));
    }
    let bytes = match base64_decode(encoded.as_str()) {
        Some(bytes) => bytes,
        None => return false,
    };
    proof {
        if header@ == basic_header(user@) {
            codec::lemma_standard_base64_injective(bytes@, encode_utf8(whole));
        }
    }
    let decoded = match text_from_utf8(bytes.as_slice()) {
        Some(decoded) => decoded,
        None => return false,
    };
    proof {
        decode_utf8_encode_utf8(bytes@);
    }
    let (provided_user, provided_password) = match split_once(decoded.as_str(), ':') {
        Some(parts) => parts,
        None => {
            proof {
                if header@ == basic_header(user@) {
                    assert(whole[user@.username.len() as int] == ':');
                    text::lemma_first_index(whole, ':');
                }
            }
            return false;
        },
    };
    proof {
        text::lemma_first_index(decoded@, ':');
        let i = text::first_index(decoded@, ':');
        assert(decoded@ =~= provided_user@.push(':') + provided_password@);
        if user@.username == provided_user@ && user@.password == provided_password@ {
            assert(!user@.username.contains(':')) by {
                assert forall|j: int| 0 <= j < user@.username.len() implies user@.username[j]
                    != ':' by {
                    assert(decoded@[j] == provided_user@[j]);
                }
            }
        }
        if basic_accepts(header@, user@) {
            let n = user@.username.len() as int;
            assert forall|j: int| 0 <= j < n implies whole[j] != ':' by {
                assert(user@.username[j] == whole[j]);
            }
            text::lemma_first_index_is(whole, ':', n);
            assert(provided_user@ =~= user@.username);
            assert(provided_password@ =~= user@.password);
        }
    }
    let same_user = constant_time_same(provided_user.as_str(), user.username.as_str());
    let same_password = constant_time_same(provided_password.as_str(), user.password.as_str());
    same_user && same_password
}

/// The name of the user if the request is let in. `method` is in capitals.
pub fn authenticate(
    authorization: Option<&str>,
    user: &Credentials,
    key: &str,
    method: &str,
    params: &Query,
    now: u64,
) -> (r: Option<String>)
    ensures
        is_authenticated(authorization.deep_view(), user@, key@, method@, params@, now as nat)
            ==> (r matches Some(name) && name@ == user@.username),
        !is_authenticated(authorization.deep_view(), user@, key@, method@, params@, now as nat)
            ==> r is None,
{
    if same_text(method, "GET") || same_text(method, "HEAD") {
        match params.get("token") {
            Some(token) => {
                if verify_download_token(token, key, user, now) {
                    return Some(user.username.clone());
                }
            },
            None => {},
        }
    }
    match authorization {
        Some(header) => {
            if verify_basic(header, user) {
                Some(user.username.clone())
            } else {
                None
            }
        },
        None => None,
    }
}

// ---------------------------------------------------------------------------
// Laws
// ---------------------------------------------------------------------------

/// A token reads back as what it was written from.
proof fn lemma_token_parts(key: Text, expiry: nat, user: CredentialsView)
    requires
        expiry <= u64::MAX,
    ensures
        token_parts(token_text(key, expiry, user)) == Some((expiry, token_code(key, expiry, user))),
{
    let token = token_text(key, expiry, user);
    let digits = numbers::decimal(expiry);
    numbers::lemma_decimal(expiry);
    numbers::lemma_parse_of_decimal(expiry, u64::MAX as nat);
    let n = digits.len() as int;
    assert forall|j: int| 0 <= j < n implies token[j] != '.' by {
        assert(token[j] == digits[j]);
        assert(numbers::is_digit(digits[j]));
    }
    assert(token[n] == '.');
    text::lemma_first_index_is(token, '.', n);
    assert(token.take(n) =~= digits);
    assert(token.skip(n + 1) =~= token_code(key, expiry, user));
}

/// A download token is the time at which it expires, and behind a dot the code over the key and
/// that time that the name and the password of the user give.
pub proof fn law_tokens_are_signed_with_the_credentials(
    key: Text,
    expiry: nat,
    user: CredentialsView,
)
    ensures
        token_text(key, expiry, user) == numbers::decimal(expiry) + "."@ + codec::lower_hex(
            codec::hmac_sha256(
                encode_utf8(user.username + ":"@ + user.password),
                encode_utf8(key + "\n"@ + numbers::decimal(expiry)),
            ),
        ),
{
    reveal_strlit(".");
    reveal_strlit(":");
    reveal_strlit("\n");
    assert(user.username + ":"@ + user.password =~= user.username.push(':') + user.password);
    assert(key + "\n"@ + numbers::decimal(expiry) =~= key.push('\n') + numbers::decimal(expiry));
    assert(numbers::decimal(expiry).push('.') =~= numbers::decimal(expiry) + "."@);
}

/// The header that lets the user in is the name and the password with a colon between them, in
/// base64, and no other header does. A name with a colon in it lets nobody in.
pub proof fn law_the_credentials_let_in(
    header: Text,
    user: CredentialsView,
    key: Text,
    method: Text,
    now: nat,
)
    ensures
        is_authenticated(Some(header), user, key, method, Seq::empty(), now)
            <==> !user.username.contains(':') && header == "Basic "@ + codec::standard_base64(
            encode_utf8(user.username + ":"@ + user.password),
        ),
        !is_authenticated(None, user, key, method, Seq::empty(), now),
{
    reveal_strlit(":");
    assert(user.username + ":"@ + user.password =~= user.username.push(':') + user.password);
}

/// A download token opens its key until it expires, and never after.
pub proof fn law_tokens_open_until_they_expire(
    key: Text,
    expiry: nat,
    user: CredentialsView,
    now: nat,
)
    requires
        expiry <= u64::MAX,
    ensures
        token_opens(token_text(key, expiry, user), key, user, now) <==> now <= expiry,
{
    lemma_token_parts(key, expiry, user);
}

/// A download token opens another key, or serves other credentials, only where the two signatures
/// are the same.
pub proof fn law_tokens_open_nothing_else(
    key: Text,
    expiry: nat,
    user: CredentialsView,
    other_key: Text,
    other_user: CredentialsView,
    now: nat,
)
    requires
        expiry <= u64::MAX,
        token_code(key, expiry, user) != token_code(other_key, expiry, other_user),
    ensures
        !token_opens(token_text(key, expiry, user), other_key, other_user, now),
{
    lemma_token_parts(key, expiry, user);
}

/// Tokens open nothing for writing: a request that neither reads nor carries the credentials is
/// not let in, whatever its query.
pub proof fn law_writing_takes_credentials(
    authorization: Option<Text>,
    user: CredentialsView,
    key: Text,
    method: Text,
    params: Seq<(Text, Text)>,
    now: nat,
)
    requires
        method != "GET"@,
        method != "HEAD"@,
        authorization != Some(basic_header(user)),
    ensures
        !is_authenticated(authorization, user, key, method, params, now),
{
}

} // verus!
