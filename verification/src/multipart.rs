//! Uploads in parts: how a file is cut, and the signed sessions that hold an upload together.

use crate::auth::{self, constant_time_same, sign, Credentials, CredentialsView};
use crate::codec::{self, base64_url_decode, base64_url_encode};
use crate::text::{self, split_once, Text};
use vstd::prelude::*;
use vstd::utf8::*;

verus! {

/// The size of every part but the last: 16 MiB.
pub const MULTIPART_PART_SIZE: u64 = 16_777_216;

/// The most parts that an upload may have.
pub const MAX_MULTIPART_PARTS: u64 = 10_000;

/// How long a session lives, in milliseconds: one day.
pub const MULTIPART_SESSION_TTL_MILLIS: u64 = 86_400_000;

/// An upload in progress, as its session token remembers it.
pub struct MultipartSession {
    pub key: String,
    pub upload_id: String,
    pub size: u64,
    pub expires_at: u64,
}

/// An upload in progress, as its session token remembers it.
pub struct MultipartSessionView {
    pub key: Text,
    pub upload_id: Text,
    pub size: nat,
    pub expires_at: nat,
}

impl View for MultipartSession {
    type V = MultipartSessionView;

    open spec fn view(&self) -> MultipartSessionView {
        MultipartSessionView {
            key: self.key@,
            upload_id: self.upload_id@,
            size: self.size as nat,
            expires_at: self.expires_at as nat,
        }
    }
}

impl DeepView for MultipartSession {
    type V = MultipartSessionView;

    open spec fn deep_view(&self) -> MultipartSessionView {
        self@
    }
}

// ---------------------------------------------------------------------------
// Parts
// ---------------------------------------------------------------------------

/// How many parts a file of `size` bytes has.
pub open spec fn part_count(size: nat) -> nat {
    (size + MULTIPART_PART_SIZE - 1) as nat / MULTIPART_PART_SIZE as nat
}

/// How long part `number` of a file of `size` bytes is; parts are counted from one.
pub open spec fn part_length(size: nat, number: nat) -> Option<nat> {
    if 1 <= number <= part_count(size) {
        let left = (size - (number - 1) * MULTIPART_PART_SIZE) as nat;
        Some(if left < MULTIPART_PART_SIZE { left } else { MULTIPART_PART_SIZE as nat })
    } else {
        None
    }
}

/// How many bytes the first `count` parts hold together.
pub open spec fn length_of_parts(size: nat, count: nat) -> nat
    decreases count,
{
    if count == 0 {
        0
    } else {
        length_of_parts(size, (count - 1) as nat) + part_length(size, count).unwrap_or(0)
    }
}

/// How many parts a file of `size` bytes has.
pub fn multipart_part_count(size: u64) -> (r: u64)
    ensures
        r == part_count(size as nat),
{
    let whole = size / MULTIPART_PART_SIZE;
    if size % MULTIPART_PART_SIZE == 0 {
        whole
    } else {
        whole + 1
    }
}

/// How long part `part_number` of the upload is, if it has such a part.
pub fn multipart_part_length(session: &MultipartSession, part_number: u16) -> (r: Option<u64>)
    ensures
        match part_length(session@.size, part_number as nat) {
            Some(length) => r == Some(length as u64) && length <= u64::MAX,
            None => r is None,
        },
{
    let number = part_number as u64;
    let count = multipart_part_count(session.size);
    if number == 0 || number > count {
        return None;
    }
    let offset = (number - 1) * MULTIPART_PART_SIZE;
    let left = session.size - offset;
    if left < MULTIPART_PART_SIZE {
        Some(left)
    } else {
        Some(MULTIPART_PART_SIZE)
    }
}

/// A file has as many parts as its bytes fill, at 16 MiB each: the last of them is the one that
/// holds the last byte, and an empty file has none.
pub proof fn law_parts_are_counted(size: nat, number: nat)
    ensures
        1 <= number <= part_count(size) <==> number > 0 && (number - 1) * 16_777_216 < size,
        size == 0 <==> part_count(size) == 0,
        part_count(size) * 16_777_216 >= size,
{
}

/// Part `number` of a file holds 16 MiB, or what is left of the file at its place.
pub proof fn law_parts_have_their_length(size: nat, number: nat)
    ensures
        number > 0 && number * 16_777_216 <= size ==> part_length(size, number) == Some(
            16_777_216nat,
        ),
        number > 0 && (number - 1) * 16_777_216 < size < number * 16_777_216 ==> part_length(
            size,
            number,
        ) == Some((size - (number - 1) * 16_777_216) as nat),
        number == 0 || (number - 1) * 16_777_216 >= size ==> part_length(size, number) is None,
{
    law_parts_are_counted(size, number);
}

/// A session is good as long as it has not expired, if it is for at least one byte and at most ten
/// thousand parts.
pub proof fn law_sessions_are_good_until_they_expire(session: MultipartSessionView, now: nat)
    ensures
        is_usable(session, now) <==> now <= session.expires_at && 0 < session.size
            <= 10_000 * 16_777_216,
{
    law_parts_are_counted(session.size, 10_001);
}

/// A session is sealed with the credentials: the token is what is sealed, in base64, and behind a
/// dot the code over it that the name and the password of the user give.
pub proof fn law_sessions_are_sealed_with_the_credentials(json: Seq<u8>, user: CredentialsView)
    ensures
        sealed(json, user) == codec::url_base64(json) + "."@ + codec::lower_hex(
            codec::hmac_sha256(
                encode_utf8(user.username + ":"@ + user.password),
                encode_utf8("dufs-r2-multipart\n"@ + codec::url_base64(json)),
            ),
        ),
{
    reveal_strlit(".");
    reveal_strlit(":");
    assert(user.username + ":"@ + user.password =~= user.username.push(':') + user.password);
    assert(codec::url_base64(json).push('.') =~= codec::url_base64(json) + "."@);
}

/// Every part but the last has the full size, and the last has at least one byte.
pub proof fn law_parts_are_full_but_for_the_last(size: nat, number: nat)
    requires
        1 <= number <= part_count(size),
    ensures
        part_length(size, number) matches Some(length) && 0 < length <= MULTIPART_PART_SIZE && (
        number < part_count(size) ==> length == MULTIPART_PART_SIZE),
{
}

/// The parts make up the file: their lengths add up to its size, each part begins where the ones
/// before it end, and there is no part beyond the last.
pub proof fn law_parts_make_up_the_file(size: nat)
    ensures
        length_of_parts(size, part_count(size)) == size,
        forall|number: nat|
            1 <= number <= part_count(size) ==> #[trigger] length_of_parts(
                size,
                (number - 1) as nat,
            ) == (number - 1) * MULTIPART_PART_SIZE,
        forall|number: nat|
            number == 0 || number > part_count(size) ==> #[trigger] part_length(size, number)
                is None,
{
    assert forall|number: nat| 1 <= number <= part_count(size) implies #[trigger] length_of_parts(
        size,
        (number - 1) as nat,
    ) == (number - 1) * MULTIPART_PART_SIZE by {
        lemma_parts_before(size, (number - 1) as nat);
    }
    let count = part_count(size);
    if count > 0 {
        lemma_parts_before(size, (count - 1) as nat);
    }
}

proof fn lemma_parts_before(size: nat, count: nat)
    requires
        count < part_count(size),
    ensures
        length_of_parts(size, count) == count * MULTIPART_PART_SIZE,
    decreases count,
{
    if count > 0 {
        lemma_parts_before(size, (count - 1) as nat);
    }
}

// ---------------------------------------------------------------------------
// Sessions
// ---------------------------------------------------------------------------

/// The signature of a session payload.
pub open spec fn session_code(payload: Text, user: CredentialsView) -> Text {
    auth::signed("dufs-r2-multipart\n"@ + payload, user)
}

/// The token that carries the serialized session `json`.
pub open spec fn sealed(json: Seq<u8>, user: CredentialsView) -> Text {
    codec::url_base64(json).push('.') + session_code(codec::url_base64(json), user)
}

/// The serialized session in `token`, if the token was sealed with these credentials.
pub open spec fn opened(token: Text, user: CredentialsView) -> Option<Seq<u8>> {
    if exists|json: Seq<u8>| token == #[trigger] sealed(json, user) {
        Some(choose|json: Seq<u8>| token == #[trigger] sealed(json, user))
    } else {
        None
    }
}

/// A session that is still good: not expired, and of a size that can be uploaded in parts.
pub open spec fn is_usable(session: MultipartSessionView, now: nat) -> bool {
    now <= session.expires_at && 0 < session.size && part_count(session.size)
        <= MAX_MULTIPART_PARTS
}

/// The signature of a session payload.
pub fn multipart_session_signature(payload: &str, user: &Credentials) -> (r: String)
    ensures
        r@ == session_code(payload@, user@),
{
    let mut message = "dufs-r2-multipart\n".to_owned();
    message.append(payload);
    sign(message.as_str(), user)
}

/// The token that carries the serialized session `json`.
pub fn encode_multipart_session(json: &[u8], user: &Credentials) -> (r: String)
    ensures
        r@ == sealed(json@, user@),
{
    let mut token = base64_url_encode(json);
    let signature = multipart_session_signature(token.as_str(), user);
    token.push('.');
    token.append(signature.as_str());
    token
}

/// The serialized session in `token`, if the token was sealed with these credentials.
pub fn decode_multipart_session(token: &str, user: &Credentials) -> (r: Option<Vec<u8>>)
    ensures
        match opened(token@, user@) {
            Some(json) => r matches Some(bytes) && bytes@ == json,
            None => r is None,
        },
{
    proof {
        assert forall|a: Seq<u8>, b: Seq<u8>|
            #[trigger] sealed(a, user@) == #[trigger] sealed(b, user@) implies a == b by {
            lemma_sealed_injective(a, b, user@);
        }
        assert forall|json: Seq<u8>| token@ == #[trigger] sealed(json, user@) implies {
            let payload = codec::url_base64(json);
            text::split_once_at(token@, '.') == Some((payload, session_code(payload, user@)))
        } by {
            let payload = codec::url_base64(json);
            codec::lemma_url_base64(json);
            let n = payload.len() as int;
            assert forall|j: int| 0 <= j < n implies token@[j] != '.' by {
                assert(token@[j] == payload[j]);
            }
            assert(token@[n] == '.');
            text::lemma_first_index_is(token@, '.', n);
            assert(token@.take(n) =~= payload);
            assert(token@.skip(n + 1) =~= session_code(payload, user@));
        }
    }
    let (payload, signature) = match split_once(token, '.') {
        Some(parts) => parts,
        None => return None,
    };
    let expected = multipart_session_signature(payload.as_str(), user);
    if !constant_time_same(signature.as_str(), expected.as_str()) {
        return None;
    }
    proof {
        text::lemma_first_index(token@, '.');
        assert(token@ =~= payload@.push('.') + signature@);
    }
    let decoded = base64_url_decode(payload.as_str());
    proof {
        match &decoded {
            Some(bytes) => {
                assert(token@ == sealed(bytes@, user@));
            },
            None => {
                assert forall|json: Seq<u8>| token@ != #[trigger] sealed(json, user@) by {
                    assert(codec::url_base64(json) != payload@);
                }
            },
        }
    }
    decoded
}

/// Whether the session is still good.
pub fn session_is_usable(session: &MultipartSession, now: u64) -> (r: bool)
    ensures
        r == is_usable(session@, now as nat),
{
    !(session.expires_at < now || session.size == 0 || multipart_part_count(session.size)
        > MAX_MULTIPART_PARTS)
}

proof fn lemma_sealed_injective(json: Seq<u8>, other: Seq<u8>, user: CredentialsView)
    requires
        sealed(json, user) == sealed(other, user),
    ensures
        json == other,
{
    codec::lemma_url_base64(json);
    codec::lemma_url_base64(other);
    let token = sealed(json, user);
    let a = codec::url_base64(json);
    let b = codec::url_base64(other);
    assert forall|j: int| 0 <= j < a.len() implies token[j] != '.' by {
        assert(token[j] == a[j]);
    }
    assert forall|j: int| 0 <= j < b.len() implies token[j] != '.' by {
        assert(token[j] == b[j]);
    }
    assert(token[a.len() as int] == '.');
    assert(token[b.len() as int] == '.');
    text::lemma_first_index_is(token, '.', a.len() as int);
    text::lemma_first_index_is(token, '.', b.len() as int);
    assert(a =~= token.take(a.len() as int));
    assert(b =~= token.take(b.len() as int));
}

/// A session token gives back exactly what was sealed in it.
pub proof fn law_sessions_read_back(json: Seq<u8>, user: CredentialsView)
    ensures
        opened(sealed(json, user), user) == Some(json),
{
    let token = sealed(json, user);
    assert(token == sealed(json, user));
    let other = choose|other: Seq<u8>| token == #[trigger] sealed(other, user);
    lemma_sealed_injective(json, other, user);
}

/// A session token is refused unless its signature is the one that these credentials give to its
/// payload.
pub proof fn law_forged_sessions_are_refused(
    payload: Text,
    signature: Text,
    user: CredentialsView,
)
    requires
        !payload.contains('.'),
        signature != session_code(payload, user),
    ensures
        opened(payload.push('.') + signature, user) is None,
{
    let token = payload.push('.') + signature;
    assert forall|json: Seq<u8>| token != #[trigger] sealed(json, user) by {
        if token == sealed(json, user) {
            let right = codec::url_base64(json);
            codec::lemma_url_base64(json);
            assert forall|j: int| 0 <= j < right.len() implies token[j] != '.' by {
                assert(token[j] == right[j]);
            }
            assert forall|j: int| 0 <= j < payload.len() implies token[j] != '.' by {
                assert(token[j] == payload[j]);
            }
            assert(token[right.len() as int] == '.');
            assert(token[payload.len() as int] == '.');
            assert(payload.len() == right.len());
            assert(payload =~= token.take(payload.len() as int));
            assert(right =~= token.take(payload.len() as int));
            assert(signature =~= token.skip(payload.len() as int + 1));
            assert(session_code(right, user) =~= token.skip(payload.len() as int + 1));
        }
    }
}

} // verus!
