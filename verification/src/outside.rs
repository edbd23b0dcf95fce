//! What the proxy has from outside: the clock, random bytes, digests, encodings and URLs.

use vstd::prelude::*;
use vstd::string::*;
use vstd::utf8::encode_utf8;

verus! {

/// The first second that a time can be in.
pub const FIRST_SECOND: i64 = -8334601228800;

/// The last second that a time can be in.
pub const LAST_SECOND: i64 = 8210266876799;

/// The first second of the year 0.
pub const FIRST_DATED: i64 = -62167219200;

/// The last second of the year 9999.
pub const LAST_DATED: i64 = 253402300799;

/// A time: the seconds since 1970 and the nanoseconds within the second. In a leap second the
/// nanoseconds count on beyond one second.
#[derive(Debug, Clone, Copy)]
pub struct Timestamp {
    pub secs: i64,
    pub nanos: u32,
}

impl Timestamp {
    /// Whether the time is in the range that can be written down.
    pub open spec fn in_range(self) -> bool {
        FIRST_SECOND <= self.secs <= LAST_SECOND && self.nanos < 1_000_000_000
    }

    /// Whether the time is in one of the years that are written with four digits.
    pub open spec fn is_dated(self) -> bool {
        FIRST_DATED <= self.secs <= LAST_DATED
    }

    /// The time without what is less than a millisecond.
    pub open spec fn in_millis(self) -> Timestamp {
        Timestamp { secs: self.secs, nanos: (self.nanos - self.nanos % 1_000_000) as u32 }
    }

    /// The nanoseconds since 1970.
    pub open spec fn total_nanos(self) -> int {
        self.secs * 1_000_000_000 + self.nanos
    }
}

/// The text of a time as RFC 3339 has it, in UTC, with milliseconds and the zone `Z`.
pub uninterp spec fn rfc3339_text(secs: i64, nanos: u32) -> Seq<char>;

/// The time that an RFC 3339 text names.
pub uninterp spec fn rfc3339_time(text: Seq<char>) -> Option<Timestamp>;

/// Calls `chrono::Utc::now`. The contract says that the clock gives a time in chrono's range, none in
/// a leap second and none before 1970 (a clock that is set to such a time is a fault that chrono does
/// not return from); which time it is is left unsaid.
#[verifier::external_body]
fn read_clock() -> (time: Timestamp)
    ensures
        time.in_range(),
        time.secs >= 0,
{
    let now = chrono::Utc::now();
    Timestamp { secs: now.timestamp(), nanos: now.timestamp_subsec_nanos() }
}

/// Calls `chrono::DateTime::to_rfc3339_opts` on a time of chrono's range. The contract says that the
/// text depends on the time alone, that it ends with the zone, and that, for a year of four digits,
/// `chrono::DateTime::parse_from_rfc3339` reads it as the time that was written, in milliseconds.
#[verifier::external_body]
pub(crate) fn format_time(time: Timestamp) -> (text: String)
    requires
        time.in_range(),
    ensures
        text@ == rfc3339_text(time.secs, time.nanos),
        text@.len() > 0,
        text@.last() == 'Z',
        time.is_dated() ==> rfc3339_time(text@) == Some(time.in_millis()),
{
    chrono::DateTime::from_timestamp(time.secs, time.nanos)
        .unwrap()
        .to_rfc3339_opts(chrono::SecondsFormat::Millis, true)
}

/// Calls `chrono::DateTime::parse_from_rfc3339`. The contract says that the time depends on the text
/// alone.
#[verifier::external_body]
pub fn parse_time(value: &str) -> (time: Option<Timestamp>)
    ensures
        time == rfc3339_time(value@),
{
    match chrono::DateTime::parse_from_rfc3339(value) {
        Ok(time) => Some(
            Timestamp { secs: time.timestamp(), nanos: time.timestamp_subsec_nanos() },
        ),
        Err(_) => None,
    }
}

/// The time it is.
pub fn current_time() -> (time: Timestamp)
    ensures
        time.in_range(),
        time.secs >= 0,
{
    read_clock()
}

/// The time it is, as text.
pub fn now() -> (text: String)
    ensures
        exists|time: Timestamp|
            time.in_range() && text@ == #[trigger] rfc3339_text(time.secs, time.nanos),
        text@.len() > 0,
        text@.last() == 'Z',
{
    let time = current_time();
    format_time(time)
}

/// A point on the clock of the process, as a value that is only handed on.
#[verifier::external_type_specification]
#[verifier::external_body]
pub struct ExInstant(std::time::Instant);

/// Calls `std::time::Instant::now`. Which point it is is left unsaid.
#[verifier::external_body]
pub(crate) fn instant_now() -> (instant: std::time::Instant) {
    std::time::Instant::now()
}

/// Calls `std::time::Instant::elapsed`, in nanoseconds. How long it is is left unsaid.
#[verifier::external_body]
pub(crate) fn elapsed_nanos(start: &std::time::Instant) -> (nanos: u128) {
    start.elapsed().as_nanos()
}

/// Calls `rand::rng` and fills `n` bytes from it. Which bytes they are is left unsaid.
#[verifier::external_body]
fn random_bytes(n: usize) -> (bytes: Vec<u8>)
    requires
        n <= isize::MAX,
    ensures
        bytes@.len() == n,
{
    let mut bytes = vec![0; n];
    rand::RngCore::fill_bytes(&mut rand::rng(), &mut bytes);
    bytes
}

/// Whether a character is a digit to the base 16, in lower case.
pub open spec fn is_hex_digit(c: char) -> bool {
    '0' <= c <= '9' || 'a' <= c <= 'f'
}

/// Whether a text is an identifier, as the proxy gives it to an account: a random UUID in its
/// hyphenated form.
pub open spec fn is_account_id(text: Seq<char>) -> bool {
    &&& text.len() == 36
    &&& text[8] == '-' && text[13] == '-' && text[18] == '-' && text[23] == '-'
    &&& forall|i: int|
        0 <= i < 36 && i != 8 && i != 13 && i != 18 && i != 23 ==> is_hex_digit(#[trigger] text[i])
    &&& text[14] == '4'
    &&& text[19] == '8' || text[19] == '9' || text[19] == 'a' || text[19] == 'b'
}

/// Calls `uuid::Uuid::new_v4`. The contract says that the text is an identifier of version 4 in the
/// hyphenated form, in lower case; which one it is is left unsaid.
#[verifier::external_body]
pub(crate) fn new_id() -> (id: String)
    ensures
        is_account_id(id@),
{
    uuid::Uuid::new_v4().to_string()
}

/// The base64 text of bytes, in the alphabet for URLs and without padding.
pub uninterp spec fn base64url(bytes: Seq<u8>) -> Seq<char>;

/// The bytes that a base64 text stands for, in the alphabet for URLs and without padding.
pub uninterp spec fn base64url_bytes(text: Seq<char>) -> Option<Seq<u8>>;

/// The SHA-256 digest of bytes.
pub uninterp spec fn sha256(bytes: Seq<u8>) -> Seq<u8>;

/// Calls `encode` of base64's `URL_SAFE_NO_PAD`. The contract says that the text depends on the
/// bytes alone and is read back as those bytes.
#[verifier::external_body]
pub(crate) fn encode_base64url(bytes: &[u8]) -> (text: String)
    ensures
        text@ == base64url(bytes@),
        base64url_bytes(text@) == Some(bytes@),
{
    base64::Engine::encode(&base64::engine::general_purpose::URL_SAFE_NO_PAD, bytes)
}

/// Calls `decode` of base64's `URL_SAFE_NO_PAD`. The contract says that the outcome depends on the
/// text alone.
#[verifier::external_body]
pub(crate) fn decode_base64url(text: &str) -> (bytes: Option<Vec<u8>>)
    ensures
        base64url_bytes(text@) == (match bytes {
            Some(bytes) => Some(bytes@),
            None => None,
        }),
{
    match base64::Engine::decode(&base64::engine::general_purpose::URL_SAFE_NO_PAD, text) {
        Ok(bytes) => Some(bytes),
        Err(_) => None,
    }
}

/// Calls `sha2::Sha256::digest`. The contract says that the digest depends on the bytes alone and
/// that it is 32 bytes long.
#[verifier::external_body]
pub(crate) fn sha256_digest(bytes: &[u8]) -> (digest: Vec<u8>)
    ensures
        digest@ == sha256(bytes@),
        digest@.len() == 32,
{
    <sha2::Sha256 as sha2::Digest>::digest(bytes).to_vec()
}

/// Random text: the base64 form of `n` random bytes, as many as a list can hold.
pub fn random_base64(n: usize) -> (text: String)
    requires
        n <= isize::MAX,
    ensures
        exists|bytes: Seq<u8>| bytes.len() == n && text@ == #[trigger] base64url(bytes),
{
    let bytes = random_bytes(n);
    encode_base64url(bytes.as_slice())
}

/// Whether `id` is `prefix`, an underscore and the base64 form of twelve bytes.
pub open spec fn is_random_id(id: Seq<char>, prefix: Seq<char>) -> bool {
    exists|bytes: Seq<u8>|
        bytes.len() == 12 && id == prefix + "_"@ + #[trigger] base64url(bytes)
}

/// A random identifier with a prefix.
pub fn random_id(prefix: &str) -> (id: String)
    ensures
        is_random_id(id@, prefix@),
{
    let tail = random_base64(12);
    let mut id = prefix.to_owned();
    id.append("_");
    id.append(tail.as_str());
    id
}

/// The contents of a list of pairs of texts.
pub open spec fn pair_views(pairs: Seq<(String, String)>) -> Seq<(Seq<char>, Seq<char>)> {
    pairs.map_values(|pair: (String, String)| (pair.0@, pair.1@))
}

/// What the url crate makes of a URL and pairs to append to its query: the new URL, or a message
/// that says what is wrong with the old one.
pub uninterp spec fn url_with_pairs(
    base: Seq<char>,
    pairs: Seq<(Seq<char>, Seq<char>)>,
) -> Result<Seq<char>, Seq<char>>;

/// What the url crate reads from a URL: its path and the pairs of its query, or a message that says
/// what is wrong with it.
pub uninterp spec fn url_parts(
    url: Seq<char>,
) -> Result<(Seq<char>, Seq<(Seq<char>, Seq<char>)>), Seq<char>>;

/// The pairs of a form-encoded text.
pub uninterp spec fn form_pairs(text: Seq<char>) -> Seq<(Seq<char>, Seq<char>)>;

/// How long a URL is, in bytes: up to the end of its path, up to the end of its query, and as a whole.
/// A query begins with its `?`, a fragment with its `#`.
#[derive(Debug, Clone, Copy)]
pub struct UrlShape {
    pub path_end: usize,
    pub query_end: usize,
    pub end: usize,
}

/// How long the url crate finds a URL, or a message that says what is wrong with it.
pub uninterp spec fn url_shape(url: Seq<char>) -> Result<UrlShape, Seq<char>>;

/// Calls `url::Url::parse` and measures the URL up to `url::Position::AfterPath`, up to
/// `url::Position::AfterQuery` and as a whole. The contract says that the outcome depends on the text
/// alone.
#[verifier::external_body]
pub(crate) fn measure_url(text: &str) -> (result: Result<UrlShape, String>)
    ensures
        url_shape(text@) == (match result {
            Ok(shape) => Ok::<UrlShape, Seq<char>>(shape),
            Err(message) => Err::<UrlShape, Seq<char>>(message@),
        }),
{
    match url::Url::parse(text) {
        Ok(url) => Ok(
            UrlShape {
                path_end: url[..url::Position::AfterPath].len(),
                query_end: url[..url::Position::AfterQuery].len(),
                end: url.as_str().len(),
            },
        ),
        Err(error) => Err(error.to_string()),
    }
}

/// How many bytes a byte takes in a form: letters, digits, some signs and the space take one, any
/// other byte three.
pub open spec fn form_byte_len(byte: u8) -> nat {
    if byte == 32 || byte == 42 || byte == 45 || byte == 46 || 48 <= byte <= 57 || 65 <= byte <= 90
        || byte == 95 || 97 <= byte <= 122 {
        1
    } else {
        3
    }
}

/// How many bytes a text of these bytes takes in a form.
pub open spec fn form_len(bytes: Seq<u8>) -> nat
    decreases bytes.len(),
{
    if bytes.len() == 0 {
        0
    } else {
        form_len(bytes.drop_last()) + form_byte_len(bytes.last())
    }
}

/// Where the query of a URL ends once pairs are appended to it. Where there is no query, one is begun.
pub open spec fn appended_end(shape: UrlShape, pairs: Seq<(Seq<char>, Seq<char>)>) -> nat
    decreases pairs.len(),
{
    if pairs.len() == 0 {
        if shape.path_end < shape.query_end {
            shape.query_end as nat
        } else {
            shape.query_end as nat + 1
        }
    } else {
        let before = appended_end(shape, pairs.drop_last());
        let separator: nat = if before > shape.path_end + 1 {
            1
        } else {
            0
        };
        before + separator + form_len(encode_utf8(pairs.last().0)) + 1 + form_len(
            encode_utf8(pairs.last().1),
        )
    }
}

/// Whether pairs can be appended to the query of a URL: the url crate counts in 32 bits where a query
/// begins, and where a fragment begins before and after.
pub open spec fn url_takes(shape: UrlShape, pairs: Seq<(Seq<char>, Seq<char>)>) -> bool {
    &&& shape.path_end >= shape.query_end ==> shape.query_end <= u32::MAX
    &&& shape.query_end < shape.end ==> shape.query_end < u32::MAX && appended_end(shape, pairs)
        <= u32::MAX
}

/// How many bytes a text takes in a form.
fn form_text_len(text: &str) -> (n: u128)
    ensures
        n == form_len(encode_utf8(text@)),
        n <= 3 * usize::MAX,
{
    let bytes = text.as_bytes();
    let mut n: u128 = 0;
    let mut i: usize = 0;
    assert(bytes@.take(0) =~= Seq::<u8>::empty());
    while i < bytes.len()
        invariant
            i <= bytes@.len(),
            n == form_len(bytes@.take(i as int)),
            n <= 3 * i,
        decreases bytes@.len() - i,
    {
        let byte = bytes[i];
        let plain = byte == 32 || byte == 42 || byte == 45 || byte == 46 || (48 <= byte && byte
            <= 57) || (65 <= byte && byte <= 90) || byte == 95 || (97 <= byte && byte <= 122);
        assert(bytes@.take(i + 1).drop_last() =~= bytes@.take(i as int));
        n = n + if plain {
            1
        } else {
            3
        };
        i = i + 1;
    }
    assert(bytes@.take(bytes@.len() as int) =~= bytes@);
    n
}

/// Whether pairs can be appended to the query of a URL of this shape.
pub fn can_append(shape: UrlShape, pairs: &Vec<(String, String)>) -> (fits: bool)
    ensures
        fits == url_takes(shape, pair_views(pairs@)),
{
    let limit: u128 = 0xffff_ffff;
    if shape.path_end >= shape.query_end && shape.query_end as u128 > limit {
        return false;
    }
    if shape.query_end >= shape.end {
        return true;
    }
    if shape.query_end as u128 >= limit {
        return false;
    }
    let ghost all = pair_views(pairs@);
    let mut end: u128 = if shape.path_end < shape.query_end {
        shape.query_end as u128
    } else {
        shape.query_end as u128 + 1
    };
    let mut i: usize = 0;
    assert(all.take(0) =~= Seq::<(Seq<char>, Seq<char>)>::empty());
    while i < pairs.len() && end <= limit
        invariant
            i <= pairs@.len(),
            limit == 0xffff_ffff,
            all == pair_views(pairs@),
            end == appended_end(shape, all.take(i as int)),
        decreases pairs@.len() - i,
    {
        proof {
            let next = all.take(i + 1);
            assert(next.drop_last() =~= all.take(i as int));
            assert(next.last() == (pairs@[i as int].0@, pairs@[i as int].1@));
        }
        let separator: u128 = if end > shape.path_end as u128 + 1 {
            1
        } else {
            0
        };
        let name = form_text_len(pairs[i].0.as_str());
        let value = form_text_len(pairs[i].1.as_str());
        end = end + separator + name + 1 + value;
        i = i + 1;
    }
    proof {
        lemma_appended_end(shape, all, i as int);
        assert(all.take(all.len() as int) =~= all);
    }
    end <= limit
}

proof fn lemma_appended_end(shape: UrlShape, pairs: Seq<(Seq<char>, Seq<char>)>, i: int)
    requires
        0 <= i <= pairs.len(),
    ensures
        appended_end(shape, pairs.take(i)) <= appended_end(shape, pairs),
    decreases pairs.len(),
{
    if i < pairs.len() {
        lemma_appended_end(shape, pairs.drop_last(), i);
        assert(pairs.drop_last().take(i) =~= pairs.take(i));
    } else {
        assert(pairs.take(i) =~= pairs);
    }
}

/// Calls `url::Url::parse` and appends the pairs with `query_pairs_mut`, which does not return where
/// 32 bits cannot count where the query or the fragment begins. The contract says that the outcome depends on the URL and
/// the pairs alone.
#[verifier::external_body]
pub(crate) fn append_to_url(base: &str, pairs: &Vec<(String, String)>) -> (result: Result<String, String>)
    requires
        url_shape(base@) matches Ok(shape) ==> url_takes(shape, pair_views(pairs@)),
    ensures
        url_with_pairs(base@, pair_views(pairs@)) == (match result {
            Ok(url) => Ok::<Seq<char>, Seq<char>>(url@),
            Err(message) => Err::<Seq<char>, Seq<char>>(message@),
        }),
{
    match url::Url::parse(base) {
        Ok(mut url) => {
            url.query_pairs_mut().extend_pairs(pairs);
            Ok(String::from(url))
        },
        Err(error) => Err(error.to_string()),
    }
}

/// Calls `url::Url::parse`, `path` and `query_pairs`. The contract says that the outcome depends on
/// the text alone.
#[verifier::external_body]
pub(crate) fn read_url(text: &str) -> (result: Result<(String, Vec<(String, String)>), String>)
    ensures
        url_parts(text@) == (match result {
            Ok(parts) => Ok::<(Seq<char>, Seq<(Seq<char>, Seq<char>)>), Seq<char>>(
                (parts.0@, pair_views(parts.1@)),
            ),
            Err(message) => Err::<(Seq<char>, Seq<(Seq<char>, Seq<char>)>), Seq<char>>(message@),
        }),
{
    match url::Url::parse(text) {
        Ok(url) => Ok((url.path().to_owned(), url.query_pairs().into_owned().collect())),
        Err(error) => Err(error.to_string()),
    }
}

/// Calls `url::form_urlencoded::parse`. The contract says that the pairs depend on the text alone.
#[verifier::external_body]
fn read_form(text: &str) -> (pairs: Vec<(String, String)>)
    ensures
        pair_views(pairs@) == form_pairs(text@),
{
    url::form_urlencoded::parse(text.as_bytes()).into_owned().collect()
}

/// The names of a list of pairs, one after the other.
pub open spec fn names_of(pairs: Seq<(Seq<char>, Seq<char>)>) -> Seq<char>
    decreases pairs.len(),
{
    if pairs.len() == 0 {
        Seq::empty()
    } else {
        names_of(pairs.drop_last()) + pairs.last().0
    }
}

/// A part of a path with its percent escapes decoded as in a form: the names of the pairs of a form
/// that it is read as.
pub fn percent_decode(text: &str) -> (decoded: String)
    ensures
        decoded@ == names_of(form_pairs(text@)),
{
    let pairs = read_form(text);
    concat_names(&pairs)
}

/// The names of a list of pairs, one after the other.
pub fn concat_names(pairs: &Vec<(String, String)>) -> (text: String)
    ensures
        text@ == names_of(pair_views(pairs@)),
{
    let mut text = String::new();
    let mut i: usize = 0;
    assert(pair_views(pairs@).take(0) =~= Seq::<(Seq<char>, Seq<char>)>::empty());
    while i < pairs.len()
        invariant
            i <= pairs@.len(),
            text@ == names_of(pair_views(pairs@).take(i as int)),
        decreases pairs@.len() - i,
    {
        text.append(pairs[i].0.as_str());
        proof {
            let next = pair_views(pairs@).take(i + 1);
            assert(next.drop_last() =~= pair_views(pairs@).take(i as int));
            assert(next.last() == (pairs@[i as int].0@, pairs@[i as int].1@));
        }
        i = i + 1;
    }
    assert(pair_views(pairs@).take(pairs@.len() as int) =~= pair_views(pairs@));
    text
}

}
