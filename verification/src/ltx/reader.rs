//! Reading ranges of a replica's objects, and the texts that go with requests.

use vstd::prelude::*;
use vstd::string::*;

use crate::ltx::client;
use crate::ltx::client::ClientErrorKind;
use crate::numbers;
use crate::text;

verus! {

broadcast use vstd::string::group_string_axioms;

/// Whether a byte stands for itself in a signed path: an ASCII letter or digit,
/// one of `-._~`, or the separator.
pub open spec fn unreserved(b: u8) -> bool {
    ||| 0x30 <= b <= 0x39
    ||| 0x41 <= b <= 0x5A
    ||| 0x61 <= b <= 0x7A
    ||| b == 0x2D || b == 0x2E || b == 0x5F || b == 0x7E || b == 0x2F
}

/// A hexadecimal digit in upper case.
pub open spec fn upper_hex(n: u8) -> char {
    if n < 10 {
        ('0' as u32 + n) as char
    } else {
        ('A' as u32 + (n - 10)) as char
    }
}

/// A byte in a signed path: itself, or a percent sign and its two digits.
pub open spec fn encoded_byte(b: u8) -> Seq<char> {
    if unreserved(b) {
        seq![b as char]
    } else {
        seq!['%', upper_hex(b / 16), upper_hex(b % 16)]
    }
}

/// Bytes in a signed path.
pub open spec fn encoded(bytes: Seq<u8>) -> Seq<char>
    decreases bytes.len(),
{
    if bytes.len() == 0 {
        Seq::empty()
    } else {
        encoded(bytes.drop_last()) + encoded_byte(bytes.last())
    }
}

fn hex_char(n: u8) -> (c: char)
    requires
        n < 16,
    ensures
        c == upper_hex(n),
{
    if n < 10 {
        (48 + n) as char
    } else {
        (55 + n) as char
    }
}

/// A key as it stands in a signed path: every byte of its UTF-8 outside the
/// unreserved set is written as a percent sign and two digits.
pub fn encode_key(key: &str) -> (out: String)
    ensures
        out@ == encoded(vstd::utf8::encode_utf8(key@)),
{
    let bytes = key.as_bytes();
    let mut out: Vec<char> = Vec::new();
    let mut i: usize = 0;
    assert(out@ =~= encoded(bytes@.take(0)));
    while i < bytes.len()
        invariant
            i <= bytes@.len(),
            out@ == encoded(bytes@.take(i as int)),
        decreases bytes@.len() - i,
    {
        let b: u8 = bytes[i];
        let ghost before = out@;
        proof {
            assert(bytes@.take(i + 1).drop_last() =~= bytes@.take(i as int));
            assert(bytes@.take(i + 1).last() == b);
        }
        if (0x30 <= b && b <= 0x39) || (0x41 <= b && b <= 0x5A) || (0x61 <= b && b <= 0x7A) || b
            == 0x2D || b == 0x2E || b == 0x5F || b == 0x7E || b == 0x2F {
            out.push(b as char);
        } else {
            out.push('%');
            out.push(hex_char(b / 16));
            out.push(hex_char(b % 16));
        }
        assert(out@ =~= before + encoded_byte(b));
        i = i + 1;
    }
    assert(bytes@.take(bytes@.len() as int) =~= bytes@);
    text::string_of(&out)
}

/// The header that asks for a range.
pub fn range_header(offset: u64, len: u64) -> (value: String)
    requires
        len > 0,
        offset + len <= u64::MAX,
    ensures
        value@ == "bytes="@ + numbers::decimal_text(offset as nat) + "-"@ + numbers::decimal_text(
            (offset + len - 1) as nat,
        ),
{
    let from = numbers::decimal(offset);
    let to = numbers::decimal(offset + len - 1);
    let head = text::concat3("bytes=", from.as_str(), "-");
    text::concat(head.as_str(), to.as_str())
}

/// The address of a file's object in a bucket.
pub fn object_url(base: &str, prefix: &str, level: i32, filename: &str) -> (url: String)
    ensures
        url@ == base@ + "/"@ + encoded(
            vstd::utf8::encode_utf8(client::level_prefix_of(prefix@, level) + filename@),
        ),
{
    let key = key_of(prefix, level, filename);
    let encoded = encode_key(key.as_str());
    text::concat3(base, "/", encoded.as_str())
}

fn key_of(prefix: &str, level: i32, filename: &str) -> (key: String)
    ensures
        key@ == client::level_prefix_of(prefix@, level) + filename@,
{
    #[verifier::truncate]
    let bits: u32 = level as u32;
    let digits = text::string_of(&numbers::hex(bits as u64, 4));
    let head = text::concat3(prefix, "/", digits.as_str());
    let head = text::concat(head.as_str(), "/");
    text::concat(head.as_str(), filename)
}

/// What a response's status says of a range: nothing is wrong, or what is.
pub fn range_status(status: u16) -> (failure: Option<ClientErrorKind>)
    ensures
        failure == if status == 403 {
            Some(ClientErrorKind::Forbidden)
        } else if status != 206 {
            Some(ClientErrorKind::Other)
        } else {
            None::<ClientErrorKind>
        },
{
    if status == 403 {
        Some(ClientErrorKind::Forbidden)
    } else if status != 206 {
        Some(ClientErrorKind::Other)
    } else {
        None
    }
}

/// What a response's body says of a range: a body of another length than was
/// asked for is a failure of the transport.
pub fn range_body(body_len: u64, len: u64) -> (failure: Option<ClientErrorKind>)
    ensures
        failure == if body_len != len {
            Some(ClientErrorKind::Io)
        } else {
            None::<ClientErrorKind>
        },
{
    if body_len != len {
        Some(ClientErrorKind::Io)
    } else {
        None
    }
}

/// What follows a failed read of a range.
#[derive(Clone, Copy, Debug, PartialEq, Eq, Structural)]
pub enum RangeRetry {
    /// Take a fresh credential, and try again.
    Refresh,
    /// Wait this long, in milliseconds, and try again.
    Wait(u64),
    Fail,
}

/// The tries of one read.
#[derive(Clone, Copy, Debug, PartialEq, Eq, Structural)]
pub struct RangeTries {
    pub attempt: u64,
    pub refreshed: bool,
}

/// What follows a failed try: a refused credential is taken fresh once, where it
/// can be; a failure of the transport is tried once more; all else is final.
pub open spec fn after_failure(
    tries: RangeTries,
    kind: ClientErrorKind,
    can_refresh: bool,
) -> RangeRetry {
    if kind is Forbidden && !tries.refreshed && can_refresh {
        RangeRetry::Refresh
    } else if kind is Io && tries.attempt < 1 {
        RangeRetry::Wait(100)
    } else {
        RangeRetry::Fail
    }
}

impl RangeTries {
    /// Before the first try.
    pub fn new() -> (tries: Self)
        ensures
            tries == (RangeTries { attempt: 0, refreshed: false }),
    {
        RangeTries { attempt: 0, refreshed: false }
    }

    /// A try failed; what follows.
    pub fn failed(&mut self, kind: ClientErrorKind, can_refresh: bool) -> (next: RangeRetry)
        ensures
            next == after_failure(*old(self), kind, can_refresh),
            *final(self) == match next {
                RangeRetry::Refresh => RangeTries { refreshed: true, ..*old(self) },
                RangeRetry::Wait(_) => RangeTries {
                    attempt: (old(self).attempt + 1) as u64,
                    ..*old(self)
                },
                RangeRetry::Fail => *old(self),
            },
    {
        match kind {
            ClientErrorKind::Forbidden => {
                if !self.refreshed && can_refresh {
                    self.refreshed = true;
                    return RangeRetry::Refresh;
                }
            },
            ClientErrorKind::Io => {
                if self.attempt < 1 {
                    self.attempt = self.attempt + 1;
                    return RangeRetry::Wait(100 * self.attempt);
                }
            },
            _ => {},
        }
        RangeRetry::Fail
    }
}

/// How many more tries a read can have.
pub open spec fn tries_left(tries: RangeTries, can_refresh: bool) -> int {
    (if tries.attempt < 1 {
        1int
    } else {
        0
    }) + (if !tries.refreshed && can_refresh {
        1int
    } else {
        0
    })
}

/// A read is tried three times at most: each new try uses up one of the two that
/// are left after the first.
pub proof fn law_range_read_ends(tries: RangeTries, kind: ClientErrorKind, can_refresh: bool)
    ensures
        tries_left(tries, can_refresh) <= 2,
        match after_failure(tries, kind, can_refresh) {
            RangeRetry::Refresh => tries_left(
                RangeTries { refreshed: true, ..tries },
                can_refresh,
            ) == tries_left(tries, can_refresh) - 1,
            RangeRetry::Wait(_) => tries_left(
                RangeTries { attempt: (tries.attempt + 1) as u64, ..tries },
                can_refresh,
            ) == tries_left(tries, can_refresh) - 1,
            RangeRetry::Fail => true,
        },
{
}

/// A reader of ranges over any store: what its keys begin with.
pub struct StoreRangeReader {
    pub prefix: String,
}

/// A range that is asked of a store.
pub struct RangeRequest {
    pub key: String,
    pub offset: u64,
    pub end: u64,
}

impl StoreRangeReader {
    /// A reader of the objects below a prefix.
    pub fn new(prefix: String) -> (reader: Self)
        ensures
            reader.prefix == prefix,
    {
        StoreRangeReader { prefix }
    }

    /// What is asked of the store for a range of a file; nothing for an empty one.
    pub fn read_range(&self, level: i32, filename: &str, offset: u64, len: u64) -> (request: Option<
        RangeRequest,
    >)
        requires
            offset + len <= u64::MAX,
        ensures
            match request {
                None => len == 0,
                Some(request) => {
                    &&& len > 0
                    &&& request.key@ == client::level_prefix_of(self.prefix@, level) + filename@
                    &&& request.offset == offset && request.end == offset + len
                },
            },
    {
        if len == 0 {
            return None;
        }
        Some(
            RangeRequest {
                key: key_of(self.prefix.as_str(), level, filename),
                offset,
                end: offset + len,
            },
        )
    }
}

/// A moment in milliseconds since 1970 as RFC 3339 writes it in UTC, with as many
/// groups of three fractional digits as it takes; nothing outside the years that
/// can be written.
pub uninterp spec fn rfc3339_of(unix_millis: i64) -> Option<Seq<char>>;

/// `chrono::DateTime::from_timestamp_millis`, then `to_rfc3339_opts` with
/// `SecondsFormat::AutoSi` and a `Z` for UTC: what they give depends on the
/// number alone, and what is written ends with the `Z`.
#[verifier::external_body]
fn rfc3339(unix_millis: i64) -> (out: Option<String>)
    ensures
        match out {
            Some(out) => rfc3339_of(unix_millis) == Some(out@) && out@.len() > 0 && out@.last()
                == 'Z',
            None => rfc3339_of(unix_millis) is None,
        },
{
    let moment = chrono::DateTime::from_timestamp_millis(unix_millis)?;
    Some(moment.to_rfc3339_opts(chrono::SecondsFormat::AutoSi, true))
}

/// A moment with no zeros at the end of its fraction.
pub open spec fn without_zeros(moment: Seq<char>) -> Seq<char> {
    if moment.contains('.') {
        text::without_trailing(moment.drop_last(), '0').push('Z')
    } else {
        moment
    }
}

/// A moment, which ends with `Z`, with no zeros at the end of its fraction.
pub fn trim_fraction(moment: &str) -> (out: String)
    ensures
        out@ == without_zeros(moment@),
{
    let chars = text::chars_of(moment);
    match text::find_char(&chars, '.') {
        None => moment.to_owned(),
        Some(i) => {
            assert(moment@.contains(moment@[i as int]));
            let length: usize = chars.len();
            let head = text::cut(&chars, 0, length - 1);
            assert(head@ =~= moment@.drop_last());
            let mut out = text::trim_end_char(&head, '0');
            out.push('Z');
            text::string_of(&out)
        },
    }
}

/// A moment in milliseconds since 1970 as RFC 3339 writes it, with no zeros at the
/// end of its fraction; one before 1970 counts as its start. Nothing outside the
/// years that can be written.
pub fn format_rfc3339_nano(unix_millis: i64) -> (out: Option<String>)
    ensures
        match (
            out,
            rfc3339_of(
                if unix_millis > 0 {
                    unix_millis
                } else {
                    0
                },
            ),
        ) {
            (Some(out), Some(moment)) => out@ == without_zeros(moment),
            (None, None) => true,
            _ => false,
        },
{
    let millis: i64 = if unix_millis > 0 {
        unix_millis
    } else {
        0
    };
    match rfc3339(millis) {
        None => None,
        Some(moment) => Some(trim_fraction(moment.as_str())),
    }
}

/// A key is encoded byte by byte: the encoding of two parts is that of the one and then of
/// the other. ASCII letters and digits, `-`, `.`, `_`, `~` and `/` stand for themselves, and
/// any other byte is a percent sign and its two hexadecimal digits in upper case.
pub proof fn law_key_is_encoded_byte_by_byte(a: Seq<u8>, b: Seq<u8>, byte: u8)
    ensures
        encoded(a + b) == encoded(a) + encoded(b),
        encoded(Seq::<u8>::empty()) == Seq::<char>::empty(),
        ({
            let kept = (0x30 <= byte <= 0x39) || (0x41 <= byte <= 0x5A) || (0x61 <= byte <= 0x7A)
                || byte == 0x2D || byte == 0x2E || byte == 0x5F || byte == 0x7E || byte == 0x2F;
            let out = encoded(seq![byte]);
            &&& kept ==> out == seq![byte as char]
            &&& !kept ==> {
                &&& out.len() == 3 && out[0] == '%'
                &&& numbers::digit_value(out[1], 16) == Some((byte / 16) as nat)
                &&& numbers::digit_value(out[2], 16) == Some((byte % 16) as nat)
                &&& !('a' <= out[1] <= 'f') && !('a' <= out[2] <= 'f')
            }
        }),
    decreases b.len(),
{
    reveal_with_fuel(encoded, 2);
    let one: Seq<u8> = seq![byte];
    assert(one.drop_last() =~= Seq::<u8>::empty());
    assert(encoded(one) =~= encoded_byte(byte));
    if b.len() == 0 {
        assert(a + b =~= a);
        assert(encoded(a) + encoded(b) =~= encoded(a));
    } else {
        law_key_is_encoded_byte_by_byte(a, b.drop_last(), byte);
        assert((a + b).drop_last() =~= a + b.drop_last());
        assert(encoded(a + b) =~= encoded(a) + encoded(b));
    }
}

/// What follows a failed range read: a refusal has the credentials refreshed, once and where
/// they can be; a broken transfer is tried again, once and after a moment; anything else,
/// and either a second time, fails.
pub proof fn law_range_read_is_tried_again(
    tries: RangeTries,
    kind: ClientErrorKind,
    can_refresh: bool,
)
    ensures
        after_failure(tries, kind, can_refresh) is Refresh <==> kind is Forbidden && can_refresh
            && !tries.refreshed,
        after_failure(tries, kind, can_refresh) is Wait <==> kind is Io && tries.attempt == 0,
        after_failure(tries, kind, can_refresh) matches RangeRetry::Wait(millis) ==> millis == 100,
{
}

/// A moment is written without zeros at the end of its fraction, and one without a fraction
/// as it is. What is cut is zeros alone.
pub proof fn law_fraction_has_no_trailing_zeros(whole: Seq<char>, zeros: nat)
    requires
        whole.contains('.'),
        whole.last() != '0',
    ensures
        without_zeros(whole + Seq::new(zeros, |i: int| '0') + seq!['Z']) == whole + seq!['Z'],
        forall|moment: Seq<char>| #![auto]
            !moment.contains('.') ==> without_zeros(moment) == moment,
{
    let tail = Seq::new(zeros, |i: int| '0');
    let moment = whole + tail + seq!['Z'];
    let k = choose|k: int| 0 <= k < whole.len() && whole[k] == '.';
    assert(moment[k] == '.');
    assert(moment.drop_last() =~= whole + tail);
    let left = text::without_trailing(whole + tail, '0');
    text::law_trailing_characters_are_cut(whole + tail, '0');
    if left.len() < whole.len() {
        assert((whole + tail)[whole.len() - 1] == whole.last());
    }
    if left.len() > whole.len() {
        assert(left.last() == (whole + tail)[left.len() - 1]);
        assert((whole + tail)[left.len() - 1] == '0');
    }
    assert(left =~= whole);
    assert(left.push('Z') =~= whole + seq!['Z']);
}

} // verus!
