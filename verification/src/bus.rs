//! The telemetry bus: its client settings, telemetry keys, and the decisions taken while
//! feeding and collecting readings from it.

use std::str::FromStr;
use vstd::prelude::*;
use vstd::utf8::{decode_utf8, valid_utf8};
use zenoh::config::EndPoint;

use crate::text::{fields, lemma_split_nonempty, split_on};

verus! {

/// The position of the first `c` in `s`, or -1 when there is none.
pub open spec fn first_at(s: Seq<char>, c: char) -> int
    decreases s.len(),
{
    if s.len() == 0 {
        -1
    } else {
        let i = first_at(s.drop_last(), c);
        if i >= 0 {
            i
        } else if s.last() == c {
            s.len() - 1
        } else {
            -1
        }
    }
}

/// The form of a Zenoh endpoint, `<protocol>/<address>[?<metadata>][#<config>]`: a `/`,
/// the first of which has text on both sides; a first `?` after the first `/` with text
/// after it; a first `#` after the first `/` (and after the `?`, with text between them)
/// with text after it.
pub open spec fn endpoint_form(s: Seq<char>) -> bool {
    let p = first_at(s, '/');
    let m = first_at(s, '?');
    let c = first_at(s, '#');
    &&& s.contains('/')
    &&& p > 0 && p < s.len() - 1
    &&& if m < 0 && c < 0 {
        true
    } else if c < 0 {
        m > p && m < s.len() - 1
    } else if m < 0 {
        c > p && c < s.len() - 1
    } else {
        m > p && c > m + 1 && c < s.len() - 1
    }
}

/// Text without a `/` is never an endpoint.
pub proof fn law_endpoint_needs_separator(s: Seq<char>)
    requires
        !s.contains('/'),
    ensures
        !endpoint_form(s),
{
}

/// Calls `EndPoint::from_str`. Claimed: it succeeds exactly for text of the endpoint form
/// (the crate's source checks the separators as `endpoint_form` states; the separators are
/// ASCII, so byte and character positions order alike).
#[verifier::external_body]
fn endpoint_ok(address: &str) -> (r: bool)
    ensures
        r == endpoint_form(address@),
{
    EndPoint::from_str(address).is_ok()
}

/// A connection to the telemetry bus: its address, and the Zenoh client settings made from
/// it (multicast scouting, the endpoints to connect to, client mode).
#[derive(Debug, Clone)]
pub struct Bus {
    state: bool,
    bus_addr: String,
    multicast: bool,
    connect: Vec<String>,
    client: bool,
}

impl Bus {
    /// The address the bus was made for.
    pub closed spec fn address_view(&self) -> Seq<char> {
        self.bus_addr@
    }

    /// Whether the settings were made.
    pub closed spec fn is_ready(&self) -> bool {
        self.state
    }

    /// Whether multicast scouting is on.
    pub closed spec fn scouts(&self) -> bool {
        self.multicast
    }

    /// The endpoints to connect to.
    pub closed spec fn endpoints(&self) -> Seq<Seq<char>> {
        Seq::new(self.connect@.len(), |i: int| self.connect@[i]@)
    }

    /// Whether the session opens in client mode.
    pub closed spec fn is_client(&self) -> bool {
        self.client
    }

    /// Client settings for the Zenoh node at `address`: multicast scouting off, then the
    /// address as the one endpoint to connect to and client mode. An address that is no
    /// endpoint stops after the first step, and the bus is not ready.
    pub fn init(address: String) -> (r: Bus)
        ensures
            r.address_view() == address@,
            r.is_ready() == endpoint_form(address@),
            !r.scouts(),
            r.endpoints() == (if endpoint_form(address@) {
                seq![address@]
            } else {
                Seq::<Seq<char>>::empty()
            }),
            r.is_client() == endpoint_form(address@),
    {
        let ok = endpoint_ok(address.as_str());
        let mut connect: Vec<String> = Vec::new();
        if !ok {
            proof {
                assert(Seq::new(connect@.len(), |i: int| connect@[i]@) =~= Seq::<Seq<char>>::empty());
            }
            return Bus { state: false, bus_addr: address, multicast: false, connect, client: false };
        }
        connect.push(address.clone());
        proof {
            assert(Seq::new(connect@.len(), |i: int| connect@[i]@) =~= seq![address@]);
        }
        Bus { state: true, bus_addr: address, multicast: false, connect, client: true }
    }

    /// Whether the bus settings were made.
    pub fn state(&mut self) -> (r: bool)
        ensures
            r == old(self).is_ready(),
            *final(self) == *old(self),
    {
        self.state
    }

    /// The address the bus was made for.
    pub fn address(&mut self) -> (r: String)
        ensures
            r@ == old(self).address_view(),
            *final(self) == *old(self),
    {
        self.bus_addr.clone()
    }

    /// Whether multicast scouting is on.
    pub fn multicast_scouting(&self) -> (r: bool)
        ensures
            r == self.scouts(),
    {
        self.multicast
    }

    /// Whether the session opens in client mode.
    pub fn client_mode(&self) -> (r: bool)
        ensures
            r == self.is_client(),
    {
        self.client
    }

    /// The endpoints to connect to.
    pub fn connect_endpoints(&self) -> (r: Vec<String>)
        ensures
            r@.len() == self.endpoints().len(),
            forall|i: int| 0 <= i < r@.len() ==> #[trigger] r@[i]@ == self.endpoints()[i],
    {
        let mut r: Vec<String> = Vec::new();
        let mut i: usize = 0;
        while i < self.connect.len()
            invariant
                i <= self.connect@.len(),
                r@.len() == i,
                forall|j: int| 0 <= j < i ==> #[trigger] r@[j]@ == self.endpoints()[j],
            decreases self.connect@.len() - i,
        {
            r.push(self.connect[i].clone());
            i += 1;
        }
        r
    }
}

/// The three trailing parts of a telemetry key `.../platform/src/skey`.
pub struct BusKey {
    pub platform: String,
    pub src: String,
    pub skey: String,
}

/// A key names a telemetry item when it has at least three `/`-separated parts.
pub open spec fn key_has_parts(key: Seq<char>) -> bool {
    split_on(key, '/').len() >= 3
}

/// Whether `key` has at least three `/`-separated parts.
pub fn is_bus_key(key: &str) -> (r: bool)
    ensures
        r == key_has_parts(key@),
{
    let parts = fields(key, '/');
    parts.len() >= 3
}

impl BusKey {
    /// The last three `/`-separated parts of `key`: platform, source and item key.
    pub fn parse(key: &str) -> (r: BusKey)
        requires
            key_has_parts(key@),
        ensures
            ({
                let parts = split_on(key@, '/');
                &&& r.skey@ == parts[parts.len() - 1]
                &&& r.src@ == parts[parts.len() - 2]
                &&& r.platform@ == parts[parts.len() - 3]
            }),
    {
        let parts = fields(key, '/');
        let n = parts.len();
        BusKey {
            skey: parts[n - 1].clone(),
            src: parts[n - 2].clone(),
            platform: parts[n - 3].clone(),
        }
    }
}

/// Text without the separator splits into itself alone.
pub proof fn lemma_split_single(s: Seq<char>, sep: char)
    requires
        !s.contains(sep),
    ensures
        split_on(s, sep) == seq![s],
    decreases s.len(),
{
    if s.len() > 0 {
        assert(!s.drop_last().contains(sep)) by {
            if s.drop_last().contains(sep) {
                let i = choose|i: int| 0 <= i < s.drop_last().len() && s.drop_last()[i] == sep;
                assert(s[i] == sep);
            }
        }
        lemma_split_single(s.drop_last(), sep);
        assert(s.last() != sep) by {
            assert(s[s.len() - 1] == s.last());
        }
        assert(s.drop_last().push(s.last()) =~= s);
        assert(split_on(s, sep) =~= seq![s]);
    } else {
        assert(s =~= Seq::<char>::empty());
        assert(split_on(s, sep) =~= seq![s]);
    }
}

/// Splitting `a`, a separator and `b` gives the fields of `a` followed by those of `b`.
pub proof fn lemma_split_join(a: Seq<char>, b: Seq<char>, sep: char)
    ensures
        split_on(a + seq![sep] + b, sep) == split_on(a, sep) + split_on(b, sep),
    decreases b.len(),
{
    let c = a + seq![sep] + b;
    lemma_split_nonempty(a, sep);
    if b.len() == 0 {
        assert(c.drop_last() =~= a);
        assert(split_on(b, sep) =~= seq![Seq::<char>::empty()]);
        assert(split_on(c, sep) =~= split_on(a, sep) + split_on(b, sep));
    } else {
        lemma_split_join(a, b.drop_last(), sep);
        lemma_split_nonempty(b.drop_last(), sep);
        assert(c.drop_last() =~= a + seq![sep] + b.drop_last());
        assert(c.last() == b.last());
        let x = split_on(a, sep);
        let y = split_on(b.drop_last(), sep);
        if b.last() == sep {
            assert(split_on(c, sep) =~= x + y.push(Seq::<char>::empty()));
        } else {
            assert((x + y).update((x + y).len() - 1, (x + y).last().push(b.last())) =~= x
                + y.update(y.len() - 1, y.last().push(b.last())));
        }
    }
}

/// A key `platform/src/skey`, possibly behind a prefix that ends in `/`, parses back into
/// its three parts when none of them holds a `/`.
pub proof fn law_key_parts(prefix: Seq<char>, platform: Seq<char>, src: Seq<char>, skey: Seq<char>)
    requires
        prefix.len() == 0 || prefix.last() == '/',
        !platform.contains('/'),
        !src.contains('/'),
        !skey.contains('/'),
    ensures
        ({
            let key = prefix + platform + seq!['/'] + src + seq!['/'] + skey;
            let parts = split_on(key, '/');
            &&& key_has_parts(key)
            &&& parts[parts.len() - 1] == skey
            &&& parts[parts.len() - 2] == src
            &&& parts[parts.len() - 3] == platform
        }),
{
    let tail = platform + seq!['/'] + src + seq!['/'] + skey;
    lemma_split_single(platform, '/');
    lemma_split_single(src, '/');
    lemma_split_single(skey, '/');
    lemma_split_join(platform + seq!['/'] + src, skey, '/');
    lemma_split_join(platform, src, '/');
    assert(split_on(tail, '/') =~= seq![platform, src, skey]);
    if prefix.len() == 0 {
        assert(prefix + tail =~= tail);
        assert(prefix + platform + seq!['/'] + src + seq!['/'] + skey =~= tail);
    } else {
        let root = prefix.drop_last();
        assert(prefix =~= root + seq!['/']);
        lemma_split_join(root, tail, '/');
        assert(prefix + platform + seq!['/'] + src + seq!['/'] + skey =~= root + seq!['/']
            + tail);
        let parts = split_on(root, '/') + seq![platform, src, skey];
        assert(parts[parts.len() - 1] == skey);
        assert(parts[parts.len() - 2] == src);
        assert(parts[parts.len() - 3] == platform);
    }
}

/// What one sample received while collecting turned out to be.
#[derive(Debug, Clone, Copy, PartialEq, Eq, Structural)]
pub enum Reception {
    /// Receiving failed.
    Lost,
    /// The payload is not UTF-8 text.
    NotText,
    /// The text is not JSON.
    NotJson,
    /// The JSON has no `value` field.
    NoValue,
    /// The JSON has a `value` but no `ts` field.
    NoTimestamp,
    /// The `ts` field is not an integer.
    TimestampNotInteger,
    /// The `value` field is not a number.
    ValueNotNumeric,
    /// A numeric value with an integer timestamp.
    Reading,
}

/// Calls `std::str::from_utf8` and copies the text. Claimed, as its documentation says: it
/// succeeds exactly for valid UTF-8, and the text is the decoded bytes. On failure it gives
/// the `Debug` text of the `Utf8Error`, whose wording is left unsaid.
#[verifier::external_body]
fn utf8_text(bytes: &[u8]) -> (r: Result<String, String>)
    ensures
        r is Ok <==> valid_utf8(bytes@),
        r matches Ok(t) ==> t@ == decode_utf8(bytes@),
{
    match std::str::from_utf8(bytes) {
        Ok(t) => Ok(t.to_owned()),
        Err(e) => Err(format!("{:?}", e)),
    }
}

/// Whether `serde_json::from_str::<Map<String, Value>>` parses the text: whether it is a
/// JSON object.
pub uninterp spec fn json_object_parses(text: Seq<char>) -> bool;

/// Calls `serde_json::from_str::<Map<String, Value>>`. Claimed: it succeeds exactly as the
/// name says, a function of the text alone. On failure it gives the `Debug` text of the
/// `serde_json::Error`, whose wording is left unsaid.
#[verifier::external_body]
fn json_object_ok(text: &str) -> (r: Result<(), String>)
    ensures
        r is Ok <==> json_object_parses(text@),
{
    match serde_json::from_str::<serde_json::Map<String, serde_json::Value>>(text) {
        Ok(_) => Ok(()),
        Err(e) => Err(format!("{:?}", e)),
    }
}

/// Why a payload fetched from the bus cannot be handed to a script; each carries the
/// decoder's description of the error.
#[derive(Debug, Clone, PartialEq, Eq)]
pub enum GetFailure {
    /// The payload is not UTF-8 text.
    NotText(String),
    /// The text is not a JSON object.
    NotObject(String),
}

/// Checks a payload fetched from the bus: it must be UTF-8 text holding a JSON object. On
/// success, the text.
pub fn check_get_payload(payload: &[u8]) -> (r: Result<String, GetFailure>)
    ensures
        r is Ok <==> valid_utf8(payload@) && json_object_parses(decode_utf8(payload@)),
        !valid_utf8(payload@) ==> r matches Err(GetFailure::NotText(_)),
        valid_utf8(payload@) && !json_object_parses(decode_utf8(payload@)) ==> r matches Err(
            GetFailure::NotObject(_),
        ),
        r matches Ok(t) ==> t@ == decode_utf8(payload@),
{
    let text = match utf8_text(payload) {
        Ok(t) => t,
        Err(e) => return Err(GetFailure::NotText(e)),
    };
    match json_object_ok(text.as_str()) {
        Ok(()) => Ok(text),
        Err(e) => Err(GetFailure::NotObject(e)),
    }
}

/// Whether `serde_json::from_str::<Value>` parses the text.
pub uninterp spec fn json_parses(text: Seq<char>) -> bool;

/// What `Value::get(key)` followed by `Value::as_f64` gives on the parsed text: whether the
/// field is there, and whether it reads as a number.
pub uninterp spec fn json_number_at(text: Seq<char>, key: Seq<char>) -> (bool, bool);

/// What `Value::get(key)` followed by `Value::as_i64` gives on the parsed text: whether the
/// field is there, and the integer it reads as.
pub uninterp spec fn json_integer_at(text: Seq<char>, key: Seq<char>) -> (bool, Option<i64>);

/// Parses the text with `serde_json::from_str::<Value>`, then reads field `key` with
/// `Value::get` and `Value::as_f64`. Claimed: it is `None` exactly when the text does not
/// parse, and the answer depends on the text and the key alone.
#[verifier::external_body]
fn json_number_field(text: &str, key: &str) -> (r: Option<(bool, bool)>)
    ensures
        r is Some <==> json_parses(text@),
        r matches Some(f) ==> f == json_number_at(text@, key@),
{
    let v: serde_json::Value = match serde_json::from_str(text) {
        Ok(v) => v,
        Err(_) => return None,
    };
    let field = v.get(key);
    Some((field.is_some(), field.and_then(serde_json::Value::as_f64).is_some()))
}

/// Parses the text with `serde_json::from_str::<Value>`, then reads field `key` with
/// `Value::get` and `Value::as_i64`. Claimed: it is `None` exactly when the text does not
/// parse, and the answer depends on the text and the key alone.
#[verifier::external_body]
fn json_integer_field(text: &str, key: &str) -> (r: Option<(bool, Option<i64>)>)
    ensures
        r is Some <==> json_parses(text@),
        r matches Some(f) ==> f == json_integer_at(text@, key@),
{
    let v: serde_json::Value = match serde_json::from_str(text) {
        Ok(v) => v,
        Err(_) => return None,
    };
    let field = v.get(key);
    Some((field.is_some(), field.and_then(serde_json::Value::as_i64)))
}

/// The key of a sample's reading.
pub open spec fn value_key() -> Seq<char> {
    seq!['v', 'a', 'l', 'u', 'e']
}

/// The key of a sample's timestamp.
pub open spec fn ts_key() -> Seq<char> {
    seq!['t', 's']
}

/// What a received payload is: not UTF-8, no JSON, no `value`, no `ts`, a `ts` that
/// `as_i64` does not read, a `value` that `as_f64` does not read, or a reading.
pub open spec fn payload_reception(payload: Seq<u8>) -> Reception {
    if !valid_utf8(payload) {
        Reception::NotText
    } else {
        let text = decode_utf8(payload);
        let (has_value, value_is_number) = json_number_at(text, value_key());
        let (has_ts, ts) = json_integer_at(text, ts_key());
        if !json_parses(text) {
            Reception::NotJson
        } else if !has_value {
            Reception::NoValue
        } else if !has_ts {
            Reception::NoTimestamp
        } else if ts is None {
            Reception::TimestampNotInteger
        } else if !value_is_number {
            Reception::ValueNotNumeric
        } else {
            Reception::Reading
        }
    }
}

/// Classifies a payload received while collecting: the reading is its `value` field read
/// as a number, the timestamp its `ts` field read as an integer.
pub fn classify_payload(payload: &[u8]) -> (r: Reception)
    ensures
        r == payload_reception(payload@),
{
    let text = match utf8_text(payload) {
        Ok(t) => t,
        Err(_) => return Reception::NotText,
    };
    let vk = "value";
    let tk = "ts";
    proof {
        reveal_strlit("value");
        reveal_strlit("ts");
        assert(vk@ =~= value_key());
        assert(tk@ =~= ts_key());
    }
    let (has_value, value_is_number) = match json_number_field(text.as_str(), vk) {
        Some(f) => f,
        None => return Reception::NotJson,
    };
    let (has_ts, ts) = match json_integer_field(text.as_str(), tk) {
        Some(f) => f,
        None => return Reception::NotJson,
    };
    if !has_value {
        Reception::NoValue
    } else if !has_ts {
        Reception::NoTimestamp
    } else if ts.is_none() {
        Reception::TimestampNotInteger
    } else if !value_is_number {
        Reception::ValueNotNumeric
    } else {
        Reception::Reading
    }
}

/// The timestamp of a payload that is a reading: its `ts` field read as an integer;
/// `None` for any other payload.
pub fn reading_timestamp(payload: &[u8]) -> (r: Option<i64>)
    ensures
        r == (if payload_reception(payload@) is Reading {
            json_integer_at(decode_utf8(payload@), ts_key()).1
        } else {
            None
        }),
{
    if classify_payload(payload) != Reception::Reading {
        return None;
    }
    let text = match utf8_text(payload) {
        Ok(t) => t,
        Err(_) => return None,
    };
    let tk = "ts";
    proof {
        reveal_strlit("ts");
        assert(tk@ =~= ts_key());
    }
    match json_integer_field(text.as_str(), tk) {
        Some((_, ts)) => ts,
        None => None,
    }
}

/// Why collecting stopped early.
#[derive(Debug, Clone, Copy, PartialEq, Eq, Structural)]
pub enum CollectError {
    /// A sample with a value had a missing or non-integer timestamp.
    Timestamp,
    /// A sample's value was not a number.
    NotNumeric,
}

/// What to do with one received sample.
#[derive(Debug, Clone, Copy, PartialEq, Eq, Structural)]
pub enum CollectStep {
    /// Store the reading; `collected` readings are now stored.
    Record { collected: i64 },
    /// Ignore the sample and keep receiving.
    Skip,
    /// Stop collecting with this error.
    Fail(CollectError),
}

/// The step for a received sample, when `collected` of `n` readings are stored.
pub open spec fn collect_outcome(collected: i64, event: Reception) -> CollectStep {
    match event {
        Reception::Reading => CollectStep::Record { collected: (collected + 1) as i64 },
        Reception::NoTimestamp => CollectStep::Fail(CollectError::Timestamp),
        Reception::TimestampNotInteger => CollectStep::Fail(CollectError::Timestamp),
        Reception::ValueNotNumeric => CollectStep::Fail(CollectError::NotNumeric),
        _ => CollectStep::Skip,
    }
}

/// Whether collecting `n` readings is finished after `collected` were stored.
pub fn collect_done(collected: i64, n: i64) -> (r: bool)
    ensures
        r == (collected >= n),
{
    collected >= n
}

/// Decides what to do with a sample received while `collected < n` readings are stored.
pub fn collect_step(collected: i64, n: i64, event: Reception) -> (r: CollectStep)
    requires
        collected < n,
    ensures
        r == collect_outcome(collected, event),
{
    match event {
        Reception::Reading => CollectStep::Record { collected: collected + 1 },
        Reception::NoTimestamp => CollectStep::Fail(CollectError::Timestamp),
        Reception::TimestampNotInteger => CollectStep::Fail(CollectError::Timestamp),
        Reception::ValueNotNumeric => CollectStep::Fail(CollectError::NotNumeric),
        _ => CollectStep::Skip,
    }
}

/// What a value fetched from the bus means for a sampler being fed.
#[derive(Debug, Clone, Copy, PartialEq, Eq, Structural)]
pub enum FeedOutcome {
    /// Store the value with its timestamp.
    Store,
    /// The fetched map has no `value` field.
    MissingValue,
    /// The fetched map has no `ts` field, or it is not a floating-point number.
    BadTimestamp,
}

/// Decides what to do with a fetched map, from whether it has a `value` field, whether it
/// has a `ts` field, and whether that field is a floating-point number.
pub fn feed_decision(has_value: bool, has_ts: bool, ts_is_float: bool) -> (r: FeedOutcome)
    ensures
        r == (if !has_value {
            FeedOutcome::MissingValue
        } else if !has_ts || !ts_is_float {
            FeedOutcome::BadTimestamp
        } else {
            FeedOutcome::Store
        }),
{
    if !has_value {
        FeedOutcome::MissingValue
    } else if !has_ts || !ts_is_float {
        FeedOutcome::BadTimestamp
    } else {
        FeedOutcome::Store
    }
}

/// The step for a received sample depends only on what the sample is, not on how many
/// readings are stored: a reading is recorded with the count raised by one, a missing or
/// non-integer timestamp stops collecting with `Timestamp`, a non-numeric value stops it
/// with `NotNumeric`, and anything else (a lost sample, no text, no JSON, no `value`) is
/// skipped.
pub proof fn law_collect_step_by_kind(collected: i64, other: i64, n: i64)
    requires
        0 <= collected < n,
        0 <= other < n,
    ensures
        collect_outcome(collected, Reception::Reading) == (CollectStep::Record {
            collected: (collected + 1) as i64,
        }),
        collect_outcome(collected, Reception::ValueNotNumeric) == CollectStep::Fail(
            CollectError::NotNumeric,
        ),
        collect_outcome(collected, Reception::NoTimestamp) == CollectStep::Fail(
            CollectError::Timestamp,
        ),
        collect_outcome(collected, Reception::TimestampNotInteger) == CollectStep::Fail(
            CollectError::Timestamp,
        ),
        collect_outcome(collected, Reception::Lost) == CollectStep::Skip,
        collect_outcome(collected, Reception::NotText) == CollectStep::Skip,
        collect_outcome(collected, Reception::NotJson) == CollectStep::Skip,
        collect_outcome(collected, Reception::NoValue) == CollectStep::Skip,
        forall|e: Reception|
            e != Reception::Reading ==> #[trigger] collect_outcome(collected, e)
                == collect_outcome(other, e),
{
}

/// Each step keeps the count within `0..=n`, raising it by one exactly for a reading; so a
/// run that starts from none stores at most `n` readings and ends once it holds `n`.
pub proof fn law_collect_progress(collected: i64, n: i64, event: Reception)
    requires
        0 <= collected < n,
    ensures
        match collect_outcome(collected, event) {
            CollectStep::Record { collected: c } => c == collected + 1 && c <= n
                && event == Reception::Reading,
            CollectStep::Skip => event != Reception::Reading,
            CollectStep::Fail(_) => event != Reception::Reading,
        },
{
}

} // verus!
