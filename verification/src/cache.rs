//! The TTL cache's bookkeeping: file names derived from sanitized keys, the
//! on-disk entry format `{"timestamp":<seconds>,"data":<payload>}`, and the
//! freshness decision. Reading and writing the files themselves is I/O and
//! lives outside the core, which only frames, parses and judges entries.

use crate::decimal::{
    char_digit, dec_digits, dec_val, digit_of_char, is_digit, lemma_dec_val_of_digits,
    lemma_dec_val_prefix_le, u64_to_string,
};
use vstd::prelude::*;

verus! {

/// A key/blob store with expiry, rooted at a directory, entries aging out
/// after `ttl_secs` seconds.
#[derive(Debug, Clone)]
pub struct CacheStore {
    pub dir: String,
    pub ttl_secs: u64,
}

/// Path separators may not escape the cache directory: they become
/// underscores in file names.
pub open spec fn sanitize_char(c: char) -> char {
    if c == '/' || c == '\\' {
        '_'
    } else {
        c
    }
}

/// The sanitized form of a key.
pub open spec fn spec_sanitize(key: Seq<char>) -> Seq<char> {
    key.map_values(|c: char| sanitize_char(c))
}

/// The serialized form of a cache entry: a JSON object holding the write
/// timestamp and the raw payload.
pub open spec fn spec_encode_entry(ts: i64, payload: Seq<char>) -> Seq<char>
    recommends
        0 <= ts,
{
    "{\"timestamp\":"@ + dec_digits(ts as nat) + ",\"data\":"@ + payload + "}"@
}

/// The length of the leading run of decimal digits.
pub open spec fn digit_run_len(s: Seq<char>) -> int
    decreases s.len(),
{
    if s.len() == 0 || !is_digit(s[0]) {
        0
    } else {
        1 + digit_run_len(s.skip(1))
    }
}

/// What parsing a serialized entry yields: the timestamp and the payload,
/// or nothing when the text is not a well-formed entry.
pub open spec fn spec_decode_entry(s: Seq<char>) -> Option<(i64, Seq<char>)> {
    let pre = "{\"timestamp\":"@;
    let mid = ",\"data\":"@;
    if !pre.is_prefix_of(s) {
        None
    } else {
        let rest = s.skip(pre.len() as int);
        let d = digit_run_len(rest);
        if d == 0 {
            None
        } else if dec_val(rest.take(d)) > i64::MAX as nat {
            None
        } else {
            let after = rest.skip(d);
            if !mid.is_prefix_of(after) {
                None
            } else {
                let body = after.skip(mid.len() as int);
                if body.len() == 0 || body.last() != '}' {
                    None
                } else {
                    Some((dec_val(rest.take(d)) as i64, body.drop_last()))
                }
            }
        }
    }
}

/// An entry written at `written` is fresh at `now` while its age is
/// between zero and the time-to-live, inclusive.
pub open spec fn spec_fresh(written: i64, now: i64, ttl_secs: u64) -> bool {
    0 <= now - written <= ttl_secs
}

/// What reading a serialized entry at time `now` yields: the payload of a
/// fresh, well-formed entry; nothing otherwise.
pub open spec fn spec_read_entry(s: Seq<char>, now: i64, ttl_secs: u64) -> Option<Seq<char>> {
    match spec_decode_entry(s) {
        Some(entry) => if spec_fresh(entry.0, now, ttl_secs) {
            Some(entry.1)
        } else {
            None
        },
        None => None,
    }
}

proof fn lemma_digit_run_len_at(s: Seq<char>, k: int)
    requires
        0 <= k <= s.len(),
        forall|m: int| 0 <= m < k ==> is_digit(#[trigger] s[m]),
        k < s.len() ==> !is_digit(s[k]),
    ensures
        digit_run_len(s) == k,
    decreases k,
{
    if k == 0 {
    } else {
        assert(is_digit(s[0]));
        assert forall|m: int| 0 <= m < k - 1 implies is_digit(#[trigger] s.skip(1)[m]) by {
            assert(s.skip(1)[m] == s[m + 1]);
        }
        assert(k - 1 < s.skip(1).len() ==> !is_digit(s.skip(1)[k - 1]));
        lemma_digit_run_len_at(s.skip(1), k - 1);
    }
}

proof fn lemma_digit_run_len_le(s: Seq<char>)
    ensures
        0 <= digit_run_len(s) <= s.len(),
    decreases s.len(),
{
    if s.len() == 0 || !is_digit(s[0]) {
    } else {
        lemma_digit_run_len_le(s.skip(1));
    }
}

proof fn lemma_digit_run_len_ge(s: Seq<char>, k: int)
    requires
        0 <= k <= s.len(),
        forall|m: int| 0 <= m < k ==> is_digit(#[trigger] s[m]),
    ensures
        digit_run_len(s) >= k,
    decreases k,
{
    if k == 0 {
        lemma_digit_run_len_le(s);
    } else {
        assert(is_digit(s[0]));
        assert forall|m: int| 0 <= m < k - 1 implies is_digit(#[trigger] s.skip(1)[m]) by {
            assert(s.skip(1)[m] == s[m + 1]);
        }
        lemma_digit_run_len_ge(s.skip(1), k - 1);
        assert(digit_run_len(s) == 1 + digit_run_len(s.skip(1)));
    }
}


/// Parsing an encoded entry gives back the timestamp and payload exactly.
#[verifier::rlimit(100)]
pub proof fn lemma_entry_round_trip(ts: i64, payload: Seq<char>)
    requires
        0 <= ts,
    ensures
        spec_decode_entry(spec_encode_entry(ts, payload)) == Some((ts, payload)),
{
    let pre = "{\"timestamp\":"@;
    let mid = ",\"data\":"@;
    let digits = dec_digits(ts as nat);
    let s = spec_encode_entry(ts, payload);
    reveal_strlit("{\"timestamp\":");
    reveal_strlit(",\"data\":");
    reveal_strlit("}");
    crate::decimal::lemma_dec_digits_are_digits(ts as nat);
    lemma_dec_val_of_digits(ts as nat);
    assert(pre.is_prefix_of(s)) by {
        assert(s.take(pre.len() as int) =~= pre);
    }
    let rest = s.skip(pre.len() as int);
    assert(rest =~= digits + mid + payload + "}"@);
    assert(digit_run_len(rest) == digits.len()) by {
        assert forall|m: int| 0 <= m < digits.len() implies is_digit(#[trigger] rest[m]) by {
            assert(rest[m] == digits[m]);
        }
        assert(rest[digits.len() as int] == mid[0]);
        assert(mid[0] == ',');
        assert(!is_digit(','));
        lemma_digit_run_len_at(rest, digits.len() as int);
    }
    let d = digit_run_len(rest);
    assert(rest.take(d) =~= digits);
    assert(dec_val(rest.take(d)) == ts as nat);
    assert(dec_val(rest.take(d)) <= i64::MAX as nat);
    let after = rest.skip(d);
    assert(after =~= mid + payload + "}"@);
    assert(mid.is_prefix_of(after)) by {
        assert(after.take(mid.len() as int) =~= mid);
    }
    let body = after.skip(mid.len() as int);
    assert(body =~= payload + "}"@);
    assert(body.len() > 0);
    assert(body.last() == '}');
    assert(body.drop_last() =~= payload);
}

/// A fresh encoded entry reads back as its payload: the cache round trip.
pub proof fn lemma_cache_round_trip(ts: i64, payload: Seq<char>, now: i64, ttl_secs: u64)
    requires
        0 <= ts,
        0 <= now - ts <= ttl_secs,
    ensures
        spec_read_entry(spec_encode_entry(ts, payload), now, ttl_secs) == Some(payload),
{
    lemma_entry_round_trip(ts, payload);
}

/// The expiry boundary: an encoded entry reads back exactly while its age
/// lies between zero and the time-to-live, inclusive; one second past the
/// time-to-live, or before its own write stamp, it reads as absent.
pub proof fn lemma_cache_expiry_boundary(ts: i64, payload: Seq<char>, now: i64, ttl_secs: u64)
    requires
        0 <= ts,
    ensures
        spec_read_entry(spec_encode_entry(ts, payload), now, ttl_secs) == (if 0 <= now - ts
            <= ttl_secs {
            Some(payload)
        } else {
            None::<Seq<char>>
        }),
{
    lemma_entry_round_trip(ts, payload);
}

/// Replaces path separators in a key so it can serve as a file name.
pub fn sanitize_key(key: &str) -> (r: String)
    ensures
        r@ == spec_sanitize(key@),
{
    let n = key.unicode_len();
    let mut r = String::new();
    let mut i: usize = 0;
    proof {
        assert(r@ =~= spec_sanitize(key@).take(0));
    }
    while i < n
        invariant
            i <= n,
            n == key@.len(),
            r@ == spec_sanitize(key@).take(i as int),
        decreases n - i,
    {
        let c = key.get_char(i);
        let out = if c == '/' || c == '\\' {
            '_'
        } else {
            c
        };
        r.push(out);
        proof {
            assert(spec_sanitize(key@)[i as int] == sanitize_char(key@[i as int]));
            assert(r@ =~= spec_sanitize(key@).take(i + 1));
        }
        i = i + 1;
    }
    proof {
        assert(spec_sanitize(key@).take(n as int) =~= spec_sanitize(key@));
    }
    r
}

impl CacheStore {
    /// A store rooted at `dir` whose entries expire after `ttl_secs`
    /// seconds.
    pub fn new(dir: String, ttl_secs: u64) -> (s: Self)
        ensures
            s.dir@ == dir@,
            s.ttl_secs == ttl_secs,
    {
        CacheStore { dir, ttl_secs }
    }

    /// The file a key is stored under: the sanitized key plus the fixed
    /// extension, inside the store's directory.
    pub fn path_for_key(&self, key: &str) -> (r: String)
        ensures
            r@ == self.dir@ + "/"@ + spec_sanitize(key@) + ".json"@,
    {
        let safe = sanitize_key(key);
        let mut r = self.dir.clone();
        r.append("/");
        r.append(safe.as_str());
        r.append(".json");
        r
    }

    /// Serializes a payload with its write timestamp.
    pub fn encode_entry(timestamp: i64, payload: &str) -> (r: String)
        requires
            0 <= timestamp,
        ensures
            r@ == spec_encode_entry(timestamp, payload@),
    {
        let digits = u64_to_string(timestamp as u64);
        let mut r = String::new();
        r.append("{\"timestamp\":");
        r.append(digits.as_str());
        r.append(",\"data\":");
        r.append(payload);
        r.append("}");
        r
    }

    /// Whether an entry written at `written` is still fresh at `now`.
    pub fn is_fresh(&self, written: i64, now: i64) -> (r: bool)
        ensures
            r == spec_fresh(written, now, self.ttl_secs),
    {
        if now < written {
            false
        } else {
            let age = now as i128 - written as i128;
            age <= self.ttl_secs as i128
        }
    }

    /// Reads a serialized entry at time `now`: the payload when the entry
    /// parses and is fresh, nothing otherwise. Corruption degrades to a
    /// miss, never to an error.
    pub fn read_entry(&self, content: &str, now: i64) -> (r: Option<String>)
        ensures
            (r is Some) == (spec_read_entry(content@, now, self.ttl_secs) is Some),
            r matches Some(p) ==> spec_read_entry(content@, now, self.ttl_secs) == Some(p@),
    {
        match decode_entry(content) {
            Some((ts, payload)) => {
                if self.is_fresh(ts, now) {
                    Some(payload)
                } else {
                    None
                }
            },
            None => None,
        }
    }
}

/// Parses a serialized cache entry into its timestamp and payload.
#[verifier::rlimit(90)]
pub fn decode_entry(content: &str) -> (r: Option<(i64, String)>)
    ensures
        (r is Some) == (spec_decode_entry(content@) is Some),
        r matches Some(p) ==> spec_decode_entry(content@) == Some((p.0, p.1@)),
{
    let ghost sm = content@;
    let ghost pre = "{\"timestamp\":"@;
    let ghost mid = ",\"data\":"@;
    proof {
        reveal_strlit("{\"timestamp\":");
        reveal_strlit(",\"data\":");
        reveal_strlit("}");
    }
    let n = content.unicode_len();
    let prefix = "{\"timestamp\":";
    let infix = ",\"data\":";
    // the literal prefix
    if n < 13 {
        proof {
            assert(pre.len() == 13);
            assert(!pre.is_prefix_of(sm));
        }
        return None;
    }
    let mut k: usize = 0;
    while k < 13
        invariant
            k <= 13,
            sm == content@,
            n == sm.len(),
            n >= 13,
            pre == "{\"timestamp\":"@,
            pre.len() == 13,
            prefix@ == pre,
            forall|m: int| 0 <= m < k ==> sm[m] == pre[m],
        decreases 13 - k,
    {
        if !(content.get_char(k) == prefix.get_char(k)) {
            proof {
                assert(sm[k as int] != pre[k as int]);
                if pre.is_prefix_of(sm) {
                    assert(sm.take(13)[k as int] == sm[k as int]);
                }
            }
            return None;
        }
        k = k + 1;
    }
    proof {
        assert(pre.is_prefix_of(sm)) by {
            assert(sm.take(13) =~= pre);
        }
    }
    let ghost rest = sm.skip(13);
    // the digit run holding the timestamp
    let maxi: u64 = 9223372036854775807;
    proof {
        assert(maxi == i64::MAX as u64);
    }
    let mut acc: u64 = 0;
    let mut j: usize = 13;
    proof {
        assert(sm.subrange(13, 13) =~= Seq::<char>::empty());
        assert(dec_val(sm.subrange(13, 13)) == 0);
    }
    loop
        invariant
            13 <= j <= n,
            sm == content@,
            n == sm.len(),
            rest == sm.skip(13),
            pre == "{\"timestamp\":"@,
            pre.len() == 13,
            pre.is_prefix_of(sm),
            acc as nat == dec_val(sm.subrange(13, j as int)),
            acc <= maxi,
            maxi == i64::MAX as u64,
            forall|m: int| 13 <= m < j ==> is_digit(#[trigger] sm[m]),
        ensures
            13 <= j <= n,
            acc as nat == dec_val(sm.subrange(13, j as int)),
            acc <= maxi,
            forall|m: int| 13 <= m < j ==> is_digit(#[trigger] sm[m]),
            j == n || !is_digit(sm[j as int]),
        decreases n - j,
    {
        if j == n {
            break ;
        }
        let c = content.get_char(j);
        let dig = match digit_of_char(c) {
            Some(d) => d,
            None => {
                break ;
            },
        };
        proof {
            assert(is_digit(sm[j as int]));
            assert(dig == char_digit(sm[j as int]));
            assert(sm.subrange(13, j + 1).drop_last() =~= sm.subrange(13, j as int));
            assert(sm.subrange(13, j + 1).last() == sm[j as int]);
            assert(dec_val(sm.subrange(13, j + 1)) == dec_val(sm.subrange(13, j as int)) * 10
                + char_digit(sm[j as int]));
        }
        // would the value exceed the largest timestamp?
        let overflow = if acc > maxi / 10 {
            true
        } else if acc == maxi / 10 && dig > maxi % 10 {
            true
        } else {
            false
        };
        if overflow {
            proof {
                vstd::arithmetic::div_mod::lemma_fundamental_div_mod(maxi as int, 10);
                assert(acc as nat * 10 + dig as nat > maxi as nat);
                let d = digit_run_len(rest);
                assert forall|m: int| 0 <= m < j + 1 - 13 implies is_digit(
                    #[trigger] rest[m],
                ) by {
                    assert(rest[m] == sm[m + 13]);
                }
                lemma_digit_run_len_ge(rest, j + 1 - 13);
                lemma_digit_run_len_le(rest);
                assert(d >= j + 1 - 13);
                assert(d <= rest.len());
                assert(rest.take(d).take(j + 1 - 13) =~= sm.subrange(13, j + 1));
                lemma_dec_val_prefix_le(rest.take(d), j + 1 - 13);
                assert(dec_val(rest.take(d)) > i64::MAX as nat);
                assert(d > 0);
                assert(spec_decode_entry(sm) is None);
            }
            return None;
        }
        proof {
            vstd::arithmetic::div_mod::lemma_fundamental_div_mod(maxi as int, 10);
            assert(acc as nat * 10 + dig as nat <= maxi as nat);
        }
        acc = acc * 10 + dig;
        j = j + 1;
    }
    proof {
        assert(j == n || !is_digit(sm[j as int]));
        assert forall|m: int| 0 <= m < j - 13 implies is_digit(#[trigger] rest[m]) by {
            assert(rest[m] == sm[m + 13]);
        }
        if j < n {
            assert(rest[j - 13] == sm[j as int]);
        }
        lemma_digit_run_len_at(rest, j - 13);
        assert(digit_run_len(rest) == j - 13);
        assert(rest.take(j - 13) =~= sm.subrange(13, j as int));
    }
    if j == 13 {
        proof {
            assert(spec_decode_entry(sm) is None);
        }
        return None;
    }
    let ghost after = rest.skip(j - 13);
    // the literal between timestamp and payload
    if n - j < 8 {
        proof {
            assert(mid.len() == 8);
            assert(after.len() == n - j);
            assert(!mid.is_prefix_of(after));
        }
        return None;
    }
    let mut k2: usize = 0;
    while k2 < 8
        invariant
            k2 <= 8,
            sm == content@,
            13 < j <= n,
            n - j >= 8,
            n == sm.len(),
            pre == "{\"timestamp\":"@,
            pre.len() == 13,
            pre.is_prefix_of(sm),
            digit_run_len(sm.skip(13)) == j - 13,
            dec_val(sm.skip(13).take(j - 13)) <= i64::MAX as nat,
            mid == ",\"data\":"@,
            mid.len() == 8,
            infix@ == mid,
            after == sm.skip(13).skip(j - 13),
            forall|m: int| 0 <= m < k2 ==> sm[j + m] == mid[m],
        decreases 8 - k2,
    {
        if !(content.get_char(j + k2) == infix.get_char(k2)) {
            proof {
                assert(after =~= sm.skip(j as int));
                assert(after[k2 as int] == sm[j + k2]);
                assert(after[k2 as int] != mid[k2 as int]);
                if mid.is_prefix_of(after) {
                    assert(after.take(8)[k2 as int] == after[k2 as int]);
                }
                assert(spec_decode_entry(sm) is None);
            }
            return None;
        }
        k2 = k2 + 1;
    }
    proof {
        assert(mid.is_prefix_of(after)) by {
            assert forall|m: int| 0 <= m < 8 implies after.take(8)[m] == mid[m] by {
                assert(after[m] == sm[j + m]);
            }
            assert(after.take(8) =~= mid);
        }
    }
    let ghost body = after.skip(8);
    // the payload, up to the closing brace
    if n - j - 8 == 0 {
        proof {
            assert(body.len() == 0);
            assert(spec_decode_entry(sm) is None);
        }
        return None;
    }
    if !(content.get_char(n - 1) == '}') {
        proof {
            assert(body.last() == sm[n - 1]);
            assert(spec_decode_entry(sm) is None);
        }
        return None;
    }
    let payload_str = content.substring_char(j + 8, n - 1);
    let payload = String::from_str(payload_str);
    proof {
        assert(body.last() == sm[n - 1]);
        assert(body.len() > 0);
        assert(payload@ =~= body.drop_last());
        assert(acc as nat <= i64::MAX as nat);
        assert(dec_val(rest.take(digit_run_len(rest))) == acc as nat);
        assert(spec_decode_entry(sm) == Some((acc as i64, body.drop_last())));
    }
    Some((acc as i64, payload))
}

} // verus!
