//! Configuration parsing: a flat text of `key: value` lines, read in order.
//!
//! The streamer's file holds its relay address, the quality digit count,
//! the pacing latency in milliseconds, and the TLS switch; the relay's file
//! holds its HTTP, listener and streamer addresses, the latency, and the
//! TLS switch. A malformed file is rejected as a whole: configuration
//! errors are fatal at startup.

use vstd::prelude::*;

use crate::codec::{all_digits, digits_val, is_digit, lemma_digits_val_bound};

verus! {

/// The newline byte.
pub const NL: u8 = 10;

/// The colon byte.
pub const COLON: u8 = 58;

/// The space byte.
pub const SPACE: u8 = 32;

/// The streamer's configuration.
#[derive(Debug, Clone)]
pub struct Config {
    /// The relay address to connect to.
    pub address: String,
    /// The quality knob: how many digits each sample keeps.
    pub quality: u8,
    /// The pacing period, in milliseconds.
    pub latency: u16,
    /// Whether to connect over TLS.
    pub tls: bool,
}

/// The relay's configuration.
#[derive(Debug, Clone)]
pub struct RelayConfig {
    /// The address of the HTTP control endpoints.
    pub axum_address: String,
    /// The address the listener socket binds to.
    pub listener_address: String,
    /// The address the streamer socket binds to.
    pub streamer_address: String,
    /// The pacing period, in milliseconds.
    pub latency: u16,
    /// Whether the sockets speak TLS.
    pub tls: bool,
}

/// Why a configuration text was rejected.
#[derive(Clone, Copy, Debug, PartialEq, Eq, Structural)]
pub enum ConfigError {
    /// The text has fewer entries than the configuration needs.
    MissingEntry,
    /// An entry has no `": "` separating key and value.
    MissingValue,
    /// An address value holds a byte that is not ASCII.
    NotText,
    /// A numeric value is empty, not a number, or out of range.
    BadNumber,
    /// A boolean value is neither `true` nor `false`.
    BadBool,
}

/// Where the entry that starts at `i` ends: the position of the next
/// newline, or the end of the text.
pub open spec fn line_end(text: Seq<u8>, i: int) -> int
    decreases text.len() - i,
{
    if i >= text.len() {
        text.len() as int
    } else if text[i] == NL {
        i
    } else {
        line_end(text, i + 1)
    }
}

proof fn lemma_line_end_bounds(text: Seq<u8>, i: int)
    requires
        0 <= i <= text.len(),
    ensures
        i <= line_end(text, i) <= text.len(),
    decreases text.len() - i,
{
    if i < text.len() && text[i] != NL {
        lemma_line_end_bounds(text, i + 1);
    }
}

/// The text split into entries at newlines; a final newline closes the last
/// entry rather than opening an empty one.
pub open spec fn lines_spec(text: Seq<u8>) -> Seq<Seq<u8>>
    decreases text.len(),
    via lines_spec_dec
{
    if text.len() == 0 {
        Seq::empty()
    } else {
        let e = line_end(text, 0);
        if e == text.len() {
            seq![text]
        } else {
            seq![text.take(e)] + lines_spec(text.skip(e + 1))
        }
    }
}

#[via_fn]
proof fn lines_spec_dec(text: Seq<u8>) {
    if text.len() > 0 {
        lemma_line_end_bounds(text, 0);
    }
}

/// Where the first `": "` at or after `i` starts, or the end of the entry.
pub open spec fn sep_pos(line: Seq<u8>, i: int) -> int
    decreases line.len() - i,
{
    if i >= line.len() {
        line.len() as int
    } else if line[i] == COLON && i + 1 < line.len() && line[i + 1] == SPACE {
        i
    } else {
        sep_pos(line, i + 1)
    }
}

/// An entry's value: the bytes after its first `": "`; an entry without one
/// has none.
pub open spec fn value_spec(line: Seq<u8>) -> Option<Seq<u8>> {
    let p = sep_pos(line, 0);
    if p == line.len() {
        None
    } else {
        Some(line.skip(p + 2))
    }
}

/// ASCII bytes, as the characters they stand for.
pub open spec fn chars_of(s: Seq<u8>) -> Seq<char> {
    s.map_values(|b: u8| b as char)
}

/// Whether every byte is ASCII.
pub open spec fn all_ascii(s: Seq<u8>) -> bool {
    forall|i: int| 0 <= i < s.len() ==> #[trigger] s[i] < 128
}

/// A value read as a decimal number no larger than `max`: the digits'
/// value, or nothing for an empty value, a stray byte, or a number past
/// `max`.
pub open spec fn parse_num_spec(s: Seq<u8>, max: int) -> Option<int> {
    if s.len() == 0 || !all_digits(s) || digits_val(s) > max {
        None
    } else {
        Some(digits_val(s))
    }
}

/// A value read as a boolean: exactly `true` or `false`.
pub open spec fn parse_bool_spec(s: Seq<u8>) -> Option<bool> {
    if s =~= seq![116u8, 114u8, 117u8, 101u8] {
        Some(true)
    } else if s =~= seq![102u8, 97u8, 108u8, 115u8, 101u8] {
        Some(false)
    } else {
        None
    }
}

/// Relies on String::from_utf8: ASCII bytes are valid UTF-8 and decode to
/// exactly those characters.
#[verifier::external_body]
fn ascii_to_string(v: Vec<u8>) -> (r: String)
    requires
        all_ascii(v@),
    ensures
        r@ == chars_of(v@),
{
    String::from_utf8(v).expect("ASCII bytes are valid UTF-8")
}

/// Copies a range of the bytes.
fn copy_range(src: &Vec<u8>, a: usize, b: usize) -> (r: Vec<u8>)
    requires
        a <= b <= src@.len(),
    ensures
        r@ == src@.subrange(a as int, b as int),
{
    let mut r: Vec<u8> = Vec::new();
    let mut i: usize = a;
    while i < b
        invariant
            a <= i <= b <= src@.len(),
            r@ == src@.subrange(a as int, i as int),
        decreases b - i,
    {
        r.push(src[i]);
        proof {
            assert(src@.subrange(a as int, i + 1) =~= src@.subrange(a as int, i as int).push(
                src@[i as int],
            ));
        }
        i = i + 1;
    }
    r
}

/// Splits the text into its entries.
fn split_lines(text: &Vec<u8>) -> (lines: Vec<Vec<u8>>)
    ensures
        crate::bus::msgs_of(lines@) == lines_spec(text@),
{
    let n = text.len();
    let mut lines: Vec<Vec<u8>> = Vec::new();
    let mut i: usize = 0;
    proof {
        assert(text@.skip(0) =~= text@);
        assert(crate::bus::msgs_of(lines@) =~= Seq::<Seq<u8>>::empty());
        assert(crate::bus::msgs_of(lines@) + lines_spec(text@) =~= lines_spec(text@));
    }
    while i < n
        invariant
            i <= n == text@.len(),
            lines_spec(text@) == crate::bus::msgs_of(lines@) + lines_spec(text@.skip(i as int)),
        decreases n - i,
    {
        let mut j = i;
        while j < n && text[j] != NL
            invariant
                i <= j <= n == text@.len(),
                forall|k: int| i <= k < j ==> text@[k] != NL,
            decreases n - j,
        {
            j = j + 1;
        }
        let ghost sk = text@.skip(i as int);
        proof {
            assert forall|m: int| 0 <= m < j - i implies sk[m] != NL by {
                assert(sk[m] == text@[i + m]);
            }
            assert(line_end(sk, 0) == j - i) by {
                lemma_line_end_run(sk, 0, j - i);
            }
            assert(sk.take(j - i) =~= text@.subrange(i as int, j as int));
        }
        let line = copy_range(text, i, j);
        proof {
            if j < n {
                assert(sk.skip(j - i + 1) =~= text@.skip(j + 1));
            } else {
                assert((j - i) as int == sk.len());
            }
            assert(crate::bus::msgs_of(lines@.push(line)) =~= crate::bus::msgs_of(lines@).push(
                line@,
            ));
        }
        lines.push(line);
        if j < n {
            i = j + 1;
        } else {
            i = n;
            proof {
                assert(text@.skip(n as int) =~= Seq::<u8>::empty());
            }
        }
    }
    proof {
        assert(text@.skip(n as int) =~= Seq::<u8>::empty());
        assert(lines_spec(text@) =~= crate::bus::msgs_of(lines@));
    }
    lines
}

/// `line_end` finds exactly the end of a run of bytes without a newline.
proof fn lemma_line_end_run(text: Seq<u8>, i: int, k: int)
    requires
        0 <= i <= k <= text.len(),
        forall|j: int| i <= j < k ==> text[j] != NL,
        k == text.len() || text[k] == NL,
    ensures
        line_end(text, i) == k,
    decreases k - i,
{
    if i < k {
        lemma_line_end_run(text, i + 1, k);
    }
}

/// Extracts an entry's value bytes.
fn entry_value(line: &Vec<u8>) -> (r: Option<Vec<u8>>)
    ensures
        value_spec(line@) is None ==> r is None,
        value_spec(line@) is Some ==> (r matches Some(v) && v@ == value_spec(line@).unwrap()),
{
    let n = line.len();
    let mut p: usize = 0;
    while p < n && !(line[p] == COLON && p + 1 < n && line[p + 1] == SPACE)
        invariant
            p <= n == line@.len(),
            forall|k: int|
                0 <= k < p ==> !((#[trigger] line@[k]) == COLON && k + 1 < n && line@[k + 1]
                    == SPACE),
        decreases n - p,
    {
        p = p + 1;
    }
    proof {
        lemma_sep_run(line@, 0, p as int);
    }
    if p == n {
        None
    } else {
        Some(copy_range(line, p + 2, n))
    }
}

/// `sep_pos` finds exactly the first `": "`.
proof fn lemma_sep_run(line: Seq<u8>, i: int, k: int)
    requires
        0 <= i <= k <= line.len(),
        forall|j: int| i <= j < k ==> !((#[trigger] line[j]) == COLON && j + 1 < line.len() && line[j + 1] == SPACE),
        k == line.len() || (line[k] == COLON && k + 1 < line.len() && line[k + 1] == SPACE),
    ensures
        sep_pos(line, i) == k,
    decreases k - i,
{
    if i < k {
        lemma_sep_run(line, i + 1, k);
    }
}

/// Along a run of digits the value never shrinks.
proof fn lemma_digits_val_monotone(s: Seq<u8>, j: int)
    requires
        all_digits(s),
        0 <= j <= s.len(),
    ensures
        digits_val(s.take(j)) <= digits_val(s),
    decreases s.len() - j,
{
    if j < s.len() {
        lemma_digits_val_monotone(s, j + 1);
        assert(s.take(j + 1).drop_last() =~= s.take(j as int));
        assert(all_digits(s.take(j as int)));
        lemma_digits_val_bound(s.take(j as int));
        assert(is_digit(s[j]));
        assert(digits_val(s.take(j + 1)) == digits_val(s.take(j as int)) * 10 + (s.take(j + 1).last()
            - 48));
        assert(digits_val(s.take(j as int)) * 10 >= digits_val(s.take(j as int))) by (nonlinear_arith)
            requires
                digits_val(s.take(j as int)) >= 0,
        ;
    } else {
        assert(s.take(j) =~= s);
    }
}

/// Reads a value as a decimal number of at most `max`.
fn parse_num(s: &Vec<u8>, max: u32) -> (r: Option<u32>)
    ensures
        parse_num_spec(s@, max as int) is None ==> r is None,
        parse_num_spec(s@, max as int) matches Some(v) ==> (r matches Some(u) && u == v && u
            <= max),
{
    let n = s.len();
    if n == 0 {
        return None;
    }
    let mut acc: u32 = 0;
    let mut k: usize = 0;
    proof {
        assert(s@.take(0) =~= Seq::<u8>::empty());
    }
    while k < n
        invariant
            k <= n == s@.len(),
            all_digits(s@.take(k as int)),
            acc == digits_val(s@.take(k as int)),
            acc <= max,
        decreases n - k,
    {
        let c = s[k];
        proof {
            assert(s@.take(k + 1).drop_last() =~= s@.take(k as int));
            assert(s@.take(k + 1).last() == c);
        }
        if !(c >= 48 && c <= 57) {
            proof {
                assert(!is_digit(s@[k as int]));
            }
            return None;
        }
        let next: u64 = (acc as u64) * 10 + ((c - 48) as u64);
        if next > (max as u64) {
            // the digits so far already exceed the bound; more digits only
            // grow the value
            proof {
                assert(digits_val(s@.take(k + 1)) == acc * 10 + (c - 48));
                if all_digits(s@) {
                    lemma_digits_val_monotone(s@, k + 1);
                }
            }
            return None;
        }
        acc = next as u32;
        k = k + 1;
    }
    proof {
        assert(s@.take(n as int) =~= s@);
    }
    Some(acc)
}

/// Reads a value as a boolean.
fn parse_bool(s: &Vec<u8>) -> (r: Option<bool>)
    ensures
        r == parse_bool_spec(s@),
{
    if s.len() == 4 && s[0] == 116 && s[1] == 114 && s[2] == 117 && s[3] == 101 {
        proof {
            assert(s@ =~= seq![116u8, 114u8, 117u8, 101u8]);
        }
        Some(true)
    } else if s.len() == 5 && s[0] == 102 && s[1] == 97 && s[2] == 108 && s[3] == 115 && s[4]
        == 101 {
        proof {
            assert(s@ =~= seq![102u8, 97u8, 108u8, 115u8, 101u8]);
        }
        Some(false)
    } else {
        proof {
            if s@ =~= seq![116u8, 114u8, 117u8, 101u8] {
                assert(s@.len() == 4 && s@[0] == 116 && s@[1] == 114 && s@[2] == 117 && s@[3]
                    == 101);
            }
            if s@ =~= seq![102u8, 97u8, 108u8, 115u8, 101u8] {
                assert(s@.len() == 5 && s@[0] == 102 && s@[1] == 97 && s@[2] == 108 && s@[3] == 115
                    && s@[4] == 101);
            }
        }
        None
    }
}

/// Why a streamer configuration text is rejected — or nothing, when it
/// parses. The entries, in order: address, quality, latency, tls.
pub open spec fn streamer_parse_err(text: Seq<u8>) -> Option<ConfigError> {
    let ls = lines_spec(text);
    if ls.len() < 4 {
        Some(ConfigError::MissingEntry)
    } else if value_spec(ls[0]) is None || value_spec(ls[1]) is None || value_spec(ls[2]) is None
        || value_spec(ls[3]) is None {
        Some(ConfigError::MissingValue)
    } else if !all_ascii(value_spec(ls[0]).unwrap()) {
        Some(ConfigError::NotText)
    } else if parse_num_spec(value_spec(ls[1]).unwrap(), 255) is None {
        Some(ConfigError::BadNumber)
    } else if parse_num_spec(value_spec(ls[2]).unwrap(), 65535) is None {
        Some(ConfigError::BadNumber)
    } else if parse_bool_spec(value_spec(ls[3]).unwrap()) is None {
        Some(ConfigError::BadBool)
    } else {
        None
    }
}

/// Parses the streamer's configuration text: four `key: value` entries, in
/// order the relay address, the quality digit count, the pacing latency in
/// milliseconds, and the TLS switch. Returns exactly the parsed values, or
/// the first failure in reading order.
pub fn parse_streamer_config(text: &Vec<u8>) -> (r: Result<Config, ConfigError>)
    ensures
        r is Ok <==> streamer_parse_err(text@) is None,
        r matches Err(e) ==> Some(e) == streamer_parse_err(text@),
        r matches Ok(cfg) ==> ({
            let ls = lines_spec(text@);
            &&& cfg.address@ == chars_of(value_spec(ls[0]).unwrap())
            &&& cfg.quality as int == parse_num_spec(value_spec(ls[1]).unwrap(), 255).unwrap()
            &&& cfg.latency as int == parse_num_spec(value_spec(ls[2]).unwrap(), 65535).unwrap()
            &&& Some(cfg.tls) == parse_bool_spec(value_spec(ls[3]).unwrap())
        }),
{
    let lines = split_lines(text);
    if lines.len() < 4 {
        return Err(ConfigError::MissingEntry);
    }
    let v0 = entry_value(&lines[0]);
    let v1 = entry_value(&lines[1]);
    let v2 = entry_value(&lines[2]);
    let v3 = entry_value(&lines[3]);
    match (v0, v1, v2, v3) {
        (Some(addr), Some(quality_b), Some(latency_b), Some(tls_b)) => {
            if !check_ascii(&addr) {
                return Err(ConfigError::NotText);
            }
            let quality = match parse_num(&quality_b, 255) {
                Some(q) => q,
                None => {
                    return Err(ConfigError::BadNumber);
                },
            };
            let latency = match parse_num(&latency_b, 65535) {
                Some(l) => l,
                None => {
                    return Err(ConfigError::BadNumber);
                },
            };
            let tls = match parse_bool(&tls_b) {
                Some(t) => t,
                None => {
                    return Err(ConfigError::BadBool);
                },
            };
            Ok(
                Config {
                    address: ascii_to_string(addr),
                    quality: quality as u8,
                    latency: latency as u16,
                    tls,
                },
            )
        },
        _ => Err(ConfigError::MissingValue),
    }
}

/// Why a relay configuration text is rejected — or nothing, when it parses.
/// The entries, in order: the HTTP address, the listener address, the
/// streamer address, latency, tls.
pub open spec fn relay_parse_err(text: Seq<u8>) -> Option<ConfigError> {
    let ls = lines_spec(text);
    if ls.len() < 5 {
        Some(ConfigError::MissingEntry)
    } else if value_spec(ls[0]) is None || value_spec(ls[1]) is None || value_spec(ls[2]) is None
        || value_spec(ls[3]) is None || value_spec(ls[4]) is None {
        Some(ConfigError::MissingValue)
    } else if !all_ascii(value_spec(ls[0]).unwrap()) || !all_ascii(value_spec(ls[1]).unwrap())
        || !all_ascii(value_spec(ls[2]).unwrap()) {
        Some(ConfigError::NotText)
    } else if parse_num_spec(value_spec(ls[3]).unwrap(), 65535) is None {
        Some(ConfigError::BadNumber)
    } else if parse_bool_spec(value_spec(ls[4]).unwrap()) is None {
        Some(ConfigError::BadBool)
    } else {
        None
    }
}

/// Parses the relay's configuration text: five `key: value` entries, in
/// order the HTTP address, the listener address, the streamer address, the
/// pacing latency in milliseconds, and the TLS switch.
pub fn parse_relay_config(text: &Vec<u8>) -> (r: Result<RelayConfig, ConfigError>)
    ensures
        r is Ok <==> relay_parse_err(text@) is None,
        r matches Err(e) ==> Some(e) == relay_parse_err(text@),
        r matches Ok(cfg) ==> ({
            let ls = lines_spec(text@);
            &&& cfg.axum_address@ == chars_of(value_spec(ls[0]).unwrap())
            &&& cfg.listener_address@ == chars_of(value_spec(ls[1]).unwrap())
            &&& cfg.streamer_address@ == chars_of(value_spec(ls[2]).unwrap())
            &&& cfg.latency as int == parse_num_spec(value_spec(ls[3]).unwrap(), 65535).unwrap()
            &&& Some(cfg.tls) == parse_bool_spec(value_spec(ls[4]).unwrap())
        }),
{
    let lines = split_lines(text);
    if lines.len() < 5 {
        return Err(ConfigError::MissingEntry);
    }
    let v0 = entry_value(&lines[0]);
    let v1 = entry_value(&lines[1]);
    let v2 = entry_value(&lines[2]);
    let v3 = entry_value(&lines[3]);
    let v4 = entry_value(&lines[4]);
    match (v0, v1, v2, v3, v4) {
        (Some(axum_b), Some(listener_b), Some(streamer_b), Some(latency_b), Some(tls_b)) => {
            if !check_ascii(&axum_b) || !check_ascii(&listener_b) || !check_ascii(&streamer_b) {
                return Err(ConfigError::NotText);
            }
            let latency = match parse_num(&latency_b, 65535) {
                Some(l) => l,
                None => {
                    return Err(ConfigError::BadNumber);
                },
            };
            let tls = match parse_bool(&tls_b) {
                Some(t) => t,
                None => {
                    return Err(ConfigError::BadBool);
                },
            };
            Ok(
                RelayConfig {
                    axum_address: ascii_to_string(axum_b),
                    listener_address: ascii_to_string(listener_b),
                    streamer_address: ascii_to_string(streamer_b),
                    latency: latency as u16,
                    tls,
                },
            )
        },
        _ => Err(ConfigError::MissingValue),
    }
}

/// Checks that a value is ASCII text.
fn check_ascii(s: &Vec<u8>) -> (r: bool)
    ensures
        r == all_ascii(s@),
{
    let mut k: usize = 0;
    while k < s.len()
        invariant
            k <= s@.len(),
            forall|i: int| 0 <= i < k ==> #[trigger] s@[i] < 128,
        decreases s@.len() - k,
    {
        if s[k] >= 128 {
            return false;
        }
        k = k + 1;
    }
    true
}

} // verus!
