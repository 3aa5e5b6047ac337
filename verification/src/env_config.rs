//! The settings of a deployment, read from the text of its variables.

use vstd::prelude::*;

verus! {

/// The settings of a deployment.
#[derive(Debug, Clone)]
pub struct EnvConfig {
    pub grpc_vfs_url: String,
    pub grpc_vfs_connect_timeout_secs: u64,
    pub local_cache_dir: Option<String>,
    pub max_cache_bytes: Option<u64>,
    /// Locally read values instead of going to the server. Risks stale data.
    pub local_reads: bool,
    /// Preload the cache on startup. Does not block reads. Will start from
    /// the head of the database and download up to the maximal cache size.
    pub preload_cache: bool,
    pub preload_cache_concurrency: u32,
}

/// Whether `c` is one of the ten decimal digits.
pub open spec fn is_digit(c: char) -> bool {
    '0' <= c && c <= '9'
}

/// The number a decimal digit stands for.
pub open spec fn digit_value(c: char) -> nat {
    (c as u32 - '0' as u32) as nat
}

/// Whether `text` holds decimal digits only.
pub open spec fn all_digits(text: Seq<char>) -> bool {
    forall|i: int| 0 <= i < text.len() ==> is_digit(#[trigger] text[i])
}

/// The number that the digits of `text` write in base ten.
pub open spec fn digits_value(text: Seq<char>) -> nat
    decreases text.len(),
{
    if text.len() == 0 {
        0
    } else {
        digits_value(text.drop_last()) * 10 + digit_value(text.last())
    }
}

/// `text` without a plus sign at its head.
pub open spec fn unsigned_part(text: Seq<char>) -> Seq<char> {
    if text.len() > 0 && text[0] == '+' {
        text.subrange(1, text.len() as int)
    } else {
        text
    }
}

/// The number `text` stands for, if it is one up to `max`: an optional
/// plus sign, then one decimal digit or more, and nothing else.
pub open spec fn parsed_number(text: Seq<char>, max: u64) -> Option<u64> {
    let digits = unsigned_part(text);
    if digits.len() > 0 && all_digits(digits) && digits_value(digits) <= max {
        Some(digits_value(digits) as u64)
    } else {
        None
    }
}

/// The truth value `text` stands for, if it is `true` or `false`.
pub open spec fn parsed_bool(text: Seq<char>) -> Option<bool> {
    if text == "true"@ {
        Some(true)
    } else if text == "false"@ {
        Some(false)
    } else {
        None
    }
}

/// The address used where none is given.
pub open spec fn default_url() -> Seq<char> {
    "http://localhost:50051"@
}

/// The text of a variable as a plain value.
pub open spec fn text_of(value: Option<String>) -> Option<Seq<char>> {
    match value {
        Some(text) => Some(text@),
        None => None,
    }
}

/// The number a variable holds, where it is set and holds one up to `max`.
pub open spec fn number_of(value: Option<Seq<char>>, max: u64) -> Option<u64> {
    match value {
        Some(text) => parsed_number(text, max),
        None => None,
    }
}

/// The truth value a variable holds; false where it is not set or holds
/// neither `true` nor `false`.
pub open spec fn flag_of(value: Option<Seq<char>>) -> bool {
    match value {
        Some(text) => parsed_bool(text) == Some(true),
        None => false,
    }
}

proof fn lemma_digits_grow(text: Seq<char>, upto: int)
    requires
        all_digits(text),
        0 <= upto <= text.len(),
    ensures
        digits_value(text.subrange(0, upto)) <= digits_value(text),
    decreases text.len() - upto,
{
    if upto < text.len() {
        let longer = text.subrange(0, upto + 1);
        assert(longer.drop_last() =~= text.subrange(0, upto));
        lemma_digits_grow(text, upto + 1);
    } else {
        assert(text.subrange(0, upto) =~= text);
    }
}

/// Reads a number up to `max` from `text`: an optional plus sign, then
/// one decimal digit or more, and nothing else.
pub fn parse_number(text: &str, max: u64) -> (number: Option<u64>)
    ensures
        number == parsed_number(text@, max),
{
    let len = text.unicode_len();
    let start: usize = if len > 0 && text.get_char(0) == '+' {
        1
    } else {
        0
    };
    if start == len {
        return None;
    }
    let ghost digits = unsigned_part(text@);
    assert(digits =~= text@.subrange(start as int, len as int));
    let mut value: u64 = 0;
    let mut i: usize = start;
    assert(digits.subrange(0, 0) =~= Seq::<char>::empty());
    while i < len
        invariant
            start <= i <= len,
            len == text@.len(),
            digits == text@.subrange(start as int, len as int),
            digits == unsigned_part(text@),
            all_digits(digits.subrange(0, i - start)),
            value == digits_value(digits.subrange(0, i - start)),
            value <= max,
        decreases len - i,
    {
        let c = text.get_char(i);
        let ghost seen = digits.subrange(0, i - start);
        let ghost longer = digits.subrange(0, i - start + 1);
        assert(longer.drop_last() =~= seen);
        assert(longer.last() == c);
        if !('0' <= c && c <= '9') {
            assert(digits[i - start] == c);
            assert(!is_digit(digits[i - start]));
            assert(!all_digits(digits));
            return None;
        }
        let digit: u64 = (c as u32 - '0' as u32) as u64;
        assert(all_digits(longer)) by {
            assert forall|j: int| 0 <= j < longer.len() implies is_digit(#[trigger] longer[j]) by {
                if j < seen.len() {
                    assert(longer[j] == seen[j]);
                }
            }
        }
        if digit > max || value > (max - digit) / 10 {
            proof {
                assert(digits_value(longer) > max);
                if all_digits(digits) {
                    lemma_digits_grow(digits, i - start + 1);
                }
            }
            return None;
        }
        value = value * 10 + digit;
        i += 1;
    }
    assert(digits.subrange(0, i - start) =~= digits);
    Some(value)
}

/// Reads a truth value from `text`: `true` or `false`, and nothing else.
pub fn parse_bool(text: &str) -> (flag: Option<bool>)
    ensures
        flag == parsed_bool(text@),
{
    let text = String::from_str(text);
    if text == String::from_str("true") {
        Some(true)
    } else if text == String::from_str("false") {
        Some(false)
    } else {
        None
    }
}

fn parse_if_set(value: &Option<String>, max: u64) -> (number: Option<u64>)
    ensures
        number == number_of(text_of(*value), max),
{
    match value {
        Some(text) => parse_number(text.as_str(), max),
        None => None,
    }
}

fn flag_if_set(value: &Option<String>) -> (flag: bool)
    ensures
        flag == flag_of(text_of(*value)),
{
    match value {
        Some(text) => match parse_bool(text.as_str()) {
            Some(flag) => flag,
            None => false,
        },
        None => false,
    }
}

impl EnvConfig {
    /// The settings that the text of the variables gives; each argument
    /// is the text of one variable, or `None` where it is not set.
    ///
    /// The address defaults to `http://localhost:50051`, the timeout to 10
    /// seconds and the concurrency of the preload to 4, also where the
    /// text is no number of the field's range. The size of the cache is
    /// set only where the text is a number. The two flags are set only by
    /// the text `true`.
    pub fn new(
        grpc_vfs_url: Option<String>,
        grpc_vfs_connect_timeout_secs: Option<String>,
        local_cache_dir: Option<String>,
        max_cache_bytes: Option<String>,
        local_reads: Option<String>,
        preload_cache: Option<String>,
        preload_cache_concurrency: Option<String>,
    ) -> (config: Self)
        ensures
            config.grpc_vfs_url@ == match grpc_vfs_url {
                Some(url) => url@,
                None => default_url(),
            },
            config.grpc_vfs_connect_timeout_secs == match number_of(
                text_of(grpc_vfs_connect_timeout_secs),
                u64::MAX,
            ) {
                Some(seconds) => seconds,
                None => 10,
            },
            text_of(config.local_cache_dir) == text_of(local_cache_dir),
            config.max_cache_bytes == number_of(text_of(max_cache_bytes), u64::MAX),
            config.local_reads == flag_of(text_of(local_reads)),
            config.preload_cache == flag_of(text_of(preload_cache)),
            config.preload_cache_concurrency as u64 == match number_of(
                text_of(preload_cache_concurrency),
                u32::MAX as u64,
            ) {
                Some(count) => count,
                None => 4,
            },
    {
        let timeout = match parse_if_set(&grpc_vfs_connect_timeout_secs, u64::MAX) {
            Some(seconds) => seconds,
            None => 10,
        };
        let concurrency: u32 = match parse_if_set(&preload_cache_concurrency, u32::MAX as u64) {
            Some(count) => count as u32,
            None => 4,
        };
        EnvConfig {
            grpc_vfs_url: match grpc_vfs_url {
                Some(url) => url,
                None => String::from_str("http://localhost:50051"),
            },
            grpc_vfs_connect_timeout_secs: timeout,
            max_cache_bytes: parse_if_set(&max_cache_bytes, u64::MAX),
            local_reads: flag_if_set(&local_reads),
            preload_cache: flag_if_set(&preload_cache),
            local_cache_dir,
            preload_cache_concurrency: concurrency,
        }
    }
}

} // verus!
