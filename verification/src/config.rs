use vstd::prelude::*;
use vstd::string::*;

use crate::text::{chars_of, csv_items, split_csv};

verus! {

/// Whether `c` is one of the ASCII digits `0` to `9`.
pub open spec fn is_decimal_digit(c: char) -> bool {
    0x30 <= (c as u32) <= 0x39
}

/// The value of an ASCII digit.
pub open spec fn digit_value(c: char) -> int {
    (c as u32) - 0x30
}

/// The number that a run of decimal digits spells, most significant first.
pub open spec fn decimal_value(digits: Seq<char>) -> int
    decreases digits.len(),
{
    if digits.len() == 0 {
        0
    } else {
        decimal_value(digits.drop_last()) * 10 + digit_value(digits.last())
    }
}

/// The digits of an unsigned decimal: the text after one optional leading `+`.
pub open spec fn unsigned_digits(s: Seq<char>) -> Seq<char> {
    if s.len() > 0 && s[0] == '+' {
        s.drop_first()
    } else {
        s
    }
}

/// The `u64` that `s` denotes as `str::parse::<u64>` reads it: an optional `+`
/// followed by at least one ASCII digit and nothing else, with a value that fits.
pub open spec fn parse_u64_spec(s: Seq<char>) -> Option<u64> {
    let digits = unsigned_digits(s);
    if digits.len() > 0 && (forall|i: int| 0 <= i < digits.len() ==> is_decimal_digit(#[trigger] digits[i]))
        && decimal_value(digits) <= u64::MAX {
        Some(decimal_value(digits) as u64)
    } else {
        None
    }
}

/// A longer run of digits never spells a smaller number.
pub proof fn lemma_decimal_value_grows(digits: Seq<char>, k: int)
    requires
        0 <= k <= digits.len(),
        forall|i: int| 0 <= i < digits.len() ==> is_decimal_digit(#[trigger] digits[i]),
    ensures
        0 <= decimal_value(digits.take(k)) <= decimal_value(digits),
    decreases digits.len() - k,
{
    if k < digits.len() {
        lemma_decimal_value_grows(digits, k + 1);
        assert(digits.take(k + 1).drop_last() =~= digits.take(k));
        assert(digits.take(k + 1).last() == digits[k]);
    } else {
        assert(digits.take(k) =~= digits);
        lemma_decimal_value_nonnegative(digits);
    }
}

/// Digits spell a number that is not negative.
pub proof fn lemma_decimal_value_nonnegative(digits: Seq<char>)
    requires
        forall|i: int| 0 <= i < digits.len() ==> is_decimal_digit(#[trigger] digits[i]),
    ensures
        decimal_value(digits) >= 0,
    decreases digits.len(),
{
    if digits.len() > 0 {
        assert forall|i: int| 0 <= i < digits.drop_last().len() implies is_decimal_digit(
            #[trigger] digits.drop_last()[i],
        ) by {
            assert(digits.drop_last()[i] == digits[i]);
        }
        lemma_decimal_value_nonnegative(digits.drop_last());
        assert(is_decimal_digit(digits[digits.len() - 1]));
    }
}

/// The ASCII digit for `d`, where `0 <= d < 10`.
pub open spec fn digit_char(d: int) -> char {
    (0x30 + d) as char
}

/// The decimal numeral of `n`: its digits, most significant first, no leading zeros.
pub open spec fn decimal_text(n: nat) -> Seq<char>
    decreases n,
{
    if n < 10 {
        seq![digit_char(n as int)]
    } else {
        decimal_text(n / 10).push(digit_char((n % 10) as int))
    }
}

/// The numeral of `n` is a non-empty run of ASCII digits that spells `n`.
pub proof fn lemma_decimal_text(n: nat)
    ensures
        decimal_text(n).len() > 0,
        forall|i: int| 0 <= i < decimal_text(n).len() ==> is_decimal_digit(#[trigger] decimal_text(n)[i]),
        decimal_value(decimal_text(n)) == n,
    decreases n,
{
    if n < 10 {
        assert(digit_char(n as int) as u32 == 0x30 + n);
        assert(decimal_text(n).drop_last() =~= Seq::<char>::empty());
        assert(decimal_value(Seq::<char>::empty()) == 0);
        assert(decimal_text(n).last() == digit_char(n as int));
    } else {
        lemma_decimal_text(n / 10);
        let t = decimal_text(n / 10);
        let d = n % 10;
        assert(digit_char(d as int) as u32 == 0x30 + d);
        assert(decimal_text(n).drop_last() =~= t);
        assert(decimal_text(n).last() == digit_char(d as int));
        assert forall|i: int| 0 <= i < decimal_text(n).len() implies is_decimal_digit(
            #[trigger] decimal_text(n)[i],
        ) by {
            if i < t.len() {
                assert(decimal_text(n)[i] == t[i]);
            }
        }
        assert((n / 10) * 10 + d == n) by (nonlinear_arith)
            requires
                d == n % 10,
        ;
        assert(decimal_value(decimal_text(n)) == decimal_value(t) * 10 + digit_value(
            digit_char(d as int),
        ));
    }
}

/// Every `u64` written in decimal reads back as itself.
pub proof fn lemma_parse_decimal_text(n: u64)
    ensures
        parse_u64_spec(decimal_text(n as nat)) == Some(n),
{
    lemma_decimal_text(n as nat);
    let t = decimal_text(n as nat);
    assert(is_decimal_digit(t[0]));
    assert(t[0] != '+');
    assert(unsigned_digits(t) == t);
}

/// Reads an unsigned decimal number as `str::parse::<u64>` does; `None` where that
/// call fails (empty text, a stray character, or a value above `u64::MAX`).
pub fn parse_u64(s: &str) -> (r: Option<u64>)
    ensures
        r == parse_u64_spec(s@),
{
    let chars = chars_of(s);
    let n = chars.len();
    let mut i: usize = 0;
    if n > 0 && chars[0] == '+' {
        i = 1;
    }
    let start = i;
    let ghost digits = unsigned_digits(s@);
    proof {
        assert(digits =~= chars@.subrange(start as int, n as int));
    }
    if start == n {
        return None;
    }
    let mut acc: u64 = 0;
    proof {
        assert(digits.take(0) =~= Seq::<char>::empty());
    }
    while i < n
        invariant
            chars@ == s@,
            n == chars@.len(),
            start <= i <= n,
            digits == chars@.subrange(start as int, n as int),
            digits == unsigned_digits(s@),
            forall|k: int| 0 <= k < i - start ==> is_decimal_digit(#[trigger] digits[k]),
            acc == decimal_value(digits.take(i - start)),
        decreases n - i,
    {
        let c = chars[i];
        assert(digits[i - start] == c);
        let code = c as u32;
        if code < 0x30 || code > 0x39 {
            assert(!is_decimal_digit(digits[i - start]));
            return None;
        }
        let d = (code - 0x30) as u64;
        proof {
            assert(digits.take(i - start + 1).drop_last() =~= digits.take(i - start));
            assert(digits.take(i - start + 1).last() == c);
        }
        match acc.checked_mul(10) {
            None => {
                proof {
                    if forall|k: int| 0 <= k < digits.len() ==> is_decimal_digit(#[trigger] digits[k]) {
                        lemma_decimal_value_grows(digits, i - start + 1);
                    }
                }
                return None;
            },
            Some(tens) => match tens.checked_add(d) {
                None => {
                    proof {
                        if forall|k: int| 0 <= k < digits.len() ==> is_decimal_digit(#[trigger] digits[k]) {
                            lemma_decimal_value_grows(digits, i - start + 1);
                        }
                    }
                    return None;
                },
                Some(next) => {
                    acc = next;
                },
            },
        }
        i = i + 1;
    }
    proof {
        assert(digits.take(n - start) =~= digits);
    }
    Some(acc)
}


/// Whether a switch variable turns its option on: it reads `1`, `true` or `TRUE`.
pub open spec fn flag_enabled(v: Seq<char>) -> bool {
    v == "1"@ || v == "true"@ || v == "TRUE"@
}

/// A switch is on for the texts `1`, `true` and `TRUE` and for no other: `false`,
/// `0`, `True` and the empty text leave it off.
pub proof fn lemma_flag_texts(v: Seq<char>)
    ensures
        flag_enabled(v) ==> (v == "1"@ || v == "true"@ || v == "TRUE"@),
        flag_enabled("1"@),
        flag_enabled("true"@),
        flag_enabled("TRUE"@),
        !flag_enabled("false"@),
        !flag_enabled("0"@),
        !flag_enabled("True"@),
        !flag_enabled(Seq::<char>::empty()),
{
    reveal_strlit("1");
    reveal_strlit("true");
    reveal_strlit("TRUE");
    reveal_strlit("false");
    reveal_strlit("0");
    reveal_strlit("True");
    assert("1"@.len() == 1);
    assert("0"@.len() == 1);
    assert("true"@.len() == 4);
    assert("TRUE"@.len() == 4);
    assert("True"@.len() == 4);
    assert("false"@.len() == 5);
    assert("false"@ != "true"@) by {
        assert("false"@[0] != "true"@[0]);
    }
    assert("false"@ != "TRUE"@) by {
        assert("false"@[0] != "TRUE"@[0]);
    }
    assert("0"@ != "1"@) by {
        assert("0"@[0] != "1"@[0]);
    }
    assert("True"@ != "true"@) by {
        assert("True"@[0] != "true"@[0]);
    }
    assert("True"@ != "TRUE"@) by {
        assert("True"@[1] != "TRUE"@[1]);
    }
}

/// Reads a switch variable.
pub fn is_flag_enabled(v: &String) -> (b: bool)
    ensures
        b == flag_enabled(v@),
        b <==> (v@ == "1"@ || v@ == "true"@ || v@ == "TRUE"@),
{
    let one = "1".to_owned();
    let lower = "true".to_owned();
    let upper = "TRUE".to_owned();
    *v == one || *v == lower || *v == upper
}

/// The value of an optional text, taken by its characters.
pub open spec fn text_view(v: Option<String>) -> Option<Seq<char>> {
    match v {
        Some(s) => Some(s@),
        None => None,
    }
}

/// The value of a variable, or `default` where it is unset.
pub open spec fn value_or(v: Option<String>, default: Seq<char>) -> Seq<char> {
    match v {
        Some(s) => s@,
        None => default,
    }
}

/// The values of the environment variables that configure the service, each `None`
/// where the variable is unset or not valid Unicode.
pub struct EnvVars {
    /// `BIND_ADDR`
    pub bind_addr: Option<String>,
    /// `GRPC_ADDR`
    pub grpc_addr: Option<String>,
    /// `REDIS_URL`
    pub redis_url: Option<String>,
    /// `REDIS_CLUSTER`
    pub redis_cluster: Option<String>,
    /// `KAFKA_BOOTSTRAP`
    pub kafka_bootstrap: Option<String>,
    /// `KAFKA_TOPIC`
    pub kafka_topic: Option<String>,
    /// `DEDUPE_TTL_SECS`
    pub dedupe_ttl_secs: Option<String>,
}

/// Runtime configuration sourced from environment variables. Every integration
/// is optional so the service runs locally with zero external dependencies.
#[derive(Clone, Debug)]
pub struct Config {
    pub bind_addr: String,
    pub grpc_addr: String,
    pub redis_url: Option<String>,
    pub redis_cluster: bool,
    pub kafka_bootstrap: Vec<String>,
    pub kafka_topic: String,
    /// Deduplication window (seconds) for event ids in the cache tier.
    pub dedupe_ttl_secs: u64,
}

/// The deduplication window used where none is configured or it does not parse.
pub const DEFAULT_DEDUPE_TTL_SECS: u64 = 300;

/// The deduplication window that the `DEDUPE_TTL_SECS` variable selects.
pub open spec fn dedupe_ttl_spec(v: Option<String>) -> u64 {
    match v {
        Some(s) => match parse_u64_spec(s@) {
            Some(n) => n,
            None => DEFAULT_DEDUPE_TTL_SECS,
        },
        None => DEFAULT_DEDUPE_TTL_SECS,
    }
}

/// A `DEDUPE_TTL_SECS` that reads as a number `n` sets a window of `n` seconds,
/// whatever its size; the written numeral of every `u64` reads as that number.
pub proof fn lemma_dedupe_ttl_of_number(s: String, n: u64)
    ensures
        parse_u64_spec(s@) == Some(n) ==> dedupe_ttl_spec(Some(s)) == n,
        s@ == decimal_text(n as nat) ==> dedupe_ttl_spec(Some(s)) == n,
{
    lemma_parse_decimal_text(n);
}

/// The 300-second default stands only where the variable is unset, does not read
/// as a number, or reads as 300.
pub proof fn lemma_dedupe_ttl_default(v: Option<String>)
    ensures
        dedupe_ttl_spec(v) == DEFAULT_DEDUPE_TTL_SECS ==> match v {
            None => true,
            Some(s) => parse_u64_spec(s@) is None || parse_u64_spec(s@) == Some(DEFAULT_DEDUPE_TTL_SECS),
        },
        dedupe_ttl_spec(v) != DEFAULT_DEDUPE_TTL_SECS ==> (v matches Some(s) && parse_u64_spec(s@) == Some(dedupe_ttl_spec(v))),
{
}

impl Config {
    /// Resolves the configuration from the environment's values: each unset
    /// variable takes its default, an empty `REDIS_URL` counts as unset, and a
    /// `DEDUPE_TTL_SECS` that does not parse falls back to 300 seconds.
    pub fn from_env(vars: EnvVars) -> (cfg: Config)
        ensures
            cfg.bind_addr@ == value_or(vars.bind_addr, "0.0.0.0:8080"@),
            cfg.grpc_addr@ == value_or(vars.grpc_addr, "0.0.0.0:50051"@),
            text_view(cfg.redis_url) == (match vars.redis_url {
                Some(u) => if u@.len() > 0 {
                    Some(u@)
                } else {
                    None
                },
                None => None,
            }),
            cfg.redis_cluster == (match vars.redis_cluster {
                Some(v) => flag_enabled(v@),
                None => false,
            }),
            cfg.kafka_bootstrap@.map_values(|x: String| x@) == (match vars.kafka_bootstrap {
                Some(v) => csv_items(v@),
                None => Seq::<Seq<char>>::empty(),
            }),
            cfg.kafka_topic@ == value_or(vars.kafka_topic, "telemetry.frames"@),
            cfg.dedupe_ttl_secs == dedupe_ttl_spec(vars.dedupe_ttl_secs),
            cfg.dedupe_ttl_secs == match vars.dedupe_ttl_secs {
                Some(s) => match parse_u64_spec(s@) {
                    Some(n) => n,
                    None => 300,
                },
                None => 300,
            },
    {
        let kafka_bootstrap = match &vars.kafka_bootstrap {
            Some(v) => split_csv(v.as_str()),
            None => {
                let empty: Vec<String> = Vec::new();
                proof {
                    assert(empty@.map_values(|x: String| x@) =~= Seq::<Seq<char>>::empty());
                }
                empty
            },
        };
        let bind_addr = match vars.bind_addr {
            Some(v) => v,
            None => "0.0.0.0:8080".to_owned(),
        };
        let grpc_addr = match vars.grpc_addr {
            Some(v) => v,
            None => "0.0.0.0:50051".to_owned(),
        };
        let redis_url = match vars.redis_url {
            Some(v) => if v.as_str().is_empty() {
                None
            } else {
                Some(v)
            },
            None => None,
        };
        let redis_cluster = match &vars.redis_cluster {
            Some(v) => is_flag_enabled(v),
            None => false,
        };
        let kafka_topic = match vars.kafka_topic {
            Some(v) => v,
            None => "telemetry.frames".to_owned(),
        };
        let dedupe_ttl_secs = match &vars.dedupe_ttl_secs {
            Some(v) => match parse_u64(v.as_str()) {
                Some(n) => n,
                None => DEFAULT_DEDUPE_TTL_SECS,
            },
            None => DEFAULT_DEDUPE_TTL_SECS,
        };
        Config {
            bind_addr,
            grpc_addr,
            redis_url,
            redis_cluster,
            kafka_bootstrap,
            kafka_topic,
            dedupe_ttl_secs,
        }
    }
}

} // verus!
