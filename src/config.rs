//! The run's configuration, and how it is read from the command line.
use vstd::prelude::*;
use vstd::string::{StrSliceExecFns, StringExecFns};

verus! {

/// Where claims come from, seconds between two forwarded claims, and whether
/// to log each event.
pub struct Config {
    pub file_path: String,
    pub ingest_rate: u64,
    pub verbose: bool,
}

/// Why the command line does not give a configuration.
pub enum ConfigError {
    /// The ingest rate is not a decimal number that fits in a `u64`.
    InvalidIngestRate,
}

pub open spec fn is_decimal_digit(c: char) -> bool {
    '0' <= c <= '9'
}

/// The number that a string of decimal digits spells.
pub open spec fn digits_value(s: Seq<char>) -> int
    decreases s.len(),
{
    if s.len() == 0 {
        0
    } else {
        digits_value(s.drop_last()) * 10 + (s.last() as int - '0' as int)
    }
}

/// The digits of a number text, without its optional leading `+`.
pub open spec fn unsigned_digits(s: Seq<char>) -> Seq<char> {
    if s.len() > 0 && s[0] == '+' {
        s.drop_first()
    } else {
        s
    }
}

/// `s` is the text of a `u64`: an optional `+`, then one or more decimal
/// digits whose value fits in a `u64`.
pub open spec fn is_u64_text(s: Seq<char>) -> bool {
    let d = unsigned_digits(s);
    &&& d.len() > 0
    &&& forall|i: int| 0 <= i < d.len() ==> is_decimal_digit(#[trigger] d[i])
    &&& digits_value(d) <= u64::MAX
}

/// Some argument from the third on asks for verbose output.
pub open spec fn asks_verbose(args: Seq<String>) -> bool {
    exists|i: int| 2 <= i < args.len() && (args[i]@ == "verbose"@ || args[i]@ == "v"@)
}

proof fn lemma_digits_value_grows(s: Seq<char>, j: int, k: int)
    requires
        0 <= j <= k <= s.len(),
        forall|i: int| 0 <= i < s.len() ==> is_decimal_digit(#[trigger] s[i]),
    ensures
        digits_value(s.take(j)) <= digits_value(s.take(k)),
    decreases k - j,
{
    if j < k {
        lemma_digits_value_grows(s, j, k - 1);
        assert(s.take(k).drop_last() =~= s.take(k - 1));
        assert(s.take(k).last() == s[k - 1]);
        assert(is_decimal_digit(s[k - 1]));
        assert(digits_value(s.take(k - 1)) >= 0) by {
            lemma_digits_value_nonneg(s.take(k - 1));
        }
    }
}

proof fn lemma_digits_value_nonneg(s: Seq<char>)
    requires
        forall|i: int| 0 <= i < s.len() ==> is_decimal_digit(#[trigger] s[i]),
    ensures
        digits_value(s) >= 0,
    decreases s.len(),
{
    if s.len() > 0 {
        assert(forall|i: int| 0 <= i < s.drop_last().len() ==> s.drop_last()[i] == s[i]);
        lemma_digits_value_nonneg(s.drop_last());
        assert(is_decimal_digit(s[s.len() - 1]));
    }
}

/// Reads a `u64` written in decimal, as Rust's `u64` parsing accepts it: an
/// optional `+` and at least one digit, with no other character.
pub fn parse_u64(text: &str) -> (r: Option<u64>)
    ensures
        r is Some <==> is_u64_text(text@),
        r matches Some(n) ==> n == digits_value(unsigned_digits(text@)),
{
    let len = text.unicode_len();
    let mut start: usize = 0;
    if len > 0 && text.get_char(0) == '+' {
        start = 1;
    }
    let ghost d = unsigned_digits(text@);
    assert(d =~= text@.subrange(start as int, len as int));
    if start == len {
        return None;
    }
    let mut value: u64 = 0;
    let mut i = start;
    while i < len
        invariant
            start <= i <= len,
            len == text@.len(),
            d == text@.subrange(start as int, len as int),
            d == unsigned_digits(text@),
            forall|j: int| 0 <= j < i - start ==> is_decimal_digit(#[trigger] d[j]),
            value == digits_value(d.take(i - start)),
        decreases len - i,
    {
        let c = text.get_char(i);
        assert(c == d[i - start]);
        if c < '0' || c > '9' {
            assert(!is_decimal_digit(d[i - start]));
            return None;
        }
        let digit = (c as u32 - '0' as u32) as u64;
        assert(d.take(i - start + 1).drop_last() =~= d.take(i - start));
        assert(d.take(i - start + 1).last() == c);
        if value > (u64::MAX - digit) / 10 {
            proof {
                assert(value * 10 + digit > u64::MAX) by (nonlinear_arith)
                    requires
                        value > (u64::MAX - digit) / 10,
                        digit <= 9,
                ;
                let n = (i - start + 1) as int;
                assert(digits_value(d.take(n)) == value * 10 + digit);
                assert(digits_value(d.take(n)) > u64::MAX);
                if forall|j: int| 0 <= j < d.len() ==> is_decimal_digit(#[trigger] d[j]) {
                    lemma_digits_value_grows(d, n, d.len() as int);
                    assert(d.take(d.len() as int) =~= d);
                }
            }
            return None;
        }
        assert(value * 10 + digit <= u64::MAX) by (nonlinear_arith)
            requires
                value <= (u64::MAX - digit) / 10,
                digit <= 9,
        ;
        value = value * 10 + digit;
        i = i + 1;
    }
    assert(d.take(len - start) =~= d);
    Some(value)
}

impl Config {
    /// The configuration that the program's arguments (without the program
    /// name) give: the input path (default `fake_claims.jsonl`), the ingest
    /// rate in seconds (default 1), and verbose output when any later
    /// argument is `verbose` or `v`.
    pub fn from_args(args: &Vec<String>) -> (r: Result<Config, ConfigError>)
        ensures
            r is Ok <==> (args.len() < 2 || is_u64_text(args[1]@)),
            r matches Ok(c) ==> {
                &&& c.file_path@ == if args.len() > 0 {
                    args[0]@
                } else {
                    "fake_claims.jsonl"@
                }
                &&& c.ingest_rate == if args.len() > 1 {
                    digits_value(unsigned_digits(args[1]@))
                } else {
                    1
                }
                &&& c.verbose == asks_verbose(args@)
            },
    {
        let file_path = if args.len() > 0 {
            args[0].clone()
        } else {
            String::from_str("fake_claims.jsonl")
        };
        let ingest_rate: u64 = if args.len() > 1 {
            match parse_u64(args[1].as_str()) {
                Some(n) => n,
                None => {
                    return Err(ConfigError::InvalidIngestRate);
                },
            }
        } else {
            1
        };
        let verbose_word = String::from_str("verbose");
        let short_word = String::from_str("v");
        let mut verbose = false;
        let mut i: usize = 2;
        while i < args.len()
            invariant
                2 <= i,
                verbose <==> exists|j: int|
                    2 <= j < i && j < args.len() && (args@[j]@ == "verbose"@ || args@[j]@ == "v"@),
                verbose_word@ == "verbose"@,
                short_word@ == "v"@,
            decreases args.len() - i,
        {
            if args[i] == verbose_word || args[i] == short_word {
                verbose = true;
            }
            i = i + 1;
        }
        Ok(Config { file_path, ingest_rate, verbose })
    }
}

} // verus!
