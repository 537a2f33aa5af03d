//! Process configuration, from the raw values of its three settings.
use crate::text::{texts, trim, trim_end_char, trim_end_text, trim_text};
use vstd::prelude::*;
use vstd::string::*;

verus! {

/// The endpoint list used when none is configured.
pub const DEFAULT_URLS: &'static str = "http://localhost:8083";

/// The HTTP bind address used when none is configured.
pub const DEFAULT_BIND_ADDR: &'static str = "0.0.0.0:9407";

/// The scrape interval, in seconds, used when none is configured.
pub const DEFAULT_INTERVAL_SECS: u64 = 30;

/// The pieces of `s` between commas, as `str::split(',')` yields them.
pub open spec fn split_commas(s: Seq<char>) -> Seq<Seq<char>>
    decreases s.len(),
{
    if s.len() == 0 {
        seq![Seq::empty()]
    } else {
        let rest = split_commas(s.drop_last());
        if s.last() == ',' {
            rest.push(Seq::empty())
        } else {
            rest.update(rest.len() - 1, rest.last().push(s.last()))
        }
    }
}

/// A configured base URL, trimmed and without trailing slashes.
pub open spec fn normalize_url(piece: Seq<char>) -> Seq<char> {
    trim_end_char(trim(piece), '/')
}

/// The normalized pieces that are not empty, in order.
pub open spec fn endpoints_of(pieces: Seq<Seq<char>>) -> Seq<Seq<char>>
    decreases pieces.len(),
{
    if pieces.len() == 0 {
        Seq::empty()
    } else {
        let rest = endpoints_of(pieces.drop_last());
        let u = normalize_url(pieces.last());
        if u.len() > 0 {
            rest.push(u)
        } else {
            rest
        }
    }
}

/// The endpoints that a comma-separated list names.
pub open spec fn endpoint_list(s: Seq<char>) -> Seq<Seq<char>> {
    endpoints_of(split_commas(s))
}

/// Whether `c` is one of the ASCII digits `0` to `9`.
pub open spec fn is_digit(c: char) -> bool {
    48 <= c as u32 && c as u32 <= 57
}

/// Whether every character of `s` is an ASCII digit.
pub open spec fn all_digits(s: Seq<char>) -> bool {
    forall|i: int| 0 <= i < s.len() ==> is_digit(#[trigger] s[i])
}

/// The number that the decimal digits of `s` spell.
pub open spec fn digits_value(s: Seq<char>) -> nat
    decreases s.len(),
{
    if s.len() == 0 {
        0
    } else {
        digits_value(s.drop_last()) * 10 + (s.last() as u32 - 48) as nat
    }
}

/// What `str::parse::<u64>` gives: an optional `+`, then one or more decimal
/// digits whose value fits in a `u64`.
pub open spec fn parse_u64_of(s: Seq<char>) -> Option<u64> {
    let d = if s.len() > 0 && s[0] == '+' {
        s.drop_first()
    } else {
        s
    };
    if d.len() > 0 && all_digits(d) && digits_value(d) <= u64::MAX {
        Some(digits_value(d) as u64)
    } else {
        None
    }
}

proof fn lemma_digits_value_grows(s: Seq<char>, k: int)
    requires
        0 <= k <= s.len(),
    ensures
        digits_value(s.take(k)) <= digits_value(s),
    decreases s.len(),
{
    if k < s.len() {
        assert(s.drop_last().take(k) =~= s.take(k));
        lemma_digits_value_grows(s.drop_last(), k);
    } else {
        assert(s.take(k) =~= s);
    }
}

/// Reads a `u64` as `str::parse::<u64>` does.
pub fn parse_u64(s: &str) -> (r: Option<u64>)
    ensures
        r == parse_u64_of(s@),
{
    let n = s.unicode_len();
    let mut start: usize = 0;
    if n > 0 && s.get_char(0) == '+' {
        start = 1;
    }
    let ghost d = s@.subrange(start as int, n as int);
    assert(d =~= (if s@.len() > 0 && s@[0] == '+' {
        s@.drop_first()
    } else {
        s@
    }));
    if start == n {
        return None;
    }
    let mut v: u64 = 0;
    let mut i: usize = start;
    while i < n
        invariant
            n == s@.len(),
            start <= i <= n,
            d == s@.subrange(start as int, n as int),
            d == (if s@.len() > 0 && s@[0] == '+' {
                s@.drop_first()
            } else {
                s@
            }),
            v as nat == digits_value(d.take(i - start)),
            all_digits(d.take(i - start)),
        decreases n - i,
    {
        let u = s.get_char(i) as u32;
        let ghost k = i - start;
        assert(d[k] == s@[i as int]);
        if u < 48 || u > 57 {
            assert(!is_digit(d[k]));
            assert(!all_digits(d));
            return None;
        }
        assert(d.take(k + 1).drop_last() =~= d.take(k));
        assert(all_digits(d.take(k + 1)));
        let ghost next = digits_value(d.take(k + 1));
        assert(next == v * 10 + (u - 48));
        let w = match v.checked_mul(10) {
            Some(w) => w,
            None => {
                proof {
                    lemma_digits_value_grows(d, k + 1);
                    assert(digits_value(d) > u64::MAX);
                }
                return None;
            },
        };
        v = match w.checked_add((u - 48) as u64) {
            Some(x) => x,
            None => {
                proof {
                    lemma_digits_value_grows(d, k + 1);
                    assert(digits_value(d) > u64::MAX);
                }
                return None;
            },
        };
        i = i + 1;
    }
    assert(d.take(i - start) =~= d);
    Some(v)
}

/// Appends the normalized form of `piece` where it is not empty.
fn push_endpoint(out: &mut Vec<String>, piece: &str)
    ensures
        texts(final(out)@) == if normalize_url(piece@).len() > 0 {
            texts(old(out)@).push(normalize_url(piece@))
        } else {
            texts(old(out)@)
        },
{
    let trimmed = trim_text(piece);
    let url = trim_end_text(trimmed.as_str(), '/');
    if url.as_str().unicode_len() > 0 {
        let ghost before = texts(out@);
        out.push(url);
        assert(texts(out@) =~= before.push(normalize_url(piece@)));
    }
}

/// The endpoints of a comma-separated list: each piece trimmed of white
/// space and trailing slashes, empty pieces left out.
pub fn parse_endpoint_list(s: &str) -> (r: Vec<String>)
    ensures
        texts(r@) == endpoint_list(s@),
{
    let n = s.unicode_len();
    let mut out: Vec<String> = Vec::new();
    let mut start: usize = 0;
    let mut i: usize = 0;
    let ghost mut done: Seq<Seq<char>> = Seq::empty();
    assert(s@.take(0) =~= Seq::<char>::empty());
    assert(s@.subrange(0, 0) =~= Seq::<char>::empty());
    assert(texts(out@) =~= Seq::<Seq<char>>::empty());
    while i < n
        invariant
            n == s@.len(),
            start <= i <= n,
            split_commas(s@.take(i as int)) == done.push(s@.subrange(start as int, i as int)),
            texts(out@) == endpoints_of(done),
        decreases n - i,
    {
        assert(s@.take(i + 1).drop_last() =~= s@.take(i as int));
        assert(s@.take(i + 1).last() == s@[i as int]);
        let ghost piece = s@.subrange(start as int, i as int);
        if s.get_char(i) == ',' {
            push_endpoint(&mut out, s.substring_char(start, i));
            proof {
                assert(done.push(piece).drop_last() =~= done);
                done = done.push(piece);
            }
            start = i + 1;
            assert(s@.subrange(start as int, i + 1) =~= Seq::<char>::empty());
        } else {
            assert(s@.subrange(start as int, i + 1) =~= piece.push(s@[i as int]));
            assert(done.push(piece).update(done.len() as int, piece.push(s@[i as int]))
                =~= done.push(s@.subrange(start as int, i + 1)));
        }
        i = i + 1;
    }
    assert(s@.take(n as int) =~= s@);
    let ghost last = s@.subrange(start as int, n as int);
    push_endpoint(&mut out, s.substring_char(start, n));
    assert(done.push(last).drop_last() =~= done);
    out
}

/// Why the configuration was refused.
#[derive(Debug, Clone, Copy, PartialEq, Eq, Structural)]
pub enum ConfigError {
    /// The scrape interval is set but is not a number of seconds.
    InvalidInterval,
}

/// The process configuration.
#[derive(Debug)]
pub struct Config {
    /// The endpoints to poll, normalized, in the configured order.
    pub connect_urls: Vec<String>,
    /// Where the HTTP surface listens.
    pub bind_addr: String,
    /// Seconds between the starts of two scrape cycles.
    pub scrape_interval_secs: u64,
}

impl Config {
    /// The configuration from the raw values of the three settings, each
    /// `None` where it is not set and then given its default. An interval
    /// that is set but does not read as a `u64` is refused.
    pub fn from_values(urls: Option<&str>, bind_addr: Option<&str>, interval: Option<&str>) -> (r:
        Result<Config, ConfigError>)
        ensures
            r is Err <==> (interval is Some && parse_u64_of(interval->Some_0@) is None),
            r is Err ==> r->Err_0 == ConfigError::InvalidInterval,
            r is Ok ==> texts(r->Ok_0.connect_urls@) == endpoint_list(
                match urls {
                    Some(u) => u@,
                    None => DEFAULT_URLS@,
                },
            ),
            r is Ok ==> r->Ok_0.bind_addr@ == match bind_addr {
                Some(b) => b@,
                None => DEFAULT_BIND_ADDR@,
            },
            r is Ok ==> r->Ok_0.scrape_interval_secs == match interval {
                Some(t) => parse_u64_of(t@)->Some_0,
                None => DEFAULT_INTERVAL_SECS,
            },
    {
        let scrape_interval_secs = match interval {
            Some(t) => match parse_u64(t) {
                Some(v) => v,
                None => return Err(ConfigError::InvalidInterval),
            },
            None => DEFAULT_INTERVAL_SECS,
        };
        let connect_urls = match urls {
            Some(u) => parse_endpoint_list(u),
            None => parse_endpoint_list(DEFAULT_URLS),
        };
        let bind_addr = match bind_addr {
            Some(b) => String::from_str(b),
            None => String::from_str(DEFAULT_BIND_ADDR),
        };
        Ok(Config { connect_urls, bind_addr, scrape_interval_secs })
    }
}

/// The wait after a scrape cycle that took `elapsed_ms` milliseconds, so
/// that cycles start every `interval_ms` milliseconds; none where the cycle
/// overran, so that the next one starts at once.
pub fn next_delay_ms(interval_ms: u64, elapsed_ms: u64) -> (r: u64)
    ensures
        r == if elapsed_ms >= interval_ms {
            0
        } else {
            (interval_ms - elapsed_ms) as u64
        },
{
    if elapsed_ms >= interval_ms {
        0
    } else {
        interval_ms - elapsed_ms
    }
}

} // verus!
