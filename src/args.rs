use vstd::prelude::*;
use vstd::string::*;
use crate::codec::{all_digits, is_digit, digits_value, lemma_digits_prefix};
use crate::session::StartConfig;

verus! {

/// What the daemon was asked to do.
#[derive(Clone, Copy, Debug, PartialEq, Eq, Structural)]
pub enum Subcommand {
    Start,
    Alive,
    Unknown,
}

#[derive(Clone, Copy, Debug, PartialEq, Eq, Structural)]
pub struct ServerConfig {
    pub command: Subcommand,
    pub start_config: StartConfig,
}

/// An argument that does not hold a number in its range.
#[derive(Clone, Copy, Debug, PartialEq, Eq, Structural)]
pub enum ArgError {
    InvalidPort,
    InvalidTimeout,
}

/// The number an unsigned decimal argument stands for: an optional `+`, then digits.
pub open spec fn unsigned_value(s: Seq<char>) -> Option<nat> {
    let d = if s.len() >= 1 && s[0] == '+' {
        s.skip(1)
    } else {
        s
    };
    if d.len() >= 1 && all_digits(d) {
        Some(digits_value(d))
    } else {
        None
    }
}

/// The value of an argument that must be a number no greater than `max`.
pub open spec fn bounded_value(s: Seq<char>, max: u64) -> Option<u64> {
    match unsigned_value(s) {
        Some(v) => if v <= max {
            Some(v as u64)
        } else {
            None
        },
        None => None,
    }
}

pub open spec fn subcommand_of(name: Option<Seq<char>>) -> Subcommand {
    if name == Some("start"@) {
        Subcommand::Start
    } else if name == Some("alive"@) {
        Subcommand::Alive
    } else {
        Subcommand::Unknown
    }
}

pub open spec fn text_view(s: Option<&str>) -> Option<Seq<char>> {
    match s {
        Some(t) => Some(t@),
        None => None,
    }
}

/// Reads an unsigned decimal argument no greater than `max`.
pub fn parse_arg(s: &str, max: u64) -> (r: Option<u64>)
    ensures
        r == bounded_value(s@, max),
{
    let len = s.unicode_len();
    let mut k: usize = 0;
    if len >= 1 && s.get_char(0) == '+' {
        k = 1;
    }
    let a = k;
    let ghost d = s@.skip(a as int);
    assert(d == if s@.len() >= 1 && s@[0] == '+' { s@.skip(1) } else { s@.skip(0) });
    assert(s@.skip(0) =~= s@);
    if a == len {
        return None;
    }
    let mut acc: u64 = 0;
    while k < len
        invariant
            len == s@.len(),
            a <= k <= len,
            a <= 1,
            d == s@.skip(a as int),
            d == (if s@.len() >= 1 && s@[0] == '+' {
                s@.skip(1)
            } else {
                s@
            }),
            d.len() >= 1,
            acc <= max,
            all_digits(s@.subrange(a as int, k as int)),
            acc as nat == digits_value(s@.subrange(a as int, k as int)),
        decreases len - k,
    {
        let c = s.get_char(k);
        let ghost p = s@.subrange(a as int, k + 1);
        assert(p.drop_last() =~= s@.subrange(a as int, k as int));
        assert(p.last() == c);
        if c < '0' || c > '9' {
            assert(d[k - a] == c);
            assert(!is_digit(d[k - a]));
            assert(!all_digits(d));
            assert(unsigned_value(s@) is None);
            return None;
        }
        let v: u64 = (c as u32 - 48) as u64;
        if acc > max / 10 || v > max || acc * 10 > max - v {
            proof {
                assert(acc * 10 + v > max) by (nonlinear_arith)
                    requires
                        acc > max / 10 || v > max || acc * 10 > max - v,
                ;
                if all_digits(d) {
                    assert(d.subrange(0, k + 1 - a) =~= p);
                    lemma_digits_prefix(d, k + 1 - a);
                    assert(digits_value(p) == acc * 10 + v);
                    assert(unsigned_value(s@) == Some(digits_value(d)));
                }
            }
            return None;
        }
        proof {
            assert(acc * 10 <= max) by (nonlinear_arith)
                requires
                    acc <= max / 10,
            ;
        }
        acc = acc * 10 + v;
        k = k + 1;
    }
    assert(s@.subrange(a as int, k as int) =~= d);
    Some(acc)
}

pub fn get_subcommand(name: Option<&str>) -> (r: Subcommand)
    ensures
        r == subcommand_of(text_view(name)),
{
    match name {
        Some(n) => {
            let whole = n.to_owned();
            if whole == String::from_str("start") {
                Subcommand::Start
            } else if whole == String::from_str("alive") {
                Subcommand::Alive
            } else {
                Subcommand::Unknown
            }
        },
        None => Subcommand::Unknown,
    }
}

pub open spec fn start_config_of(
    command: Subcommand,
    port: Option<Seq<char>>,
    timeout: Option<Seq<char>>,
    quiet: bool,
) -> Result<StartConfig, ArgError> {
    if command == Subcommand::Start {
        let pv = match port {
            Some(p) => bounded_value(p, 65535),
            None => None,
        };
        let tv = match timeout {
            Some(t) => bounded_value(t, u64::MAX),
            None => None,
        };
        match (pv, tv) {
            (Some(pv), Some(tv)) => Ok(StartConfig { port: pv as u16, timeout: tv, quiet }),
            (None, _) => Err(ArgError::InvalidPort),
            (_, None) => Err(ArgError::InvalidTimeout),
        }
    } else {
        Ok(StartConfig { port: 0, timeout: 0, quiet: false })
    }
}

/// The start configuration: read from the arguments of `start`, all zero otherwise.
pub fn start_config(
    command: Subcommand,
    port: Option<&str>,
    timeout: Option<&str>,
    quiet: bool,
) -> (r: Result<StartConfig, ArgError>)
    ensures
        r == start_config_of(command, text_view(port), text_view(timeout), quiet),
{
    if command != Subcommand::Start {
        return Ok(StartConfig { port: 0, timeout: 0, quiet: false });
    }
    let p = match port {
        Some(p) => parse_arg(p, 65535),
        None => None,
    };
    let p = match p {
        Some(p) => p,
        None => return Err(ArgError::InvalidPort),
    };
    let t = match timeout {
        Some(t) => parse_arg(t, u64::MAX),
        None => None,
    };
    match t {
        Some(t) => Ok(StartConfig { port: p as u16, timeout: t, quiet }),
        None => Err(ArgError::InvalidTimeout),
    }
}

/// The daemon's configuration from its subcommand name and the arguments given to it.
pub fn stopwatch_server_config(
    subcommand: Option<&str>,
    port: Option<&str>,
    timeout: Option<&str>,
    quiet: bool,
) -> (r: Result<ServerConfig, ArgError>)
    ensures
        r == match start_config_of(
            subcommand_of(text_view(subcommand)),
            text_view(port),
            text_view(timeout),
            quiet,
        ) {
            Ok(c) => Ok(ServerConfig { command: subcommand_of(text_view(subcommand)), start_config: c }),
            Err(e) => Err(e),
        },
{
    let command = get_subcommand(subcommand);
    match start_config(command, port, timeout, quiet) {
        Ok(c) => Ok(ServerConfig { command, start_config: c }),
        Err(e) => Err(e),
    }
}

} // verus!
