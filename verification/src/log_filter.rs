//! Run-time logging decisions.
//!
//! When the synthesized initialization code runs, the logger's filter
//! directive is resolved from two sources: an environment-supplied value,
//! which always wins, and the per-test `default_log_filter`, used as the
//! fallback; with neither present the filter is `info`.  For a plain
//! level-name directive, a record is emitted exactly when its severity is
//! at or below the configured level (the boundary is inclusive: a `debug`
//! filter enables `debug` records and disables `trace` records).  This
//! module also forms the output path for the optional per-test span-timing
//! recording.

use vstd::prelude::*;

use crate::text::copy_bytes;
use crate::text::lower;
use crate::text::bytes_eq;
use crate::rewrite::kw_info;

verus! {

/// The resolved filter directive: the environment value when present,
/// else the configured default, else `info`.
pub open spec fn spec_resolve_log_filter(env_filter: Option<Seq<u8>>, default_filter: Option<Seq<u8>>) -> Seq<u8> {
    match env_filter {
        Some(e) => e,
        None => match default_filter {
            Some(d) => d,
            None => kw_info(),
        },
    }
}

/// Resolves the logger's filter directive: an environment-supplied value
/// overrides the per-test default; with neither present the filter is
/// `info`.
pub fn resolve_log_filter(env_filter: Option<&Vec<u8>>, default_filter: Option<&Vec<u8>>) -> (r:
    Vec<u8>)
    ensures
        r@ == spec_resolve_log_filter(
            match env_filter {
                Some(e) => Some(e@),
                None => None,
            },
            match default_filter {
                Some(d) => Some(d@),
                None => None,
            },
        ),
{
    match env_filter {
        Some(e) => copy_bytes(e.as_slice()),
        None => match default_filter {
            Some(d) => copy_bytes(d.as_slice()),
            None => {
                let mut v: Vec<u8> = Vec::new();
                v.push(105);
                v.push(110);
                v.push(102);
                v.push(111);
                proof {
                    assert(v@ =~= kw_info());
                }
                v
            },
        },
    }
}

/// A logging level, ordered by verbosity: `Off` admits nothing, `Trace`
/// admits everything.
#[derive(Clone, Copy, PartialEq, Eq, Structural, Debug)]
pub enum LogLevel {
    Off,
    Error,
    Warn,
    Info,
    Debug,
    Trace,
}

/// The rank of a level: higher ranks are more verbose.
pub open spec fn level_rank(l: LogLevel) -> int {
    match l {
        LogLevel::Off => 0,
        LogLevel::Error => 1,
        LogLevel::Warn => 2,
        LogLevel::Info => 3,
        LogLevel::Debug => 4,
        LogLevel::Trace => 5,
    }
}

/// The name of the `off` directive.
pub open spec fn kw_off() -> Seq<u8> {
    seq![111, 102, 102]
}

/// The name of the `error` directive.
pub open spec fn kw_error() -> Seq<u8> {
    seq![101, 114, 114, 111, 114]
}

/// The name of the `warn` directive.
pub open spec fn kw_warn() -> Seq<u8> {
    seq![119, 97, 114, 110]
}

/// The name of the `debug` directive.
pub open spec fn kw_debug() -> Seq<u8> {
    seq![100, 101, 98, 117, 103]
}

/// The name of the `trace` directive.
pub open spec fn kw_trace() -> Seq<u8> {
    seq![116, 114, 97, 99, 101]
}

/// The level named by a plain directive, compared case-insensitively, or
/// `None` for anything that is not a plain level name.
pub open spec fn spec_parse_level(s: Seq<u8>) -> Option<LogLevel> {
    let t = lower(s);
    if t == kw_off() {
        Some(LogLevel::Off)
    } else if t == kw_error() {
        Some(LogLevel::Error)
    } else if t == kw_warn() {
        Some(LogLevel::Warn)
    } else if t == kw_info() {
        Some(LogLevel::Info)
    } else if t == kw_debug() {
        Some(LogLevel::Debug)
    } else if t == kw_trace() {
        Some(LogLevel::Trace)
    } else {
        None
    }
}

/// Parses a plain level-name directive, case-insensitively.
pub fn parse_level(s: &Vec<u8>) -> (r: Option<LogLevel>)
    ensures
        r == spec_parse_level(s@),
{
    let mut t: Vec<u8> = Vec::new();
    let mut i: usize = 0;
    while i < s.len()
        invariant
            i <= s@.len(),
            t@.len() == i,
            forall|j: int| 0 <= j < i ==> t@[j] == crate::text::lower_byte(s@[j]),
        decreases s@.len() - i,
    {
        let b = s[i];
        if 65 <= b && b <= 90 {
            t.push(b + 32);
        } else {
            t.push(b);
        }
        i = i + 1;
    }
    proof {
        assert(t@ =~= lower(s@));
    }
    let kw = level_kw_off();
    if bytes_eq(t.as_slice(), kw.as_slice()) {
        return Some(LogLevel::Off);
    }
    let kw = level_kw_error();
    if bytes_eq(t.as_slice(), kw.as_slice()) {
        return Some(LogLevel::Error);
    }
    let kw = level_kw_warn();
    if bytes_eq(t.as_slice(), kw.as_slice()) {
        return Some(LogLevel::Warn);
    }
    let kw = level_kw_info();
    if bytes_eq(t.as_slice(), kw.as_slice()) {
        return Some(LogLevel::Info);
    }
    let kw = level_kw_debug();
    if bytes_eq(t.as_slice(), kw.as_slice()) {
        return Some(LogLevel::Debug);
    }
    let kw = level_kw_trace();
    if bytes_eq(t.as_slice(), kw.as_slice()) {
        return Some(LogLevel::Trace);
    }
    None
}

fn level_kw_off() -> (v: Vec<u8>)
    ensures
        v@ == kw_off(),
{
    let mut v: Vec<u8> = Vec::new();
    v.push(111);
    v.push(102);
    v.push(102);
    proof {
        assert(v@ =~= kw_off());
    }
    v
}

fn level_kw_error() -> (v: Vec<u8>)
    ensures
        v@ == kw_error(),
{
    let mut v: Vec<u8> = Vec::new();
    v.push(101);
    v.push(114);
    v.push(114);
    v.push(111);
    v.push(114);
    proof {
        assert(v@ =~= kw_error());
    }
    v
}

fn level_kw_warn() -> (v: Vec<u8>)
    ensures
        v@ == kw_warn(),
{
    let mut v: Vec<u8> = Vec::new();
    v.push(119);
    v.push(97);
    v.push(114);
    v.push(110);
    proof {
        assert(v@ =~= kw_warn());
    }
    v
}

fn level_kw_info() -> (v: Vec<u8>)
    ensures
        v@ == kw_info(),
{
    let mut v: Vec<u8> = Vec::new();
    v.push(105);
    v.push(110);
    v.push(102);
    v.push(111);
    proof {
        assert(v@ =~= kw_info());
    }
    v
}

fn level_kw_debug() -> (v: Vec<u8>)
    ensures
        v@ == kw_debug(),
{
    let mut v: Vec<u8> = Vec::new();
    v.push(100);
    v.push(101);
    v.push(98);
    v.push(117);
    v.push(103);
    proof {
        assert(v@ =~= kw_debug());
    }
    v
}

fn level_kw_trace() -> (v: Vec<u8>)
    ensures
        v@ == kw_trace(),
{
    let mut v: Vec<u8> = Vec::new();
    v.push(116);
    v.push(114);
    v.push(97);
    v.push(99);
    v.push(101);
    proof {
        assert(v@ =~= kw_trace());
    }
    v
}

/// Whether a record of severity `level` is emitted under a plain
/// level-name filter `max_level`: exactly when the record's rank is
/// positive and at most the filter's rank.  The boundary is inclusive: a
/// `debug` filter enables `debug` and disables `trace`.
pub fn level_enabled(max_level: LogLevel, level: LogLevel) -> (r: bool)
    ensures
        r == (1 <= level_rank(level) <= level_rank(max_level)),
{
    let lr = level_rank_exec(level);
    let mr = level_rank_exec(max_level);
    1 <= lr && lr <= mr
}

/// `level_rank`, as a run-time value.
fn level_rank_exec(l: LogLevel) -> (r: u8)
    ensures
        r as int == level_rank(l),
{
    match l {
        LogLevel::Off => 0,
        LogLevel::Error => 1,
        LogLevel::Warn => 2,
        LogLevel::Info => 3,
        LogLevel::Debug => 4,
        LogLevel::Trace => 5,
    }
}

/// The `.folded` suffix of a span-timing output file.
pub open spec fn folded_suffix() -> Seq<u8> {
    seq![46, 102, 111, 108, 100, 101, 100]
}

/// The output path for a test's span-timing recording: the configured
/// base directory, a path separator, the test's name, and the `.folded`
/// suffix.
pub fn flame_output_path(base: &Vec<u8>, name: &Vec<u8>) -> (r: Vec<u8>)
    ensures
        r@ == base@ + seq![47u8] + name@ + folded_suffix(),
{
    let mut r = copy_bytes(base.as_slice());
    r.push(47);
    let mut i: usize = 0;
    while i < name.len()
        invariant
            i <= name@.len(),
            r@ == base@ + seq![47u8] + name@.take(i as int),
        decreases name@.len() - i,
    {
        r.push(name[i]);
        proof {
            assert(base@ + seq![47u8] + name@.take(i as int + 1) =~= (base@ + seq![47u8]
                + name@.take(i as int)).push(name@[i as int]));
        }
        i = i + 1;
    }
    proof {
        assert(name@.take(name@.len() as int) =~= name@);
    }
    r.push(46);
    r.push(102);
    r.push(111);
    r.push(108);
    r.push(100);
    r.push(101);
    r.push(100);
    proof {
        assert(r@ =~= base@ + seq![47u8] + name@ + folded_suffix());
    }
    r
}

} // verus!
