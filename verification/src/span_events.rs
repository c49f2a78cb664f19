//! The span-event filter evaluator.
//!
//! At test-run time the initialization code reads an environment variable
//! holding a comma-separated, case-insensitive list of span lifecycle tokens
//! (`new`, `enter`, `exit`, `close`, `active`, `full`).  This module turns
//! such a byte string into the set of lifecycle events to report: the union
//! of the per-token event sets, independent of token order and duplicates.
//! An unrecognized token is a fatal configuration error that names both the
//! token and the full offending value; an absent or empty value yields the
//! empty set.

use vstd::prelude::*;

use crate::text::is_ws;
use crate::text::lower;
use crate::text::lower_byte;
use crate::text::trim;
use crate::text::trim_end;
use crate::text::trim_start;
use crate::text::bytes_eq;
use crate::text::copy_bytes;

verus! {

/// The set of span lifecycle events that the tracing subscriber reports.
#[derive(Clone, Copy, PartialEq, Eq, Structural, Debug)]
pub struct SpanEvents {
    pub new: bool,
    pub enter: bool,
    pub exit: bool,
    pub close: bool,
}

impl SpanEvents {
    /// The empty set: no lifecycle events are reported.
    pub open spec fn spec_empty() -> SpanEvents {
        SpanEvents { new: false, enter: false, exit: false, close: false }
    }

    /// The union of two event sets.
    pub open spec fn union(self, other: SpanEvents) -> SpanEvents {
        SpanEvents {
            new: self.new || other.new,
            enter: self.enter || other.enter,
            exit: self.exit || other.exit,
            close: self.close || other.close,
        }
    }

    /// The empty set, as a value.
    pub fn empty() -> (r: SpanEvents)
        ensures
            r == SpanEvents::spec_empty(),
    {
        SpanEvents { new: false, enter: false, exit: false, close: false }
    }

    /// Combines two event sets.
    pub fn or(self, other: SpanEvents) -> (r: SpanEvents)
        ensures
            r == self.union(other),
    {
        SpanEvents {
            new: self.new || other.new,
            enter: self.enter || other.enter,
            exit: self.exit || other.exit,
            close: self.close || other.close,
        }
    }
}

/// The token that selects span-creation events.
pub open spec fn kw_new() -> Seq<u8> {
    seq![110, 101, 119]
}

/// The token that selects span-entry events.
pub open spec fn kw_enter() -> Seq<u8> {
    seq![101, 110, 116, 101, 114]
}

/// The token that selects span-exit events.
pub open spec fn kw_exit() -> Seq<u8> {
    seq![101, 120, 105, 116]
}

/// The token that selects span-closure events.
pub open spec fn kw_close() -> Seq<u8> {
    seq![99, 108, 111, 115, 101]
}

/// The token that selects entry and exit events together.
pub open spec fn kw_active() -> Seq<u8> {
    seq![97, 99, 116, 105, 118, 101]
}

/// The token that selects all four lifecycle events.
pub open spec fn kw_full() -> Seq<u8> {
    seq![102, 117, 108, 108]
}

/// The event set a single canonical (trimmed, lower-cased) token stands for,
/// or `None` if the token is not recognized.
pub open spec fn token_events(t: Seq<u8>) -> Option<SpanEvents> {
    if t == kw_new() {
        Some(SpanEvents { new: true, enter: false, exit: false, close: false })
    } else if t == kw_enter() {
        Some(SpanEvents { new: false, enter: true, exit: false, close: false })
    } else if t == kw_exit() {
        Some(SpanEvents { new: false, enter: false, exit: true, close: false })
    } else if t == kw_close() {
        Some(SpanEvents { new: false, enter: false, exit: false, close: true })
    } else if t == kw_active() {
        Some(SpanEvents { new: false, enter: true, exit: true, close: false })
    } else if t == kw_full() {
        Some(SpanEvents { new: true, enter: true, exit: true, close: true })
    } else {
        None
    }
}

/// The event set of a token, with unrecognized tokens contributing nothing.
pub open spec fn events_or_empty(t: Seq<u8>) -> SpanEvents {
    match token_events(t) {
        Some(e) => e,
        None => SpanEvents::spec_empty(),
    }
}

/// The index of the first comma in `s`, or `s.len()` if there is none.
pub open spec fn find_comma(s: Seq<u8>) -> nat
    decreases s.len(),
{
    if s.len() == 0 {
        0
    } else if s[0] == 44 {
        0
    } else {
        (1 + find_comma(s.drop_first())) as nat
    }
}

/// `s` split at its commas; a string without commas is a single segment,
/// so the empty string splits into one empty segment.
pub open spec fn split_commas(s: Seq<u8>) -> Seq<Seq<u8>>
    decreases s.len(),
{
    let i = find_comma(s) as int;
    if i >= s.len() {
        seq![s]
    } else {
        seq![s.subrange(0, i)] + split_commas(s.subrange(i + 1, s.len() as int))
    }
}

/// The canonical tokens of a filter string: split at commas, each segment
/// trimmed of whitespace and lower-cased.
pub open spec fn canon_tokens(s: Seq<u8>) -> Seq<Seq<u8>> {
    split_commas(s).map_values(|t: Seq<u8>| lower(trim(t)))
}

/// The union of the event sets of all tokens in the list.
pub open spec fn events_of(toks: Seq<Seq<u8>>) -> SpanEvents
    decreases toks.len(),
{
    if toks.len() == 0 {
        SpanEvents::spec_empty()
    } else {
        events_of(toks.drop_last()).union(events_or_empty(toks.last()))
    }
}

/// Whether every token in the list is recognized.
pub open spec fn all_recognized(toks: Seq<Seq<u8>>) -> bool {
    forall|i: int| 0 <= i < toks.len() ==> (#[trigger] token_events(toks[i])) is Some
}

/// The first unrecognized token of the list (the empty string if all are
/// recognized).
pub open spec fn first_unrecognized(toks: Seq<Seq<u8>>) -> Seq<u8>
    decreases toks.len(),
{
    if toks.len() == 0 {
        Seq::empty()
    } else if token_events(toks[0]) is None {
        toks[0]
    } else {
        first_unrecognized(toks.drop_first())
    }
}

/// The error reported for a filter string holding an unrecognized token:
/// it names the offending token and carries the full original value.
#[derive(Debug)]
pub struct EventFilterError {
    /// The first token (trimmed, lower-cased) that is not recognized.
    pub token: Vec<u8>,
    /// The full value the token was found in, unchanged.
    pub input: Vec<u8>,
}

/// What evaluating a filter string `s` must yield: the empty set for an
/// empty value; the union of the token event sets when every token is
/// recognized; and otherwise an error naming the first unrecognized token
/// and the full input.
pub open spec fn event_filter_post(s: Seq<u8>, r: Result<SpanEvents, EventFilterError>) -> bool {
    &&& (s.len() == 0 ==> r == Result::<SpanEvents, EventFilterError>::Ok(
        SpanEvents::spec_empty(),
    ))
    &&& (s.len() > 0 ==> match r {
        Result::Ok(m) => all_recognized(canon_tokens(s)) && m == events_of(canon_tokens(s)),
        Result::Err(e) => !all_recognized(canon_tokens(s)) && e.token@ == first_unrecognized(
            canon_tokens(s),
        ) && e.input@ == s,
    })
}

/// Where `find_comma` points: at the first comma, or at the end when there
/// is none.
pub proof fn lemma_find_comma(s: Seq<u8>)
    ensures
        find_comma(s) <= s.len(),
        forall|j: int| 0 <= j < find_comma(s) ==> s[j] != 44u8,
        find_comma(s) < s.len() ==> s[find_comma(s) as int] == 44u8,
    decreases s.len(),
{
    if s.len() == 0 {
    } else if s[0] == 44 {
    } else {
        lemma_find_comma(s.drop_first());
        assert forall|j: int| 0 <= j < find_comma(s) implies s[j] != 44u8 by {
            if j > 0 {
                assert(s.drop_first()[j - 1] == s[j]);
            }
        }
    }
}

/// A flag of the combined event set is set exactly when some token of the
/// list sets it.  `f` reads one flag: it must be clear on the empty set and
/// distribute over union.
proof fn lemma_flag_of_events(toks: Seq<Seq<u8>>, f: spec_fn(SpanEvents) -> bool)
    requires
        !f(SpanEvents::spec_empty()),
        forall|a: SpanEvents, b: SpanEvents| f(#[trigger] a.union(b)) == (f(a) || f(b)),
    ensures
        f(events_of(toks)) == exists|i: int|
            0 <= i < toks.len() && f(#[trigger] events_or_empty(toks[i])),
    decreases toks.len(),
{
    if toks.len() == 0 {
    } else {
        let head = toks.drop_last();
        lemma_flag_of_events(head, f);
        if f(events_of(toks)) {
            if f(events_of(head)) {
                let i = choose|i: int| 0 <= i < head.len() && f(events_or_empty(head[i]));
                assert(toks[i] == head[i]);
                assert(f(events_or_empty(toks[i])));
            } else {
                assert(f(events_or_empty(toks[toks.len() - 1])));
            }
        }
        if exists|i: int| 0 <= i < toks.len() && f(#[trigger] events_or_empty(toks[i])) {
            let i = choose|i: int| 0 <= i < toks.len() && f(events_or_empty(toks[i]));
            if i < toks.len() - 1 {
                assert(head[i] == toks[i]);
                assert(f(events_of(head)));
            } else {
                assert(f(events_or_empty(toks.last())));
            }
            assert(f(events_of(toks)));
        }
    }
}

/// The combined event set, read member-wise: each lifecycle flag is set
/// exactly when some token of the list sets it, so the whole is the union
/// of the per-token event sets.
pub proof fn lemma_events_of_membership(toks: Seq<Seq<u8>>)
    ensures
        events_of(toks).new == exists|i: int|
            0 <= i < toks.len() && (#[trigger] events_or_empty(toks[i])).new,
        events_of(toks).enter == exists|i: int|
            0 <= i < toks.len() && (#[trigger] events_or_empty(toks[i])).enter,
        events_of(toks).exit == exists|i: int|
            0 <= i < toks.len() && (#[trigger] events_or_empty(toks[i])).exit,
        events_of(toks).close == exists|i: int|
            0 <= i < toks.len() && (#[trigger] events_or_empty(toks[i])).close,
{
    lemma_flag_of_events(toks, |e: SpanEvents| e.new);
    lemma_flag_of_events(toks, |e: SpanEvents| e.enter);
    lemma_flag_of_events(toks, |e: SpanEvents| e.exit);
    lemma_flag_of_events(toks, |e: SpanEvents| e.close);
}

/// One flag of the union, stated over token membership instead of position.
proof fn lemma_flag_set_determined(t1: Seq<Seq<u8>>, t2: Seq<Seq<u8>>, f: spec_fn(SpanEvents) -> bool)
    requires
        t1.to_set() == t2.to_set(),
        !f(SpanEvents::spec_empty()),
        forall|a: SpanEvents, b: SpanEvents| f(#[trigger] a.union(b)) == (f(a) || f(b)),
    ensures
        f(events_of(t1)) == f(events_of(t2)),
{
    lemma_flag_of_events(t1, f);
    lemma_flag_of_events(t2, f);
    if exists|i: int| 0 <= i < t1.len() && f(#[trigger] events_or_empty(t1[i])) {
        let i = choose|i: int| 0 <= i < t1.len() && f(events_or_empty(t1[i]));
        assert(t1.contains(t1[i]));
        assert(t2.to_set().contains(t1[i]));
        assert(t2.contains(t1[i]));
        let j = choose|j: int| 0 <= j < t2.len() && t2[j] == t1[i];
        assert(f(events_or_empty(t2[j])));
    }
    if exists|i: int| 0 <= i < t2.len() && f(#[trigger] events_or_empty(t2[i])) {
        let i = choose|i: int| 0 <= i < t2.len() && f(events_or_empty(t2[i]));
        assert(t2.contains(t2[i]));
        assert(t1.to_set().contains(t2[i]));
        assert(t1.contains(t2[i]));
        let j = choose|j: int| 0 <= j < t1.len() && t1[j] == t2[i];
        assert(f(events_or_empty(t1[j])));
    }
}

/// The combined event set depends only on which tokens occur in the list,
/// never on their order or on how often each occurs: two token lists with
/// the same underlying set yield the same event set.
pub proof fn lemma_events_of_set_determined(t1: Seq<Seq<u8>>, t2: Seq<Seq<u8>>)
    requires
        t1.to_set() == t2.to_set(),
    ensures
        events_of(t1) == events_of(t2),
{
    lemma_flag_set_determined(t1, t2, |e: SpanEvents| e.new);
    lemma_flag_set_determined(t1, t2, |e: SpanEvents| e.enter);
    lemma_flag_set_determined(t1, t2, |e: SpanEvents| e.exit);
    lemma_flag_set_determined(t1, t2, |e: SpanEvents| e.close);
}

/// Evaluating a filter string is order- and duplicate-insensitive: if two
/// strings canonicalize to the same set of tokens, their event sets agree.
pub proof fn lemma_filter_order_insensitive(s1: Seq<u8>, s2: Seq<u8>)
    requires
        canon_tokens(s1).to_set() == canon_tokens(s2).to_set(),
    ensures
        events_of(canon_tokens(s1)) == events_of(canon_tokens(s2)),
{
    lemma_events_of_set_determined(canon_tokens(s1), canon_tokens(s2));
}

/// When the tokens before position `k` are all recognized and the token at
/// `k` is not, that token is the first unrecognized one of the list.
proof fn lemma_first_unrecognized_at(toks: Seq<Seq<u8>>, k: int)
    requires
        0 <= k < toks.len(),
        forall|i: int| 0 <= i < k ==> (#[trigger] token_events(toks[i])) is Some,
        token_events(toks[k]) is None,
    ensures
        first_unrecognized(toks) == toks[k],
        !all_recognized(toks),
    decreases k,
{
    if k == 0 {
    } else {
        let rest = toks.drop_first();
        assert(forall|i: int| 0 <= i < k - 1 ==> rest[i] == toks[i + 1]);
        lemma_first_unrecognized_at(rest, k - 1);
    }
}

/// `is_ws`, as a run-time test.
fn is_ws_byte(b: u8) -> (r: bool)
    ensures
        r == is_ws(b),
{
    b == 32 || b == 9 || b == 10 || b == 13 || b == 11 || b == 12
}

/// `lower_byte`, as a run-time conversion.
fn lower_byte_exec(b: u8) -> (r: u8)
    ensures
        r == lower_byte(b),
{
    if 65 <= b && b <= 90 {
        b + 32
    } else {
        b
    }
}

/// The canonical form of the segment `s[lo..hi]`: whitespace trimmed from
/// both ends, then lower-cased.
fn canon_token(s: &[u8], lo: usize, hi: usize) -> (r: Vec<u8>)
    requires
        lo <= hi <= s@.len(),
    ensures
        r@ == lower(trim(s@.subrange(lo as int, hi as int))),
{
    let ghost seg = s@.subrange(lo as int, hi as int);
    let mut a = lo;
    let mut b = hi;
    while a < b && is_ws_byte(s[a])
        invariant
            lo <= a <= b,
            b == hi <= s@.len(),
            trim_start(seg) == trim_start(s@.subrange(a as int, hi as int)),
        decreases b - a,
    {
        proof {
            let cur = s@.subrange(a as int, hi as int);
            assert(cur.drop_first() =~= s@.subrange(a as int + 1, hi as int));
        }
        a = a + 1;
    }
    proof {
        let cur = s@.subrange(a as int, hi as int);
        assert(trim_start(seg) == cur);
    }
    while b > a && is_ws_byte(s[b - 1])
        invariant
            lo <= a <= b <= hi <= s@.len(),
            trim_start(seg) == s@.subrange(a as int, hi as int),
            trim_end(s@.subrange(a as int, hi as int)) == trim_end(s@.subrange(a as int, b as int)),
        decreases b,
    {
        proof {
            let cur = s@.subrange(a as int, b as int);
            assert(cur.drop_last() =~= s@.subrange(a as int, b as int - 1));
        }
        b = b - 1;
    }
    proof {
        let cur = s@.subrange(a as int, b as int);
        assert(trim(seg) == cur);
    }
    let mut r: Vec<u8> = Vec::new();
    let mut i = a;
    while i < b
        invariant
            a <= i <= b <= s@.len(),
            r@.len() == i - a,
            forall|j: int| 0 <= j < r@.len() ==> r@[j] == lower_byte(s@[a + j]),
        decreases b - i,
    {
        r.push(lower_byte_exec(s[i]));
        i = i + 1;
    }
    proof {
        assert(r@ =~= lower(s@.subrange(a as int, b as int)));
    }
    r
}

/// Builds the `new` keyword.
fn kw_new_vec() -> (v: Vec<u8>)
    ensures
        v@ == kw_new(),
{
    let mut v: Vec<u8> = Vec::new();
    v.push(110);
    v.push(101);
    v.push(119);
    proof {
        assert(v@ =~= kw_new());
    }
    v
}

/// Builds the `enter` keyword.
fn kw_enter_vec() -> (v: Vec<u8>)
    ensures
        v@ == kw_enter(),
{
    let mut v: Vec<u8> = Vec::new();
    v.push(101);
    v.push(110);
    v.push(116);
    v.push(101);
    v.push(114);
    proof {
        assert(v@ =~= kw_enter());
    }
    v
}

/// Builds the `exit` keyword.
fn kw_exit_vec() -> (v: Vec<u8>)
    ensures
        v@ == kw_exit(),
{
    let mut v: Vec<u8> = Vec::new();
    v.push(101);
    v.push(120);
    v.push(105);
    v.push(116);
    proof {
        assert(v@ =~= kw_exit());
    }
    v
}

/// Builds the `close` keyword.
fn kw_close_vec() -> (v: Vec<u8>)
    ensures
        v@ == kw_close(),
{
    let mut v: Vec<u8> = Vec::new();
    v.push(99);
    v.push(108);
    v.push(111);
    v.push(115);
    v.push(101);
    proof {
        assert(v@ =~= kw_close());
    }
    v
}

/// Builds the `active` keyword.
fn kw_active_vec() -> (v: Vec<u8>)
    ensures
        v@ == kw_active(),
{
    let mut v: Vec<u8> = Vec::new();
    v.push(97);
    v.push(99);
    v.push(116);
    v.push(105);
    v.push(118);
    v.push(101);
    proof {
        assert(v@ =~= kw_active());
    }
    v
}

/// Builds the `full` keyword.
fn kw_full_vec() -> (v: Vec<u8>)
    ensures
        v@ == kw_full(),
{
    let mut v: Vec<u8> = Vec::new();
    v.push(102);
    v.push(117);
    v.push(108);
    v.push(108);
    proof {
        assert(v@ =~= kw_full());
    }
    v
}

/// Recognizes one canonical token and returns its event set.
pub fn classify_token(t: &[u8]) -> (r: Option<SpanEvents>)
    ensures
        r == token_events(t@),
{
    let kw = kw_new_vec();
    if bytes_eq(t, kw.as_slice()) {
        return Some(SpanEvents { new: true, enter: false, exit: false, close: false });
    }
    let kw = kw_enter_vec();
    if bytes_eq(t, kw.as_slice()) {
        return Some(SpanEvents { new: false, enter: true, exit: false, close: false });
    }
    let kw = kw_exit_vec();
    if bytes_eq(t, kw.as_slice()) {
        return Some(SpanEvents { new: false, enter: false, exit: true, close: false });
    }
    let kw = kw_close_vec();
    if bytes_eq(t, kw.as_slice()) {
        return Some(SpanEvents { new: false, enter: false, exit: false, close: true });
    }
    let kw = kw_active_vec();
    if bytes_eq(t, kw.as_slice()) {
        return Some(SpanEvents { new: false, enter: true, exit: true, close: false });
    }
    let kw = kw_full_vec();
    if bytes_eq(t, kw.as_slice()) {
        return Some(SpanEvents { new: true, enter: true, exit: true, close: true });
    }
    None
}

/// The position of the first comma of `s` at or after `start`.
fn next_comma(s: &[u8], start: usize) -> (r: usize)
    requires
        start <= s@.len(),
    ensures
        start <= r <= s@.len(),
        r - start == find_comma(s@.skip(start as int)),
{
    let mut i = start;
    while i < s.len() && s[i] != 44
        invariant
            start <= i <= s@.len(),
            find_comma(s@.skip(start as int)) == (i - start) + find_comma(s@.skip(i as int)),
        decreases s@.len() - i,
    {
        proof {
            let cur = s@.skip(i as int);
            assert(cur.drop_first() =~= s@.skip(i as int + 1));
        }
        i = i + 1;
    }
    proof {
        if i < s@.len() {
            assert(find_comma(s@.skip(i as int)) == 0);
        } else {
            assert(s@.skip(i as int) =~= Seq::<u8>::empty());
        }
    }
    i
}

/// Evaluates a span-event filter string: splits it at commas, trims and
/// lower-cases each token, and unions the event sets of the tokens.  An
/// empty string yields the empty set.  The first unrecognized token is
/// reported as an error naming the token and the full input.
pub fn parse_event_filter(value: &[u8]) -> (r: Result<SpanEvents, EventFilterError>)
    ensures
        event_filter_post(value@, r),
{
    if value.len() == 0 {
        return Ok(SpanEvents::empty());
    }
    let ghost raw = split_commas(value@);
    let ghost toks = canon_tokens(value@);
    let mut acc = SpanEvents::empty();
    let mut start: usize = 0;
    let ghost mut k: int = 0;
    proof {
        assert(value@.skip(0) =~= value@);
        assert(raw.skip(0) =~= raw);
    }
    loop
        invariant_except_break
            start <= value@.len(),
            0 <= k < raw.len(),
            toks == canon_tokens(value@),
            raw == split_commas(value@),
            toks.len() == raw.len(),
            split_commas(value@.skip(start as int)) == raw.skip(k),
            acc == events_of(toks.take(k)),
            forall|i: int| 0 <= i < k ==> (#[trigger] token_events(toks[i])) is Some,
            value@.len() > 0,
        ensures
            acc == events_of(toks),
            all_recognized(toks),
        decreases value@.len() - start,
    {
        let end = next_comma(value, start);
        let ghost remaining = value@.skip(start as int);
        let ghost seg = value@.subrange(start as int, end as int);
        proof {
            lemma_find_comma(remaining);
            if (end as int) < value@.len() {
                assert(find_comma(remaining) < remaining.len());
                assert(remaining.subrange(0, find_comma(remaining) as int) =~= seg);
                assert(remaining.subrange(
                    find_comma(remaining) as int + 1,
                    remaining.len() as int,
                ) =~= value@.skip(end as int + 1));
                assert(raw.skip(k)[0] == seg);
                assert(raw.skip(k) == raw.subrange(k, raw.len() as int));
                assert(raw.subrange(k, raw.len() as int)[0] == raw[k]);
                assert(raw[k] == seg);
            } else {
                assert(find_comma(remaining) == remaining.len());
                assert(remaining =~= seg);
                assert(raw.skip(k) =~= seq![seg]);
                assert(raw.skip(k) == raw.subrange(k, raw.len() as int));
                assert(raw.subrange(k, raw.len() as int)[0] == raw[k]);
                assert(raw[k] == seg);
                assert(raw.skip(k).len() == raw.len() - k);
                assert(raw.len() == k + 1);
            }
            assert(toks[k] == lower(trim(seg)));
        }
        let tok = canon_token(value, start, end);
        match classify_token(tok.as_slice()) {
            Some(e) => {
                proof {
                    assert(toks.take(k + 1).drop_last() =~= toks.take(k));
                    assert(toks.take(k + 1).last() == toks[k]);
                }
                acc = acc.or(e);
                proof {
                    k = k + 1;
                }
            },
            None => {
                proof {
                    lemma_first_unrecognized_at(toks, k);
                }
                return Err(EventFilterError { token: tok, input: copy_bytes(value) });
            },
        }
        if end == value.len() {
            proof {
                assert(k == raw.len());
                assert(toks.take(k) =~= toks);
                assert(all_recognized(toks));
            }
            break;
        }
        proof {
            let rest = split_commas(value@.skip(end as int + 1));
            assert(raw.skip(k - 1) == seq![seg] + rest);
            assert((seq![seg] + rest).drop_first() =~= rest);
            assert(raw.skip(k - 1).drop_first() =~= raw.skip(k));
            assert(raw.skip(k) == rest);
        }
        start = end + 1;
    }
    Ok(acc)
}

/// Evaluates the span-event filter as read from the environment: an unset
/// variable yields the empty set; otherwise the value is parsed as a filter
/// string.
pub fn eval_event_filter(value: Option<&Vec<u8>>) -> (r: Result<SpanEvents, EventFilterError>)
    ensures
        match value {
            Some(v) => event_filter_post(v@, r),
            None => r == Result::<SpanEvents, EventFilterError>::Ok(SpanEvents::spec_empty()),
        },
{
    match value {
        Some(v) => parse_event_filter(v.as_slice()),
        None => Ok(SpanEvents::empty()),
    }
}

} // verus!
