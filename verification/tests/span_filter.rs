//! Tests of the span-event filter evaluator: token recognition, union
//! semantics, order- and duplicate-insensitivity, and error reporting.

use test_log::span_events::EventFilterError;
use test_log::span_events::SpanEvents;
use test_log::span_events::eval_event_filter;
use test_log::span_events::parse_event_filter;

fn mask(value: &str) -> SpanEvents {
    match parse_event_filter(value.as_bytes()) {
        Ok(m) => m,
        Err(_) => panic!("expected the filter to parse"),
    }
}

fn failure(value: &str) -> EventFilterError {
    match parse_event_filter(value.as_bytes()) {
        Ok(_) => panic!("expected the filter to be rejected"),
        Err(e) => e,
    }
}

fn none() -> SpanEvents {
    SpanEvents { new: false, enter: false, exit: false, close: false }
}

#[test]
fn single_tokens_map_to_their_events() {
    assert_eq!(mask("new"), SpanEvents { new: true, ..none() });
    assert_eq!(mask("enter"), SpanEvents { enter: true, ..none() });
    assert_eq!(mask("exit"), SpanEvents { exit: true, ..none() });
    assert_eq!(mask("close"), SpanEvents { close: true, ..none() });
}

#[test]
fn active_is_enter_and_exit() {
    assert_eq!(mask("active"), SpanEvents { enter: true, exit: true, ..none() });
}

#[test]
fn full_is_all_four_events() {
    assert_eq!(
        mask("full"),
        SpanEvents { new: true, enter: true, exit: true, close: true }
    );
}

#[test]
fn lists_are_unions() {
    assert_eq!(mask("NEW, close"), SpanEvents { new: true, close: true, ..none() });
    assert_eq!(mask("new,enter,exit,close"), mask("full"));
    assert_eq!(mask("active,new"), SpanEvents { new: true, enter: true, exit: true, ..none() });
}

#[test]
fn order_and_duplicates_are_irrelevant() {
    assert_eq!(mask("new,close"), mask("close, new, NEW"));
    assert_eq!(mask("enter,exit"), mask("active"));
    assert_eq!(mask("full,full"), mask("full"));
    assert_eq!(mask("close,enter"), mask("ENTER,CLOSE"));
}

#[test]
fn case_and_whitespace_are_ignored() {
    assert_eq!(mask("  EnTeR ,\tExIt  "), mask("active"));
    assert_eq!(mask("NEW"), mask("new"));
}

#[test]
fn empty_or_absent_values_yield_the_empty_mask() {
    assert_eq!(mask(""), none());
    match eval_event_filter(None) {
        Ok(m) => assert_eq!(m, none()),
        Err(_) => panic!("an absent value must yield the empty mask"),
    }
    let value = b"active".to_vec();
    match eval_event_filter(Some(&value)) {
        Ok(m) => assert_eq!(m, SpanEvents { enter: true, exit: true, ..none() }),
        Err(_) => panic!("a set value must be parsed"),
    }
}

#[test]
fn unknown_tokens_are_fatal_and_named() {
    let e = failure("bogus");
    assert_eq!(e.token, b"bogus".to_vec());
    assert_eq!(e.input, b"bogus".to_vec());
}

#[test]
fn the_first_unknown_token_of_a_list_is_reported() {
    let e = failure("new, BOGUS, close");
    assert_eq!(e.token, b"bogus".to_vec());
    assert_eq!(e.input, b"new, BOGUS, close".to_vec());
}

#[test]
fn a_lone_comma_means_an_empty_token_and_is_rejected() {
    let e = failure(",");
    assert_eq!(e.token, Vec::<u8>::new());
    assert_eq!(e.input, b",".to_vec());
}

#[test]
fn whitespace_only_values_are_rejected() {
    let e = failure("   ");
    assert_eq!(e.token, Vec::<u8>::new());
    assert_eq!(e.input, b"   ".to_vec());
}
