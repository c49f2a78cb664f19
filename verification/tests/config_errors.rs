//! Tests of the configuration-attribute parser: extraction, pass-through,
//! and every build-time error with an input that provokes it.

use test_log::attrs::AttrError;
use test_log::attrs::AttrErrorKind;
use test_log::attrs::AttrInput;
use test_log::attrs::AttrPath;
use test_log::attrs::Attribute;
use test_log::attrs::CallShape;
use test_log::attrs::LitShape;
use test_log::attrs::PathSegment;
use test_log::attrs::parse_attrs;
use test_log::rewrite::FunctionDecl;
use test_log::rewrite::RewriteError;
use test_log::rewrite::Signature;
use test_log::rewrite::try_test;

fn bytes(s: &str) -> Vec<u8> {
    s.as_bytes().to_vec()
}

fn seg(name: &str) -> PathSegment {
    PathSegment { ident: bytes(name), has_arguments: false }
}

fn plain_path(name: &str) -> AttrPath {
    AttrPath { leading_colon: false, segments: vec![seg(name)] }
}

fn plain_attr(name: &str) -> Attribute {
    Attribute { path: plain_path(name), args: AttrInput::Bare }
}

fn config_attr(key: &str, value: LitShape) -> Attribute {
    Attribute {
        path: plain_path("test_log"),
        args: AttrInput::Call(CallShape::NameValue { key: plain_path(key), value }),
    }
}

fn decl_with(attrs: Vec<Attribute>) -> FunctionDecl {
    FunctionDecl {
        attrs,
        vis: bytes(""),
        sig: Signature { name: bytes("t"), is_async: false, inputs: bytes(""), output: None },
        body: bytes(""),
    }
}

fn parse_error(attrs: Vec<Attribute>) -> AttrError {
    match parse_attrs(&attrs) {
        Ok(_) => panic!("expected a configuration error"),
        Err(e) => e,
    }
}

#[test]
fn no_marker_means_no_configuration() {
    let attrs = vec![plain_attr("test"), plain_attr("ignore")];
    match parse_attrs(&attrs) {
        Ok((args, residual)) => {
            assert!(args.default_log_filter.is_none());
            assert_eq!(residual.len(), 2);
        },
        Err(_) => panic!("attributes without markers must parse"),
    }
}

#[test]
fn the_marker_is_consumed_and_order_is_kept() {
    let attrs = vec![
        plain_attr("first"),
        config_attr("default_log_filter", LitShape::StrLit(bytes("debug"))),
        plain_attr("second"),
    ];
    match parse_attrs(&attrs) {
        Ok((args, residual)) => {
            assert_eq!(args.default_log_filter, Some(bytes("debug")));
            assert_eq!(residual.len(), 2);
            assert_eq!(residual[0].path.segments[0].ident, bytes("first"));
            assert_eq!(residual[1].path.segments[0].ident, bytes("second"));
        },
        Err(_) => panic!("a well-formed marker must parse"),
    }
}

#[test]
fn a_numeric_value_is_a_build_time_error() {
    let e = parse_error(vec![config_attr("default_log_filter", LitShape::OtherLit)]);
    assert_eq!(e.kind, AttrErrorKind::ExpectedStringValue);
    assert_eq!(e.index, 0);
}

#[test]
fn a_non_literal_value_is_a_build_time_error() {
    let e = parse_error(vec![config_attr("default_log_filter", LitShape::NotLit)]);
    assert_eq!(e.kind, AttrErrorKind::ExpectedStringValue);
}

#[test]
fn an_unrecognized_key_is_a_build_time_error() {
    let e = parse_error(vec![config_attr("default_filter", LitShape::StrLit(bytes("debug")))]);
    assert_eq!(e.kind, AttrErrorKind::UnrecognizedKey);
}

#[test]
fn a_bare_marker_is_a_build_time_error() {
    let bare = Attribute { path: plain_path("test_log"), args: AttrInput::Bare };
    let e = parse_error(vec![bare]);
    assert_eq!(e.kind, AttrErrorKind::MalformedSyntax);
}

#[test]
fn an_assignment_marker_is_a_build_time_error() {
    let assigned = Attribute {
        path: plain_path("test_log"),
        args: AttrInput::Assign(LitShape::StrLit(bytes("debug"))),
    };
    let e = parse_error(vec![assigned]);
    assert_eq!(e.kind, AttrErrorKind::MalformedSyntax);
}

#[test]
fn a_marker_body_that_is_no_name_value_is_a_build_time_error() {
    let other = Attribute {
        path: plain_path("test_log"),
        args: AttrInput::Call(CallShape::OtherMeta),
    };
    let e = parse_error(vec![other]);
    assert_eq!(e.kind, AttrErrorKind::ExpectedNameValue);
    let unparseable = Attribute {
        path: plain_path("test_log"),
        args: AttrInput::Call(CallShape::Unparseable),
    };
    let e = parse_error(vec![unparseable]);
    assert_eq!(e.kind, AttrErrorKind::MalformedSyntax);
}

#[test]
fn two_markers_for_the_same_key_are_rejected() {
    let e = parse_error(vec![
        config_attr("default_log_filter", LitShape::StrLit(bytes("debug"))),
        config_attr("default_log_filter", LitShape::StrLit(bytes("info"))),
    ]);
    assert_eq!(e.kind, AttrErrorKind::DuplicateKey);
    assert_eq!(e.index, 1);
}

#[test]
fn two_equal_markers_are_rejected_too() {
    let e = parse_error(vec![
        config_attr("default_log_filter", LitShape::StrLit(bytes("debug"))),
        config_attr("default_log_filter", LitShape::StrLit(bytes("debug"))),
    ]);
    assert_eq!(e.kind, AttrErrorKind::DuplicateKey);
}

#[test]
fn errors_are_reported_at_the_offending_attribute() {
    let e = parse_error(vec![
        plain_attr("ignore"),
        plain_attr("test"),
        config_attr("default_log_filter", LitShape::OtherLit),
    ]);
    assert_eq!(e.index, 2);
    assert_eq!(e.kind, AttrErrorKind::ExpectedStringValue);
}

#[test]
fn rewriting_propagates_configuration_errors() {
    let d = decl_with(vec![config_attr("default_log_filter", LitShape::OtherLit)]);
    match try_test(&vec![], &d) {
        Err(RewriteError::Attr(e)) => {
            assert_eq!(e.kind, AttrErrorKind::ExpectedStringValue);
            assert_eq!(e.index, 0);
        },
        _ => panic!("a bad configuration value must fail the rewrite"),
    }
}

#[test]
fn rewriting_rejects_duplicate_markers() {
    let d = decl_with(vec![
        config_attr("default_log_filter", LitShape::StrLit(bytes("debug"))),
        config_attr("default_log_filter", LitShape::StrLit(bytes("trace"))),
    ]);
    match try_test(&vec![], &d) {
        Err(RewriteError::Attr(e)) => {
            assert_eq!(e.kind, AttrErrorKind::DuplicateKey);
            assert_eq!(e.index, 1);
        },
        _ => panic!("two markers for one key must fail the rewrite"),
    }
}
