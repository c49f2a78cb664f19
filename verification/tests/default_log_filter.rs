//! The configured `default_log_filter` takes effect when the environment
//! supplies no filter of its own: with `default_log_filter = "debug"`,
//! records at `debug` are enabled and records at `trace` are not.

use test_log::attrs::AttrInput;
use test_log::attrs::AttrPath;
use test_log::attrs::Attribute;
use test_log::attrs::CallShape;
use test_log::attrs::LitShape;
use test_log::attrs::PathSegment;
use test_log::log_filter::LogLevel;
use test_log::log_filter::level_enabled;
use test_log::log_filter::parse_level;
use test_log::log_filter::resolve_log_filter;
use test_log::rewrite::ArgToken;
use test_log::rewrite::FunctionDecl;
use test_log::rewrite::Signature;
use test_log::rewrite::TestMarker;
use test_log::rewrite::try_test;

fn bytes(s: &str) -> Vec<u8> {
    s.as_bytes().to_vec()
}

fn plain_path(name: &str) -> AttrPath {
    AttrPath {
        leading_colon: false,
        segments: vec![PathSegment { ident: bytes(name), has_arguments: false }],
    }
}

#[test]
fn with_inner_test_attribute_and_default_log_filter_defined() {
    let marker = Attribute {
        path: plain_path("test_log"),
        args: AttrInput::Call(CallShape::NameValue {
            key: plain_path("default_log_filter"),
            value: LitShape::StrLit(bytes("debug")),
        }),
    };
    let d = FunctionDecl {
        attrs: vec![marker],
        vis: bytes(""),
        sig: Signature {
            name: bytes("with_inner_test_attribute_and_default_log_filter_defined"),
            is_async: true,
            inputs: bytes(""),
            output: None,
        },
        body: bytes(""),
    };
    let arg = vec![
        ArgToken::Ident(bytes("tokio")),
        ArgToken::PathSep,
        ArgToken::Ident(bytes("test")),
    ];
    let r = match try_test(&arg, &d) {
        Ok(r) => r,
        Err(_) => panic!("the declaration must rewrite"),
    };
    assert!(matches!(r.marker, TestMarker::Inner(_)));
    // No environment override is in play: the configured default decides.
    let env_filter: Option<&Vec<u8>> = None;
    assert!(env_filter.is_none());
    let configured = r.body.logging.default_filter;
    let resolved = resolve_log_filter(env_filter, Some(&configured));
    let level = match parse_level(&resolved) {
        Some(l) => l,
        None => panic!("the resolved filter must be a plain level name"),
    };
    assert!(level_enabled(level, LogLevel::Debug));
    assert!(!level_enabled(level, LogLevel::Trace));
}
