//! A body that logs through both facilities passes through the rewrite
//! unchanged, with the default marker and the default filter.

use test_log::rewrite::FunctionDecl;
use test_log::rewrite::Signature;
use test_log::rewrite::TestMarker;
use test_log::rewrite::try_test;

#[test]
fn it_works() {
    let body = "tracing::debug!(\"tracing::DEBUG\"); tracing::info!(\"tracing::INFO\"); \
                tracing::warn!(\"tracing::WARN\"); tracing::error!(\"tracing::ERROR\"); \
                logging::debug!(\"log::DEBUG\"); logging::info!(\"log::INFO\"); \
                logging::warn!(\"log::WARN\"); logging::error!(\"log::ERROR\"); \
                assert_eq!(2 + 2, 4);";
    let d = FunctionDecl {
        attrs: vec![],
        vis: b"".to_vec(),
        sig: Signature {
            name: b"it_works".to_vec(),
            is_async: false,
            inputs: b"".to_vec(),
            output: None,
        },
        body: body.as_bytes().to_vec(),
    };
    match try_test(&vec![], &d) {
        Ok(r) => {
            assert!(matches!(r.marker, TestMarker::Generated));
            assert_eq!(r.body.inner, body.as_bytes().to_vec());
            assert_eq!(r.body.logging.default_filter, b"info".to_vec());
        },
        Err(_) => panic!("a plain declaration must rewrite"),
    }
    assert_eq!(2 + 2, 4);
}
