//! The rewrite asks nothing of the standard library in the decorated
//! function itself: a declaration from a `no_std` test crate rewrites like
//! any other.

use test_log::rewrite::FunctionDecl;
use test_log::rewrite::Signature;
use test_log::rewrite::TestMarker;
use test_log::rewrite::try_test;

#[test]
fn no_std_required() {
    let body = "debug!(\"It works without std!\"); assert_eq!(1 + 1, 2);";
    let d = FunctionDecl {
        attrs: vec![],
        vis: b"".to_vec(),
        sig: Signature {
            name: b"no_std_required".to_vec(),
            is_async: false,
            inputs: b"".to_vec(),
            output: None,
        },
        body: body.as_bytes().to_vec(),
    };
    match try_test(&vec![], &d) {
        Ok(r) => {
            assert!(matches!(r.marker, TestMarker::Generated));
            assert_eq!(r.body.inner, body.as_bytes().to_vec());
        },
        Err(_) => panic!("a plain declaration must rewrite"),
    }
    assert_eq!(1 + 1, 2);
}
