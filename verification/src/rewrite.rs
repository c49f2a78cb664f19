//! The function rewriter.
//!
//! Given a test declaration and the macro's invocation argument, the
//! rewriter produces a replacement declaration with the same name,
//! visibility and signature whose body first initializes logging and
//! tracing and then delegates to the original body, awaiting it exactly
//! when the declaration is asynchronous.  The replacement carries the
//! resolved test marker: the default built-in one for an empty invocation
//! argument, a forwarded inner marker for a path-like argument, or none at
//! all when the function already carries a recognized test marker of its
//! own.  The injected initialization is kept structurally apart from the
//! user's body (it is rendered into a dedicated nested scope invoked by a
//! qualified name), and it is computed from the extracted configuration
//! alone, so user code and initialization cannot interfere.

use vstd::prelude::*;

use crate::attrs::AttrError;
use crate::attrs::AttrErrorKind;
use crate::attrs::Attribute;
use crate::attrs::AttributeArgs;
use crate::attrs::AttributeV;
use crate::attrs::attr_views;
use crate::attrs::attr_problem_location;
use crate::attrs::is_test_attribute;
use crate::attrs::parse_attrs;
use crate::attrs::residual_attrs;
use crate::attrs::scan_attrs;
use crate::attrs::spec_is_test_attribute;
use crate::text::copy_bytes;
use crate::text::opt_bytes;

verus! {

/// One token of the macro's bracketed invocation argument.
pub enum ArgToken {
    /// A path separator, `::`.
    PathSep,
    /// An identifier, naming one path segment.
    Ident(Vec<u8>),
    /// A parenthesized argument list, with its raw contents.
    ArgList(Vec<u8>),
    /// Any other token.
    Other,
}

/// The mathematical reading of an invocation-argument token.
pub enum ArgTokenV {
    PathSep,
    Ident(Seq<u8>),
    ArgList(Seq<u8>),
    Other,
}

impl View for ArgToken {
    type V = ArgTokenV;

    open spec fn view(&self) -> ArgTokenV {
        match self {
            ArgToken::PathSep => ArgTokenV::PathSep,
            ArgToken::Ident(id) => ArgTokenV::Ident(id@),
            ArgToken::ArgList(g) => ArgTokenV::ArgList(g@),
            ArgToken::Other => ArgTokenV::Other,
        }
    }
}

/// The views of a token list.
pub open spec fn tok_views(s: Seq<ArgToken>) -> Seq<ArgTokenV> {
    s.map_values(|t: ArgToken| t@)
}

/// The views of a list of byte strings.
pub open spec fn byte_views(s: Seq<Vec<u8>>) -> Seq<Seq<u8>> {
    s.map_values(|v: Vec<u8>| v@)
}

/// An inner test marker forwarded from the invocation argument: a path,
/// optionally followed by one argument list, as in a call-like attribute.
pub struct MarkerPath {
    pub leading_colon: bool,
    pub segments: Vec<Vec<u8>>,
    pub call_args: Option<Vec<u8>>,
}

/// The mathematical reading of a forwarded marker.
pub struct MarkerPathV {
    pub leading_colon: bool,
    pub segments: Seq<Seq<u8>>,
    pub call_args: Option<Seq<u8>>,
}

impl View for MarkerPath {
    type V = MarkerPathV;

    open spec fn view(&self) -> MarkerPathV {
        MarkerPathV {
            leading_colon: self.leading_colon,
            segments: byte_views(self.segments@),
            call_args: opt_bytes(self.call_args),
        }
    }
}

/// Parses `Ident (:: Ident)* ArgList?` from a token list; `None` for any
/// other shape.
pub open spec fn parse_segments(toks: Seq<ArgTokenV>) -> Option<(Seq<Seq<u8>>, Option<Seq<u8>>)>
    decreases toks.len(),
{
    if toks.len() == 0 {
        None
    } else {
        match toks[0] {
            ArgTokenV::Ident(id) => {
                if toks.len() == 1 {
                    Some((seq![id], None))
                } else {
                    match toks[1] {
                        ArgTokenV::PathSep => match parse_segments(toks.skip(2)) {
                            Some(rest) => Some((seq![id] + rest.0, rest.1)),
                            None => None,
                        },
                        ArgTokenV::ArgList(g) => {
                            if toks.len() == 2 {
                                Some((seq![id], Some(g)))
                            } else {
                                None
                            }
                        },
                        _ => None,
                    }
                }
            },
            _ => None,
        }
    }
}

/// Parses a whole invocation argument as a marker path: an optional
/// leading path separator, then segments as in `parse_segments`.  The
/// empty argument is not a marker.
pub open spec fn parse_marker(toks: Seq<ArgTokenV>) -> Option<MarkerPathV> {
    if toks.len() == 0 {
        None
    } else {
        let lead = toks[0] is PathSep;
        let rest = if lead {
            toks.drop_first()
        } else {
            toks
        };
        match parse_segments(rest) {
            Some(sg) => Some(MarkerPathV { leading_colon: lead, segments: sg.0, call_args: sg.1 }),
            None => None,
        }
    }
}

/// The token list a path of segments renders back to: the segment names,
/// separated by path separators.
pub open spec fn segs_tokens(segs: Seq<Seq<u8>>) -> Seq<ArgTokenV>
    decreases segs.len(),
{
    if segs.len() == 0 {
        Seq::empty()
    } else if segs.len() == 1 {
        seq![ArgTokenV::Ident(segs[0])]
    } else {
        seq![ArgTokenV::Ident(segs[0]), ArgTokenV::PathSep] + segs_tokens(segs.drop_first())
    }
}

/// The token list a whole marker renders back to: the optional leading
/// separator, the segments, and the optional argument list.
pub open spec fn marker_tokens(m: MarkerPathV) -> Seq<ArgTokenV> {
    let lead: Seq<ArgTokenV> = if m.leading_colon {
        seq![ArgTokenV::PathSep]
    } else {
        Seq::empty()
    };
    let args: Seq<ArgTokenV> = match m.call_args {
        Some(g) => seq![ArgTokenV::ArgList(g)],
        None => Seq::empty(),
    };
    lead + segs_tokens(m.segments) + args
}

/// What `parse_segments` accepts it reproduces exactly: the tokens are the
/// rendering of the parsed segments and argument list, nothing reordered,
/// added or dropped.
proof fn lemma_parse_segments_verbatim(toks: Seq<ArgTokenV>, segs: Seq<Seq<u8>>, g: Option<Seq<u8>>)
    requires
        parse_segments(toks) == Some((segs, g)),
    ensures
        segs.len() >= 1,
        toks == segs_tokens(segs) + (match g {
            Some(x) => seq![ArgTokenV::ArgList(x)],
            None => Seq::<ArgTokenV>::empty(),
        }),
    decreases toks.len(),
{
    let id = toks[0]->Ident_0;
    if toks.len() == 1 {
        assert(toks =~= seq![ArgTokenV::Ident(id)] + Seq::<ArgTokenV>::empty());
    } else {
        match toks[1] {
            ArgTokenV::PathSep => {
                let rest = parse_segments(toks.skip(2))->Some_0;
                lemma_parse_segments_verbatim(toks.skip(2), rest.0, rest.1);
                assert(segs == seq![id] + rest.0);
                assert(segs.drop_first() =~= rest.0);
                assert(segs[0] == id);
                assert(segs_tokens(segs) == seq![ArgTokenV::Ident(id), ArgTokenV::PathSep]
                    + segs_tokens(rest.0));
                assert(toks =~= seq![ArgTokenV::Ident(id), ArgTokenV::PathSep] + toks.skip(2));
                assert(toks =~= segs_tokens(segs) + (match g {
                    Some(x) => seq![ArgTokenV::ArgList(x)],
                    None => Seq::<ArgTokenV>::empty(),
                }));
            },
            ArgTokenV::ArgList(g0) => {
                assert(toks =~= seq![ArgTokenV::Ident(id)] + seq![ArgTokenV::ArgList(g0)]);
            },
            _ => {
                assert(false);
            },
        }
    }
}

/// A forwarded marker is forwarded verbatim: the invocation argument that
/// parses to a marker is exactly that marker's own rendering, so nothing
/// of the user's path is interpreted, reordered or lost.
pub proof fn lemma_marker_forwarded_verbatim(toks: Seq<ArgTokenV>, m: MarkerPathV)
    requires
        parse_marker(toks) == Some(m),
    ensures
        toks == marker_tokens(m),
{
    if toks[0] is PathSep {
        let rest = toks.drop_first();
        let sg = parse_segments(rest)->Some_0;
        lemma_parse_segments_verbatim(rest, sg.0, sg.1);
        assert(toks =~= seq![ArgTokenV::PathSep] + rest);
        assert(toks =~= marker_tokens(m));
    } else {
        let sg = parse_segments(toks)->Some_0;
        lemma_parse_segments_verbatim(toks, sg.0, sg.1);
        assert(marker_tokens(m) =~= segs_tokens(m.segments) + (match m.call_args {
            Some(x) => seq![ArgTokenV::ArgList(x)],
            None => Seq::<ArgTokenV>::empty(),
        }));
        assert(toks =~= marker_tokens(m));
    }
}

/// The signature of a test function, as far as the rewriter reads it.
pub struct Signature {
    /// The function's name.
    pub name: Vec<u8>,
    /// Whether the function is asynchronous.
    pub is_async: bool,
    /// The parameter list, carried as raw tokens and never inspected.
    pub inputs: Vec<u8>,
    /// The explicit return type, as raw tokens, if there is one.
    pub output: Option<Vec<u8>>,
}

/// The mathematical reading of a signature.
pub struct SignatureV {
    pub name: Seq<u8>,
    pub is_async: bool,
    pub inputs: Seq<u8>,
    pub output: Option<Seq<u8>>,
}

impl View for Signature {
    type V = SignatureV;

    open spec fn view(&self) -> SignatureV {
        SignatureV {
            name: self.name@,
            is_async: self.is_async,
            inputs: self.inputs@,
            output: opt_bytes(self.output),
        }
    }
}

impl Signature {
    /// An identical copy of the signature.
    pub fn duplicate(&self) -> (r: Signature)
        ensures
            r@ == self@,
    {
        Signature {
            name: copy_bytes(self.name.as_slice()),
            is_async: self.is_async,
            inputs: copy_bytes(self.inputs.as_slice()),
            output: match &self.output {
                Some(o) => Some(copy_bytes(o.as_slice())),
                None => None,
            },
        }
    }
}

/// A function declaration as handed to the rewriter.
pub struct FunctionDecl {
    /// The attributes attached to the function, in order.
    pub attrs: Vec<Attribute>,
    /// The visibility qualifier, as raw tokens (empty for a private item).
    pub vis: Vec<u8>,
    pub sig: Signature,
    /// The body, as raw tokens, passed through unchanged.
    pub body: Vec<u8>,
}

/// The mathematical reading of a declaration.
pub struct FunctionDeclV {
    pub attrs: Seq<AttributeV>,
    pub vis: Seq<u8>,
    pub sig: SignatureV,
    pub body: Seq<u8>,
}

impl View for FunctionDecl {
    type V = FunctionDeclV;

    open spec fn view(&self) -> FunctionDeclV {
        FunctionDeclV { attrs: attr_views(self.attrs@), vis: self.vis@, sig: self.sig@, body: self.body@ }
    }
}

/// The test-recognition marker the rewritten declaration carries.
pub enum TestMarker {
    /// The default built-in marker.
    Generated,
    /// The forwarded inner marker, applied in place of the built-in one.
    Inner(MarkerPath),
    /// No marker is added: the residual attributes already hold one.
    Existing,
}

/// The mathematical reading of the resolved marker.
pub enum TestMarkerV {
    Generated,
    Inner(MarkerPathV),
    Existing,
}

impl View for TestMarker {
    type V = TestMarkerV;

    open spec fn view(&self) -> TestMarkerV {
        match self {
            TestMarker::Generated => TestMarkerV::Generated,
            TestMarker::Inner(m) => TestMarkerV::Inner(m@),
            TestMarker::Existing => TestMarkerV::Existing,
        }
    }
}

/// The logger initialization injected into the wrapper: it configures the
/// fallback filter directive used when the environment supplies none.
pub struct LoggingInit {
    pub default_filter: Vec<u8>,
}

/// The mathematical reading of the logger initialization.
pub struct LoggingInitV {
    pub default_filter: Seq<u8>,
}

impl View for LoggingInit {
    type V = LoggingInitV;

    open spec fn view(&self) -> LoggingInitV {
        LoggingInitV { default_filter: self.default_filter@ }
    }
}

/// The tracing initialization injected into the wrapper: the configured
/// fallback directive, if any (the subscriber falls back to its own default
/// level otherwise).
pub struct TracingInit {
    pub default_filter: Option<Vec<u8>>,
}

/// The mathematical reading of the tracing initialization.
pub struct TracingInitV {
    pub default_filter: Option<Seq<u8>>,
}

impl View for TracingInit {
    type V = TracingInitV;

    open spec fn view(&self) -> TracingInitV {
        TracingInitV { default_filter: opt_bytes(self.default_filter) }
    }
}

/// The body of the rewritten declaration.  The two initialization steps
/// stand apart from the user's body: they are rendered into a nested scope
/// of their own, invoked once by a qualified name before the original body
/// runs, so user identifiers cannot shadow them.
pub struct WrappedBody {
    /// The logger initialization, run first.
    pub logging: LoggingInit,
    /// The tracing initialization, run second.
    pub tracing: TracingInit,
    /// Whether delegation to the original body awaits it.
    pub awaited: bool,
    /// The original body, unchanged.
    pub inner: Vec<u8>,
}

/// The mathematical reading of the rewritten body.
pub struct WrappedBodyV {
    pub logging: LoggingInitV,
    pub tracing: TracingInitV,
    pub awaited: bool,
    pub inner: Seq<u8>,
}

impl View for WrappedBody {
    type V = WrappedBodyV;

    open spec fn view(&self) -> WrappedBodyV {
        WrappedBodyV {
            logging: self.logging@,
            tracing: self.tracing@,
            awaited: self.awaited,
            inner: self.inner@,
        }
    }
}

/// The declaration the rewriter emits.
pub struct RewrittenFunction {
    /// The resolved test marker, applied exactly once, outermost.
    pub marker: TestMarker,
    /// The residual attributes, in their original order.
    pub attrs: Vec<Attribute>,
    pub vis: Vec<u8>,
    pub sig: Signature,
    pub body: WrappedBody,
}

/// The mathematical reading of the emitted declaration.
pub struct RewrittenFunctionV {
    pub marker: TestMarkerV,
    pub attrs: Seq<AttributeV>,
    pub vis: Seq<u8>,
    pub sig: SignatureV,
    pub body: WrappedBodyV,
}

impl View for RewrittenFunction {
    type V = RewrittenFunctionV;

    open spec fn view(&self) -> RewrittenFunctionV {
        RewrittenFunctionV {
            marker: self.marker@,
            attrs: attr_views(self.attrs@),
            vis: self.vis@,
            sig: self.sig@,
            body: self.body@,
        }
    }
}

/// A rewriting error: a configuration attribute error at its position, or
/// an invocation argument of an unsupported shape.
#[derive(Debug)]
pub enum RewriteError {
    Attr(AttrError),
    UnsupportedArguments,
}

/// The mathematical reading of a rewriting error (the attribute position
/// is stated separately, in the rewriter's contract).
pub enum RewriteErrorV {
    Attr(AttrErrorKind),
    UnsupportedArguments,
}

impl View for RewriteError {
    type V = RewriteErrorV;

    open spec fn view(&self) -> RewriteErrorV {
        match self {
            RewriteError::Attr(e) => RewriteErrorV::Attr(e.kind),
            RewriteError::UnsupportedArguments => RewriteErrorV::UnsupportedArguments,
        }
    }
}

/// The fallback filter used when no `default_log_filter` is configured.
pub open spec fn kw_info() -> Seq<u8> {
    seq![105, 110, 102, 111]
}

/// The logger initialization for a given configuration: the configured
/// fallback filter, or `info` when none is configured.
pub open spec fn spec_logging_init(dlf: Option<Seq<u8>>) -> LoggingInitV {
    LoggingInitV {
        default_filter: match dlf {
            Some(f) => f,
            None => kw_info(),
        },
    }
}

/// The tracing initialization for a given configuration.
pub open spec fn spec_tracing_init(dlf: Option<Seq<u8>>) -> TracingInitV {
    TracingInitV { default_filter: dlf }
}

/// Whether some attribute of the list is a recognized test marker.
pub open spec fn has_test_attr(s: Seq<AttributeV>) -> bool {
    exists|i: int| 0 <= i < s.len() && spec_is_test_attribute(#[trigger] s[i])
}

/// The marker the rewritten declaration carries: for an empty invocation
/// argument the default built-in marker, unless the residual attributes
/// already hold a recognized test marker; for a path-like argument, that
/// path, forwarded verbatim.  `None` for any other argument shape.
pub open spec fn spec_resolved_marker(arg: Seq<ArgTokenV>, residual: Seq<AttributeV>) -> Option<
    TestMarkerV,
> {
    if arg.len() == 0 {
        if has_test_attr(residual) {
            Some(TestMarkerV::Existing)
        } else {
            Some(TestMarkerV::Generated)
        }
    } else {
        match parse_marker(arg) {
            Some(m) => Some(TestMarkerV::Inner(m)),
            None => None,
        }
    }
}

/// The whole rewrite, as a function of the invocation argument and the
/// declaration: extract the configuration (or fail at the first bad
/// configuration attribute), resolve the marker (or fail on an unsupported
/// argument shape), and emit the declaration with the same interface, the
/// injected initialization, and the original body delegated to, awaited
/// exactly when the declaration is asynchronous.
pub open spec fn rewrite_spec(arg: Seq<ArgTokenV>, d: FunctionDeclV) -> Result<
    RewrittenFunctionV,
    RewriteErrorV,
> {
    match scan_attrs(d.attrs, None) {
        Err(k) => Err(RewriteErrorV::Attr(k)),
        Ok(dlf) => {
            let res = residual_attrs(d.attrs);
            match spec_resolved_marker(arg, res) {
                None => Err(RewriteErrorV::UnsupportedArguments),
                Some(m) => Ok(
                    RewrittenFunctionV {
                        marker: m,
                        attrs: res,
                        vis: d.vis,
                        sig: d.sig,
                        body: WrappedBodyV {
                            logging: spec_logging_init(dlf),
                            tracing: spec_tracing_init(dlf),
                            awaited: d.sig.is_async,
                            inner: d.body,
                        },
                    },
                ),
            }
        },
    }
}

/// Rewriting preserves the function's interface: the visibility and the
/// whole signature (name, asynchrony, parameter list, return type) are
/// unchanged, the original body passes through unmodified, and the wrapper
/// awaits it exactly when the declaration is asynchronous.
pub proof fn lemma_rewrite_preserves_interface(arg: Seq<ArgTokenV>, d: FunctionDeclV)
    requires
        rewrite_spec(arg, d) is Ok,
    ensures
        ({
            let rf = rewrite_spec(arg, d)->Ok_0;
            &&& rf.sig == d.sig
            &&& rf.vis == d.vis
            &&& rf.body.inner == d.body
            &&& rf.body.awaited == d.sig.is_async
        }),
{
}

/// How the emitted test marker is resolved: an empty invocation argument
/// yields the default built-in marker, unless the function already carries
/// a recognized test marker of its own, which is then left as the only
/// one; a path-like argument is forwarded verbatim as the marker.  In
/// every case the emitted declaration carries exactly one resolved marker.
pub proof fn lemma_marker_resolution(arg: Seq<ArgTokenV>, d: FunctionDeclV)
    requires
        rewrite_spec(arg, d) is Ok,
    ensures
        ({
            let rf = rewrite_spec(arg, d)->Ok_0;
            &&& arg.len() == 0 && !has_test_attr(residual_attrs(d.attrs)) ==> rf.marker
                is Generated
            &&& arg.len() == 0 && has_test_attr(residual_attrs(d.attrs)) ==> rf.marker is Existing
            &&& arg.len() > 0 ==> parse_marker(arg) is Some && rf.marker == TestMarkerV::Inner(
                parse_marker(arg)->Some_0,
            )
        }),
{
}

/// A non-empty invocation argument that rewrites successfully is carried
/// into the emitted declaration as its marker, verbatim: the argument is
/// exactly the rendering of the forwarded marker.
pub proof fn lemma_inner_marker_verbatim(arg: Seq<ArgTokenV>, d: FunctionDeclV)
    requires
        rewrite_spec(arg, d) is Ok,
        arg.len() > 0,
    ensures
        rewrite_spec(arg, d)->Ok_0.marker matches TestMarkerV::Inner(m) && arg == marker_tokens(m),
{
    lemma_marker_resolution(arg, d);
    lemma_marker_forwarded_verbatim(arg, parse_marker(arg)->Some_0);
}

/// The injected initialization is isolated from the user's code: it is a
/// function of the extracted configuration alone, and the user's body
/// passes through unchanged.  Two declarations with the same attributes
/// receive identical initialization, whatever their bodies hold, so
/// identifiers defined by the user cannot alter what the initializer does,
/// nor the other way round.
pub proof fn lemma_init_isolated_from_body(arg: Seq<ArgTokenV>, d1: FunctionDeclV, d2: FunctionDeclV)
    requires
        d1.attrs == d2.attrs,
        rewrite_spec(arg, d1) is Ok,
        rewrite_spec(arg, d2) is Ok,
    ensures
        rewrite_spec(arg, d1)->Ok_0.body.logging == rewrite_spec(arg, d2)->Ok_0.body.logging,
        rewrite_spec(arg, d1)->Ok_0.body.tracing == rewrite_spec(arg, d2)->Ok_0.body.tracing,
        rewrite_spec(arg, d1)->Ok_0.body.inner == d1.body,
        rewrite_spec(arg, d2)->Ok_0.body.inner == d2.body,
{
}

/// Parses `Ident (:: Ident)* ArgList?` starting at position `i` of the
/// token list.
fn parse_segments_exec(toks: &Vec<ArgToken>, i: usize) -> (r: Option<
    (Vec<Vec<u8>>, Option<Vec<u8>>),
>)
    requires
        i <= toks@.len(),
    ensures
        ({
            let tv = tok_views(toks@).skip(i as int);
            match r {
                Some(sg) => parse_segments(tv) == Some((byte_views(sg.0@), opt_bytes(sg.1))),
                None => parse_segments(tv) is None,
            }
        }),
    decreases toks@.len() - i,
{
    let ghost tv = tok_views(toks@).skip(i as int);
    proof {
        assert(tv.len() == toks@.len() - i);
    }
    if i >= toks.len() {
        return None;
    }
    proof {
        assert(tv[0] == tok_views(toks@)[i as int]);
        assert(tok_views(toks@)[i as int] == toks@[i as int]@);
    }
    let id = match &toks[i] {
        ArgToken::Ident(id) => id,
        _ => {
            return None;
        },
    };
    if i + 1 == toks.len() {
        let mut segs: Vec<Vec<u8>> = Vec::new();
        segs.push(copy_bytes(id.as_slice()));
        proof {
            assert(byte_views(segs@) =~= seq![id@]);
        }
        return Some((segs, None));
    }
    proof {
        assert(tv[1] == tok_views(toks@)[i as int + 1]);
        assert(tok_views(toks@)[i as int + 1] == toks@[i as int + 1]@);
    }
    match &toks[i + 1] {
        ArgToken::PathSep => {
            proof {
                assert(tv.skip(2) =~= tok_views(toks@).skip(i as int + 2));
            }
            match parse_segments_exec(toks, i + 2) {
                Some(sg) => {
                    let (mut segs, g) = sg;
                    segs.insert(0, copy_bytes(id.as_slice()));
                    proof {
                        assert(byte_views(segs@) =~= seq![id@] + byte_views(
                            segs@.drop_first(),
                        ));
                    }
                    Some((segs, g))
                },
                None => None,
            }
        },
        ArgToken::ArgList(g) => {
            if i + 2 == toks.len() {
                let mut segs: Vec<Vec<u8>> = Vec::new();
                segs.push(copy_bytes(id.as_slice()));
                proof {
                    assert(byte_views(segs@) =~= seq![id@]);
                }
                Some((segs, Some(copy_bytes(g.as_slice()))))
            } else {
                None
            }
        },
        _ => None,
    }
}

/// Parses the whole invocation argument as a forwarded marker path.
pub fn parse_marker_exec(toks: &Vec<ArgToken>) -> (r: Option<MarkerPath>)
    ensures
        match r {
            Some(m) => parse_marker(tok_views(toks@)) == Some(m@),
            None => parse_marker(tok_views(toks@)) is None,
        },
{
    if toks.len() == 0 {
        return None;
    }
    let ghost tv = tok_views(toks@);
    proof {
        assert(tv[0] == toks@[0]@);
    }
    let lead = match &toks[0] {
        ArgToken::PathSep => true,
        _ => false,
    };
    let start: usize = if lead {
        1
    } else {
        0
    };
    proof {
        if lead {
            assert(tv.skip(1) =~= tv.drop_first());
        } else {
            assert(tv.skip(0) =~= tv);
        }
    }
    match parse_segments_exec(toks, start) {
        Some(sg) => {
            let (segs, g) = sg;
            Some(MarkerPath { leading_colon: lead, segments: segs, call_args: g })
        },
        None => None,
    }
}

/// Whether the list holds a recognized test marker.
fn contains_test_attribute(attrs: &Vec<Attribute>) -> (r: bool)
    ensures
        r == has_test_attr(attr_views(attrs@)),
{
    let ghost vs = attr_views(attrs@);
    let mut i: usize = 0;
    while i < attrs.len()
        invariant
            i <= attrs@.len(),
            vs == attr_views(attrs@),
            vs.len() == attrs@.len(),
            forall|j: int| 0 <= j < i ==> !spec_is_test_attribute(#[trigger] vs[j]),
        decreases attrs@.len() - i,
    {
        proof {
            assert(vs[i as int] == attrs@[i as int]@);
        }
        if is_test_attribute(&attrs[i]) {
            return true;
        }
        i = i + 1;
    }
    false
}

/// The logger initialization for the extracted configuration: the
/// configured fallback filter, or `info` when none was given.
pub fn expand_logging_init(attribute_args: &AttributeArgs) -> (r: LoggingInit)
    ensures
        r@ == spec_logging_init(attribute_args@),
{
    match &attribute_args.default_log_filter {
        Some(f) => LoggingInit { default_filter: copy_bytes(f.as_slice()) },
        None => {
            let mut v: Vec<u8> = Vec::new();
            v.push(105);
            v.push(110);
            v.push(102);
            v.push(111);
            proof {
                assert(v@ =~= kw_info());
            }
            LoggingInit { default_filter: v }
        },
    }
}

/// The tracing initialization for the extracted configuration.
pub fn expand_tracing_init(attribute_args: &AttributeArgs) -> (r: TracingInit)
    ensures
        r@ == spec_tracing_init(attribute_args@),
{
    match &attribute_args.default_log_filter {
        Some(f) => TracingInit { default_filter: Some(copy_bytes(f.as_slice())) },
        None => TracingInit { default_filter: None },
    }
}

/// Rewrites one test declaration: extracts the configuration from its
/// attributes, resolves the test marker from the invocation argument and
/// the residual attributes, and emits the replacement declaration.  Fails
/// at the first bad configuration attribute (reported at its position) or
/// on an invocation argument that is neither empty nor a path-like marker.
pub fn try_test(arg: &Vec<ArgToken>, input: &FunctionDecl) -> (r: Result<
    RewrittenFunction,
    RewriteError,
>)
    ensures
        match r {
            Ok(rf) => rewrite_spec(tok_views(arg@), input@) == Ok::<
                RewrittenFunctionV,
                RewriteErrorV,
            >(rf@),
            Err(e) => {
                &&& rewrite_spec(tok_views(arg@), input@) == Err::<
                    RewrittenFunctionV,
                    RewriteErrorV,
                >(e@)
                &&& (e matches RewriteError::Attr(ae) ==> attr_problem_location(
                    input@.attrs,
                    ae.index as int,
                    ae.kind,
                ))
            },
        },
{
    let parsed = parse_attrs(&input.attrs);
    let (args, residual) = match parsed {
        Ok(p) => p,
        Err(ae) => {
            return Err(RewriteError::Attr(ae));
        },
    };
    let marker: TestMarker;
    if arg.len() == 0 {
        if contains_test_attribute(&residual) {
            marker = TestMarker::Existing;
        } else {
            marker = TestMarker::Generated;
        }
    } else {
        match parse_marker_exec(arg) {
            Some(m) => {
                marker = TestMarker::Inner(m);
            },
            None => {
                return Err(RewriteError::UnsupportedArguments);
            },
        }
    }
    let logging = expand_logging_init(&args);
    let tracing = expand_tracing_init(&args);
    Ok(
        RewrittenFunction {
            marker,
            attrs: residual,
            vis: copy_bytes(input.vis.as_slice()),
            sig: input.sig.duplicate(),
            body: WrappedBody {
                logging,
                tracing,
                awaited: input.sig.is_async,
                inner: copy_bytes(input.body.as_slice()),
            },
        },
    )
}

} // verus!
