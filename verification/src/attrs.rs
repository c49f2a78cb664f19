//! The attribute parser.
//!
//! A decorated test function carries a list of attributes.  One reserved
//! marker, `test_log`, holds per-test configuration: its body must be a
//! single `key = value` pair whose only recognized key is
//! `default_log_filter`, with a string-literal value.  Every other attribute
//! passes through untouched, in its original order.  This module models the
//! structural shape of an attribute (path, and what follows it), recognizes
//! the built-in test markers, and extracts the configuration, reporting a
//! build-time error at the offending attribute for any malformed, repeated
//! or unrecognized marker.

use vstd::prelude::*;

use crate::text::bytes_eq;
use crate::text::copy_bytes;

verus! {

/// One segment of an attribute path, by name, and whether the segment
/// carries generic or parenthesized arguments of its own.
pub struct PathSegment {
    pub ident: Vec<u8>,
    pub has_arguments: bool,
}

/// The mathematical reading of a path segment.
pub struct PathSegmentV {
    pub ident: Seq<u8>,
    pub has_arguments: bool,
}

impl View for PathSegment {
    type V = PathSegmentV;

    open spec fn view(&self) -> PathSegmentV {
        PathSegmentV { ident: self.ident@, has_arguments: self.has_arguments }
    }
}

/// An attribute path such as `test`, `test_log` or `core::prelude::v1::test`.
pub struct AttrPath {
    pub leading_colon: bool,
    pub segments: Vec<PathSegment>,
}

/// The mathematical reading of an attribute path.
pub struct AttrPathV {
    pub leading_colon: bool,
    pub segments: Seq<PathSegmentV>,
}

impl View for AttrPath {
    type V = AttrPathV;

    open spec fn view(&self) -> AttrPathV {
        AttrPathV {
            leading_colon: self.leading_colon,
            segments: self.segments@.map_values(|s: PathSegment| s@),
        }
    }
}

/// The shape of the value expression on the right of `key = value`.
pub enum LitShape {
    /// A string literal, with its contents.
    StrLit(Vec<u8>),
    /// A literal of any other kind (a number, a boolean, ...).
    OtherLit,
    /// Not a literal at all.
    NotLit,
}

/// The mathematical reading of a value shape.
pub enum LitShapeV {
    StrLit(Seq<u8>),
    OtherLit,
    NotLit,
}

impl View for LitShape {
    type V = LitShapeV;

    open spec fn view(&self) -> LitShapeV {
        match self {
            LitShape::StrLit(s) => LitShapeV::StrLit(s@),
            LitShape::OtherLit => LitShapeV::OtherLit,
            LitShape::NotLit => LitShapeV::NotLit,
        }
    }
}

/// How the parenthesized body of a call-like attribute parses.
pub enum CallShape {
    /// A single `key = value` pair.
    NameValue { key: AttrPath, value: LitShape },
    /// A single well-formed meta item of another shape (a bare path, or a
    /// nested call).
    OtherMeta,
    /// Not a single well-formed meta item.
    Unparseable,
}

/// The mathematical reading of a call body.
pub enum CallShapeV {
    NameValue { key: AttrPathV, value: LitShapeV },
    OtherMeta,
    Unparseable,
}

impl View for CallShape {
    type V = CallShapeV;

    open spec fn view(&self) -> CallShapeV {
        match self {
            CallShape::NameValue { key, value } => CallShapeV::NameValue {
                key: key@,
                value: value@,
            },
            CallShape::OtherMeta => CallShapeV::OtherMeta,
            CallShape::Unparseable => CallShapeV::Unparseable,
        }
    }
}

/// What follows an attribute's path.
pub enum AttrInput {
    /// Nothing: `#[path]`.
    Bare,
    /// An assignment: `#[path = value]`.
    Assign(LitShape),
    /// A parenthesized body: `#[path(...)]`.
    Call(CallShape),
}

/// The mathematical reading of an attribute input.
pub enum AttrInputV {
    Bare,
    Assign(LitShapeV),
    Call(CallShapeV),
}

impl View for AttrInput {
    type V = AttrInputV;

    open spec fn view(&self) -> AttrInputV {
        match self {
            AttrInput::Bare => AttrInputV::Bare,
            AttrInput::Assign(v) => AttrInputV::Assign(v@),
            AttrInput::Call(c) => AttrInputV::Call(c@),
        }
    }
}

/// One attribute attached to a function: a path and what follows it.
pub struct Attribute {
    pub path: AttrPath,
    pub args: AttrInput,
}

/// The mathematical reading of an attribute.
pub struct AttributeV {
    pub path: AttrPathV,
    pub args: AttrInputV,
}

impl View for Attribute {
    type V = AttributeV;

    open spec fn view(&self) -> AttributeV {
        AttributeV { path: self.path@, args: self.args@ }
    }
}

/// The views of a list of attributes.
pub open spec fn attr_views(s: Seq<Attribute>) -> Seq<AttributeV> {
    s.map_values(|a: Attribute| a@)
}

/// The reserved configuration marker name.
pub open spec fn kw_test_log() -> Seq<u8> {
    seq![116, 101, 115, 116, 95, 108, 111, 103]
}

/// The one recognized configuration key.
pub open spec fn kw_default_log_filter() -> Seq<u8> {
    seq![
        100,
        101,
        102,
        97,
        117,
        108,
        116,
        95,
        108,
        111,
        103,
        95,
        102,
        105,
        108,
        116,
        101,
        114,
    ]
}

/// The name of the built-in test marker.
pub open spec fn kw_test() -> Seq<u8> {
    seq![116, 101, 115, 116]
}

/// The `core` root of the qualified built-in test marker.
pub open spec fn kw_core() -> Seq<u8> {
    seq![99, 111, 114, 101]
}

/// The `std` root of the qualified built-in test marker.
pub open spec fn kw_std() -> Seq<u8> {
    seq![115, 116, 100]
}

/// The `prelude` segment of the qualified built-in test marker.
pub open spec fn kw_prelude() -> Seq<u8> {
    seq![112, 114, 101, 108, 117, 100, 101]
}

/// Whether a path is exactly the plain identifier `id`: no leading path
/// separator, one segment, no segment arguments.
pub open spec fn path_is_ident(p: AttrPathV, id: Seq<u8>) -> bool {
    &&& !p.leading_colon
    &&& p.segments.len() == 1
    &&& !p.segments[0].has_arguments
    &&& p.segments[0].ident == id
}

/// Whether a path is some plain identifier.
pub open spec fn path_is_any_ident(p: AttrPathV) -> bool {
    &&& !p.leading_colon
    &&& p.segments.len() == 1
    &&& !p.segments[0].has_arguments
}

/// Whether an attribute is the reserved configuration marker `test_log`.
pub open spec fn is_config_attr(a: AttributeV) -> bool {
    path_is_ident(a.path, kw_test_log())
}

/// Whether an attribute is a test marker that the harness itself
/// recognizes: bare `test`, or the qualified prelude form
/// `core::prelude::<any>::test` / `std::prelude::<any>::test` (with or
/// without a leading path separator), with no segment arguments anywhere.
pub open spec fn spec_is_test_attribute(a: AttributeV) -> bool {
    &&& a.args is Bare
    &&& {
        ||| path_is_ident(a.path, kw_test())
        ||| {
            &&& a.path.segments.len() == 4
            &&& !a.path.segments[0].has_arguments
            &&& !a.path.segments[1].has_arguments
            &&& !a.path.segments[2].has_arguments
            &&& !a.path.segments[3].has_arguments
            &&& (a.path.segments[0].ident == kw_core() || a.path.segments[0].ident == kw_std())
            &&& a.path.segments[1].ident == kw_prelude()
            &&& a.path.segments[3].ident == kw_test()
        }
    }
}

/// The build-time configuration errors an attribute can provoke.
#[derive(Clone, Copy, PartialEq, Eq, Structural, Debug)]
pub enum AttrErrorKind {
    /// The marker has no parenthesized body, or the body is not a single
    /// well-formed meta item.
    MalformedSyntax,
    /// The body parses, but not as a simple `name = value` pair.
    ExpectedNameValue,
    /// The name is not a recognized configuration key.
    UnrecognizedKey,
    /// The value of a recognized key is not a string literal.
    ExpectedStringValue,
    /// The same configuration key was already given on this function.
    DuplicateKey,
}

/// The shape error of one configuration marker, if any (duplicates are a
/// property of the whole list and are judged separately).
pub open spec fn config_attr_error(a: AttributeV) -> Option<AttrErrorKind> {
    match a.args {
        AttrInputV::Bare => Some(AttrErrorKind::MalformedSyntax),
        AttrInputV::Assign(_) => Some(AttrErrorKind::MalformedSyntax),
        AttrInputV::Call(c) => match c {
            CallShapeV::Unparseable => Some(AttrErrorKind::MalformedSyntax),
            CallShapeV::OtherMeta => Some(AttrErrorKind::ExpectedNameValue),
            CallShapeV::NameValue { key, value } => {
                if !path_is_any_ident(key) {
                    Some(AttrErrorKind::ExpectedNameValue)
                } else if key.segments[0].ident != kw_default_log_filter() {
                    Some(AttrErrorKind::UnrecognizedKey)
                } else {
                    match value {
                        LitShapeV::StrLit(_) => None,
                        LitShapeV::OtherLit => Some(AttrErrorKind::ExpectedStringValue),
                        LitShapeV::NotLit => Some(AttrErrorKind::ExpectedStringValue),
                    }
                }
            },
        },
    }
}

/// The configured value carried by a well-formed configuration marker.
pub open spec fn config_attr_value(a: AttributeV) -> Seq<u8> {
    match a.args {
        AttrInputV::Call(CallShapeV::NameValue { key, value }) => match value {
            LitShapeV::StrLit(s) => s,
            _ => Seq::empty(),
        },
        _ => Seq::empty(),
    }
}

/// How one attribute advances the configuration scan: a non-marker changes
/// nothing; a malformed marker is an error; a repeated marker is an error;
/// a well-formed first marker records its value.
pub open spec fn scan_step(a: AttributeV, found: Option<Seq<u8>>) -> Result<
    Option<Seq<u8>>,
    AttrErrorKind,
> {
    if !is_config_attr(a) {
        Ok(found)
    } else {
        match config_attr_error(a) {
            Some(k) => Err(k),
            None => {
                if found is Some {
                    Err(AttrErrorKind::DuplicateKey)
                } else {
                    Ok(Some(config_attr_value(a)))
                }
            },
        }
    }
}

/// The configuration extracted from an attribute list, or the first error.
pub open spec fn scan_attrs(s: Seq<AttributeV>, found: Option<Seq<u8>>) -> Result<
    Option<Seq<u8>>,
    AttrErrorKind,
> decreases s.len(),
{
    if s.len() == 0 {
        Ok(found)
    } else {
        match scan_step(s[0], found) {
            Ok(n) => scan_attrs(s.drop_first(), n),
            Err(k) => Err(k),
        }
    }
}

/// The attributes that are not configuration markers, in their original
/// order.
pub open spec fn residual_attrs(s: Seq<AttributeV>) -> Seq<AttributeV> {
    s.filter(|a: AttributeV| !is_config_attr(a))
}

/// Where a configuration error is reported: position `i` holds a
/// configuration marker, the attributes before it scan without error, and
/// the marker at `i` turns that scan state into the error `kind`.
pub open spec fn attr_problem_location(s: Seq<AttributeV>, i: int, kind: AttrErrorKind) -> bool {
    &&& 0 <= i < s.len()
    &&& is_config_attr(s[i])
    &&& scan_attrs(s.take(i), None) matches Ok(found) && scan_step(s[i], found) == Err::<
        Option<Seq<u8>>,
        AttrErrorKind,
    >(kind)
}

/// Scanning a concatenation scans the two parts in order.
pub proof fn lemma_scan_attrs_concat(s1: Seq<AttributeV>, s2: Seq<AttributeV>, found: Option<Seq<u8>>)
    ensures
        scan_attrs(s1 + s2, found) == (match scan_attrs(s1, found) {
            Ok(n) => scan_attrs(s2, n),
            Err(k) => Err::<Option<Seq<u8>>, AttrErrorKind>(k),
        }),
    decreases s1.len(),
{
    if s1.len() == 0 {
        assert(s1 + s2 =~= s2);
    } else {
        assert((s1 + s2)[0] == s1[0]);
        assert((s1 + s2).drop_first() =~= s1.drop_first() + s2);
        match scan_step(s1[0], found) {
            Ok(n) => {
                lemma_scan_attrs_concat(s1.drop_first(), s2, n);
            },
            Err(k) => {},
        }
    }
}

/// The per-test configuration extracted from the attribute list.
pub struct AttributeArgs {
    /// The fallback filter directive to use when the environment supplies
    /// none, as configured by `default_log_filter`.
    pub default_log_filter: Option<Vec<u8>>,
}

impl View for AttributeArgs {
    type V = Option<Seq<u8>>;

    open spec fn view(&self) -> Option<Seq<u8>> {
        match self.default_log_filter {
            Some(ref v) => Some(v@),
            None => None,
        }
    }
}

impl Default for AttributeArgs {
    /// The configuration before any marker is read: nothing is set.
    fn default() -> (r: Self)
        ensures
            r@ is None,
    {
        AttributeArgs { default_log_filter: None }
    }
}

/// A configuration error, located at the attribute that provoked it.
#[derive(Debug)]
pub struct AttrError {
    pub kind: AttrErrorKind,
    /// The position of the offending attribute in the function's list.
    pub index: usize,
}

fn kw_test_log_vec() -> (v: Vec<u8>)
    ensures
        v@ == kw_test_log(),
{
    let mut v: Vec<u8> = Vec::new();
    v.push(116);
    v.push(101);
    v.push(115);
    v.push(116);
    v.push(95);
    v.push(108);
    v.push(111);
    v.push(103);
    proof {
        assert(v@ =~= kw_test_log());
    }
    v
}

fn kw_default_log_filter_vec() -> (v: Vec<u8>)
    ensures
        v@ == kw_default_log_filter(),
{
    let mut v: Vec<u8> = Vec::new();
    v.push(100);
    v.push(101);
    v.push(102);
    v.push(97);
    v.push(117);
    v.push(108);
    v.push(116);
    v.push(95);
    v.push(108);
    v.push(111);
    v.push(103);
    v.push(95);
    v.push(102);
    v.push(105);
    v.push(108);
    v.push(116);
    v.push(101);
    v.push(114);
    proof {
        assert(v@ =~= kw_default_log_filter());
    }
    v
}

fn kw_test_vec() -> (v: Vec<u8>)
    ensures
        v@ == kw_test(),
{
    let mut v: Vec<u8> = Vec::new();
    v.push(116);
    v.push(101);
    v.push(115);
    v.push(116);
    proof {
        assert(v@ =~= kw_test());
    }
    v
}

fn kw_core_vec() -> (v: Vec<u8>)
    ensures
        v@ == kw_core(),
{
    let mut v: Vec<u8> = Vec::new();
    v.push(99);
    v.push(111);
    v.push(114);
    v.push(101);
    proof {
        assert(v@ =~= kw_core());
    }
    v
}

fn kw_std_vec() -> (v: Vec<u8>)
    ensures
        v@ == kw_std(),
{
    let mut v: Vec<u8> = Vec::new();
    v.push(115);
    v.push(116);
    v.push(100);
    proof {
        assert(v@ =~= kw_std());
    }
    v
}

fn kw_prelude_vec() -> (v: Vec<u8>)
    ensures
        v@ == kw_prelude(),
{
    let mut v: Vec<u8> = Vec::new();
    v.push(112);
    v.push(114);
    v.push(101);
    v.push(108);
    v.push(117);
    v.push(100);
    v.push(101);
    proof {
        assert(v@ =~= kw_prelude());
    }
    v
}

/// Whether a path is exactly the plain identifier held by `kw`.
fn path_matches_ident(p: &AttrPath, kw: &Vec<u8>) -> (r: bool)
    ensures
        r == path_is_ident(p@, kw@),
{
    if p.leading_colon || p.segments.len() != 1 {
        return false;
    }
    let seg = &p.segments[0];
    if seg.has_arguments {
        return false;
    }
    bytes_eq(seg.ident.as_slice(), kw.as_slice())
}

/// Recognizes the built-in test markers: bare `test` and the qualified
/// prelude forms rooted at `core` or `std`.
pub fn is_test_attribute(attr: &Attribute) -> (r: bool)
    ensures
        r == spec_is_test_attribute(attr@),
{
    match &attr.args {
        AttrInput::Bare => {},
        _ => {
            return false;
        },
    }
    let kw = kw_test_vec();
    if path_matches_ident(&attr.path, &kw) {
        return true;
    }
    let segs = &attr.path.segments;
    if segs.len() != 4 {
        return false;
    }
    if segs[0].has_arguments || segs[1].has_arguments || segs[2].has_arguments
        || segs[3].has_arguments {
        return false;
    }
    let kw_core = kw_core_vec();
    let kw_std = kw_std_vec();
    let kw_prelude = kw_prelude_vec();
    let root_ok = bytes_eq(segs[0].ident.as_slice(), kw_core.as_slice()) || bytes_eq(
        segs[0].ident.as_slice(),
        kw_std.as_slice(),
    );
    root_ok && bytes_eq(segs[1].ident.as_slice(), kw_prelude.as_slice()) && bytes_eq(
        segs[3].ident.as_slice(),
        kw.as_slice(),
    )
}

/// Recognizes the reserved configuration marker `test_log`.
pub fn is_config_attribute(attr: &Attribute) -> (r: bool)
    ensures
        r == is_config_attr(attr@),
{
    let kw = kw_test_log_vec();
    path_matches_ident(&attr.path, &kw)
}

impl AttributeArgs {
    /// Tries to consume one attribute as a configuration marker.  Returns
    /// `Ok(true)` and records the value if the attribute is a well-formed
    /// first marker, `Ok(false)` without changing anything if the attribute
    /// is no marker at all, and the configuration error otherwise.
    pub fn try_parse_attr_single(&mut self, attr: &Attribute) -> (r: Result<bool, AttrErrorKind>)
        ensures
            match r {
                Ok(true) => scan_step(attr@, old(self)@) == Ok::<Option<Seq<u8>>, AttrErrorKind>(
                    final(self)@,
                ) && is_config_attr(attr@) && final(self)@ == Some(config_attr_value(attr@)),
                Ok(false) => !is_config_attr(attr@) && final(self)@ == old(self)@,
                Err(k) => scan_step(attr@, old(self)@) == Err::<Option<Seq<u8>>, AttrErrorKind>(k)
                    && final(self)@ == old(self)@,
            },
    {
        let kw = kw_test_log_vec();
        if !path_matches_ident(&attr.path, &kw) {
            return Ok(false);
        }
        let call = match &attr.args {
            AttrInput::Call(c) => c,
            _ => {
                return Err(AttrErrorKind::MalformedSyntax);
            },
        };
        match call {
            CallShape::Unparseable => Err(AttrErrorKind::MalformedSyntax),
            CallShape::OtherMeta => Err(AttrErrorKind::ExpectedNameValue),
            CallShape::NameValue { key, value } => {
                if key.leading_colon || key.segments.len() != 1 || key.segments[0].has_arguments {
                    return Err(AttrErrorKind::ExpectedNameValue);
                }
                let kw_key = kw_default_log_filter_vec();
                if !bytes_eq(key.segments[0].ident.as_slice(), kw_key.as_slice()) {
                    return Err(AttrErrorKind::UnrecognizedKey);
                }
                match value {
                    LitShape::StrLit(s) => {
                        if self.default_log_filter.is_some() {
                            return Err(AttrErrorKind::DuplicateKey);
                        }
                        self.default_log_filter = Some(copy_bytes(s.as_slice()));
                        Ok(true)
                    },
                    _ => Err(AttrErrorKind::ExpectedStringValue),
                }
            },
        }
    }
}

impl PathSegment {
    /// An identical copy of the segment.
    pub fn duplicate(&self) -> (r: PathSegment)
        ensures
            r@ == self@,
    {
        PathSegment {
            ident: copy_bytes(self.ident.as_slice()),
            has_arguments: self.has_arguments,
        }
    }
}

impl AttrPath {
    /// An identical copy of the path.
    pub fn duplicate(&self) -> (r: AttrPath)
        ensures
            r@ == self@,
    {
        let mut segments: Vec<PathSegment> = Vec::new();
        let mut i: usize = 0;
        proof {
            assert(segments@.map_values(|s: PathSegment| s@) =~= self@.segments.take(0));
        }
        while i < self.segments.len()
            invariant
                i <= self.segments@.len(),
                self@.segments.len() == self.segments@.len(),
                segments@.map_values(|s: PathSegment| s@) == self@.segments.take(i as int),
            decreases self.segments@.len() - i,
        {
            let seg = self.segments[i].duplicate();
            proof {
                assert(seg@ == self.segments@[i as int]@);
                assert(self@.segments[i as int] == self.segments@[i as int]@);
            }
            segments.push(seg);
            proof {
                assert(segments@.drop_last().map_values(|s: PathSegment| s@) == self@.segments.take(
                    i as int,
                ));
                assert(segments@.map_values(|s: PathSegment| s@) =~= self@.segments.take(
                    i as int + 1,
                ));
            }
            i = i + 1;
        }
        proof {
            assert(self@.segments.take(i as int) =~= self@.segments);
        }
        AttrPath { leading_colon: self.leading_colon, segments }
    }
}

impl LitShape {
    /// An identical copy of the value shape.
    pub fn duplicate(&self) -> (r: LitShape)
        ensures
            r@ == self@,
    {
        match self {
            LitShape::StrLit(s) => LitShape::StrLit(copy_bytes(s.as_slice())),
            LitShape::OtherLit => LitShape::OtherLit,
            LitShape::NotLit => LitShape::NotLit,
        }
    }
}

impl CallShape {
    /// An identical copy of the call body.
    pub fn duplicate(&self) -> (r: CallShape)
        ensures
            r@ == self@,
    {
        match self {
            CallShape::NameValue { key, value } => CallShape::NameValue {
                key: key.duplicate(),
                value: value.duplicate(),
            },
            CallShape::OtherMeta => CallShape::OtherMeta,
            CallShape::Unparseable => CallShape::Unparseable,
        }
    }
}

impl AttrInput {
    /// An identical copy of the attribute input.
    pub fn duplicate(&self) -> (r: AttrInput)
        ensures
            r@ == self@,
    {
        match self {
            AttrInput::Bare => AttrInput::Bare,
            AttrInput::Assign(v) => AttrInput::Assign(v.duplicate()),
            AttrInput::Call(c) => AttrInput::Call(c.duplicate()),
        }
    }
}

impl Attribute {
    /// An identical copy of the attribute.
    pub fn duplicate(&self) -> (r: Attribute)
        ensures
            r@ == self@,
    {
        Attribute { path: self.path.duplicate(), args: self.args.duplicate() }
    }
}

/// Extracts the per-test configuration from a function's attribute list and
/// returns it together with the residual attributes (every attribute that is
/// not a configuration marker, order preserved).  The first malformed,
/// unrecognized or repeated marker is reported as an error at its position.
#[verifier::rlimit(60)]
pub fn parse_attrs(attrs: &Vec<Attribute>) -> (r: Result<
    (AttributeArgs, Vec<Attribute>),
    AttrError,
>)
    ensures
        ({
            let vs = attr_views(attrs@);
            match r {
                Ok((args, rest)) => {
                    &&& scan_attrs(vs, None) == Ok::<Option<Seq<u8>>, AttrErrorKind>(args@)
                    &&& attr_views(rest@) == residual_attrs(vs)
                },
                Err(e) => {
                    &&& scan_attrs(vs, None) == Err::<Option<Seq<u8>>, AttrErrorKind>(e.kind)
                    &&& attr_problem_location(vs, e.index as int, e.kind)
                },
            }
        }),
{
    let ghost vs = attr_views(attrs@);
    let mut residual: Vec<Attribute> = Vec::new();
    let mut args = AttributeArgs::default();
    let mut idx: usize = 0;
    proof {
        assert(vs.len() == attrs@.len());
        assert(vs.take(0) =~= Seq::<AttributeV>::empty());
        assert(residual_attrs(vs.take(0)) =~= Seq::<AttributeV>::empty());
        assert(attr_views(residual@) =~= Seq::<AttributeV>::empty());
    }
    while idx < attrs.len()
        invariant
            idx <= attrs@.len(),
            vs == attr_views(attrs@),
            vs.len() == attrs@.len(),
            scan_attrs(vs.take(idx as int), None) == Ok::<Option<Seq<u8>>, AttrErrorKind>(args@),
            attr_views(residual@) == residual_attrs(vs.take(idx as int)),
        decreases attrs@.len() - idx,
    {
        let a = &attrs[idx];
        proof {
            assert(a@ == vs[idx as int]);
            assert(vs.take(idx as int + 1).drop_last() =~= vs.take(idx as int));
            assert(vs.take(idx as int + 1) =~= vs.take(idx as int) + seq![vs[idx as int]]);
        }
        let ghost found_before = args@;
        let step = args.try_parse_attr_single(a);
        match step {
            Ok(true) => {
                proof {
                    reveal_with_fuel(scan_attrs, 3);
                    reveal_with_fuel(Seq::<_>::filter, 2);
                    let here = seq![vs[idx as int]];
                    lemma_scan_attrs_concat(vs.take(idx as int), here, None);
                    assert(here[0] == vs[idx as int]);
                    assert(here.drop_first() =~= Seq::<AttributeV>::empty());
                    assert(scan_step(vs[idx as int], found_before) == Ok::<
                        Option<Seq<u8>>,
                        AttrErrorKind,
                    >(args@));
                    assert(scan_attrs(here, found_before) == Ok::<Option<Seq<u8>>, AttrErrorKind>(
                        args@,
                    ));
                    assert(scan_attrs(vs.take(idx as int + 1), None) == Ok::<
                        Option<Seq<u8>>,
                        AttrErrorKind,
                    >(args@));
                    let next = vs.take(idx as int + 1);
                    assert(next.last() == vs[idx as int]);
                    assert(next.drop_last() =~= vs.take(idx as int));
                    assert(residual_attrs(next) =~= residual_attrs(vs.take(idx as int)));
                }
            },
            Ok(false) => {
                residual.push(a.duplicate());
                proof {
                    reveal_with_fuel(scan_attrs, 3);
                    reveal_with_fuel(Seq::<_>::filter, 2);
                    let here = seq![vs[idx as int]];
                    lemma_scan_attrs_concat(vs.take(idx as int), here, None);
                    assert(here[0] == vs[idx as int]);
                    assert(here.drop_first() =~= Seq::<AttributeV>::empty());
                    assert(scan_attrs(vs.take(idx as int + 1), None) == Ok::<
                        Option<Seq<u8>>,
                        AttrErrorKind,
                    >(args@));
                    let next = vs.take(idx as int + 1);
                    assert(next.last() == vs[idx as int]);
                    assert(next.drop_last() =~= vs.take(idx as int));
                    assert(residual_attrs(next) =~= residual_attrs(vs.take(idx as int)).push(
                        vs[idx as int],
                    ));
                    assert(attr_views(residual@) =~= residual_attrs(next));
                }
            },
            Err(k) => {
                proof {
                    reveal_with_fuel(scan_attrs, 2);
                    lemma_scan_attrs_concat(vs.take(idx as int), vs.skip(idx as int), None);
                    assert(vs.take(idx as int) + vs.skip(idx as int) =~= vs);
                    assert(vs.skip(idx as int)[0] == vs[idx as int]);
                    assert(scan_step(vs[idx as int], found_before) == Err::<
                        Option<Seq<u8>>,
                        AttrErrorKind,
                    >(k));
                    assert(scan_attrs(vs.skip(idx as int), found_before) == Err::<
                        Option<Seq<u8>>,
                        AttrErrorKind,
                    >(k));
                    assert(scan_attrs(vs, None) == Err::<Option<Seq<u8>>, AttrErrorKind>(k));
                    assert(is_config_attr(vs[idx as int]));
                }
                return Err(AttrError { kind: k, index: idx });
            },
        }
        idx = idx + 1;
    }
    proof {
        assert(vs.take(idx as int) =~= vs);
    }
    Ok((args, residual))
}

/// A configuration marker with a shape error anywhere in the list makes
/// the whole scan fail.
proof fn lemma_scan_config_error_err(s: Seq<AttributeV>, i: int, found: Option<Seq<u8>>)
    requires
        0 <= i < s.len(),
        is_config_attr(s[i]),
        config_attr_error(s[i]) is Some,
    ensures
        scan_attrs(s, found) is Err,
    decreases s.len(),
{
    if i == 0 {
    } else {
        match scan_step(s[0], found) {
            Ok(n) => {
                assert(s.drop_first()[i - 1] == s[i]);
                lemma_scan_config_error_err(s.drop_first(), i - 1, n);
            },
            Err(k) => {},
        }
    }
}

/// Once a value is recorded, any further configuration marker makes the
/// scan fail.
proof fn lemma_scan_config_found_err(s: Seq<AttributeV>, i: int, found: Option<Seq<u8>>)
    requires
        0 <= i < s.len(),
        is_config_attr(s[i]),
        found is Some,
    ensures
        scan_attrs(s, found) is Err,
    decreases s.len(),
{
    if i == 0 {
    } else {
        match scan_step(s[0], found) {
            Ok(n) => {
                assert(s.drop_first()[i - 1] == s[i]);
                lemma_scan_config_found_err(s.drop_first(), i - 1, n);
            },
            Err(k) => {},
        }
    }
}

/// Two configuration markers on one function are rejected as a build-time
/// error, whatever their values: the configuration is never silently
/// picked from one of them.
pub proof fn lemma_duplicate_marker_rejected(s: Seq<AttributeV>, i: int, j: int)
    requires
        0 <= i < j < s.len(),
        is_config_attr(s[i]),
        is_config_attr(s[j]),
    ensures
        scan_attrs(s, None) is Err,
{
    lemma_scan_two_configs_err(s, i, j, None);
}

/// The general form of `lemma_duplicate_marker_rejected`, for any starting
/// scan state.
proof fn lemma_scan_two_configs_err(s: Seq<AttributeV>, i: int, j: int, found: Option<Seq<u8>>)
    requires
        0 <= i < j < s.len(),
        is_config_attr(s[i]),
        is_config_attr(s[j]),
    ensures
        scan_attrs(s, found) is Err,
    decreases s.len(),
{
    match scan_step(s[0], found) {
        Err(k) => {},
        Ok(n) => {
            assert(s.drop_first()[j - 1] == s[j]);
            if i == 0 {
                lemma_scan_config_found_err(s.drop_first(), j - 1, n);
            } else {
                assert(s.drop_first()[i - 1] == s[i]);
                lemma_scan_two_configs_err(s.drop_first(), i - 1, j - 1, n);
            }
        },
    }
}

/// Giving the recognized configuration key a value that is not a string
/// literal is a build-time error, never a silently-accepted default.
pub proof fn lemma_non_string_value_rejected(s: Seq<AttributeV>, i: int)
    requires
        0 <= i < s.len(),
        is_config_attr(s[i]),
        s[i].args matches AttrInputV::Call(CallShapeV::NameValue { key, value }) && path_is_any_ident(
            key,
        ) && key.segments[0].ident == kw_default_log_filter() && !(value is StrLit),
    ensures
        scan_attrs(s, None) is Err,
{
    lemma_scan_config_error_err(s, i, None);
}

} // verus!
