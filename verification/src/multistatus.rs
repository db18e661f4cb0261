//! The multistatus response model: decoding a `DAV: multistatus` XML
//! document into typed responses. Decoding is structural — fixed element
//! names are mapped onto fixed fields, an unknown element is skipped
//! with its whole subtree, and missing optional properties default
//! (strings to empty, numbers to zero, flags to false). `href`,
//! `propstat`, `prop`, `status` and `displayname` are required where
//! their parent occurs, and a second one of any of them in the same
//! parent is an error. The decoder is a fold over the token events;
//! `parse_spec` pins the whole function.
use crate::error::DecodeError;
use crate::privilege::{CurrentUserPrivilegeSet, CurrentUserPrivilegeSetView, PrivilegeType};
use crate::strutil::{
    all_digits,
    dec_val,
    digit_val,
    is_digit,
    lemma_dec_val_nonneg,
    lemma_dec_val_prefix,
    str_eq,
};
use crate::xml::{evs_view, tok_from, tokenize, XmlEvent, XmlEventModel};
use vstd::prelude::*;

verus! {

// ---------------------------------------------------------------------
// Field value parsing
// ---------------------------------------------------------------------
/// What parsing an unsigned decimal field yields: the denoted number,
/// or nothing when the text is empty, holds a non-digit, or denotes a
/// number too large for sixty-four bits.
pub open spec fn parse_u64_spec(s: Seq<char>) -> Option<u64> {
    if s.len() > 0 && all_digits(s) && dec_val(s) <= u64::MAX {
        Some(dec_val(s) as u64)
    } else {
        None
    }
}

/// What parsing a boolean field yields: `true`/`1`, `false`/`0`, or
/// nothing.
pub open spec fn parse_bool_spec(s: Seq<char>) -> Option<bool> {
    if s == "true"@ || s == "1"@ {
        Some(true)
    } else if s == "false"@ || s == "0"@ {
        Some(false)
    } else {
        None
    }
}

/// Parses an unsigned decimal field, exactly as `parse_u64_spec`
/// describes.
pub fn parse_u64(s: &str) -> (r: Option<u64>)
    ensures
        r == parse_u64_spec(s@),
{
    let len = s.unicode_len();
    if len == 0 {
        return None;
    }
    let mut val: u64 = 0;
    let mut i: usize = 0;
    while i < len
        invariant
            i <= len,
            len == s@.len(),
            all_digits(s@.subrange(0, i as int)),
            val == dec_val(s@.subrange(0, i as int)),
        decreases len - i,
    {
        let c = s.get_char(i);
        let u = c as u32;
        if !(48 <= u && u <= 57) {
            proof {
                assert(!is_digit(s@[i as int]));
                assert(!all_digits(s@));
            }
            return None;
        }
        let d = (u - 48) as u64;
        proof {
            assert(s@.subrange(0, i as int + 1).drop_last() =~= s@.subrange(0, i as int));
            assert(s@.subrange(0, i as int + 1).last() == s@[i as int]);
            assert(all_digits(s@.subrange(0, i as int + 1))) by {
                assert(forall|k: int|
                    0 <= k < i + 1 ==> s@.subrange(0, i as int + 1)[k] == s@[k]);
            }
        }
        if val > (u64::MAX - d) / 10 {
            proof {
                let nxt = s@.subrange(0, i as int + 1);
                assert(dec_val(nxt) == val * 10 + d);
                assert(dec_val(nxt) > u64::MAX);
                if all_digits(s@) && dec_val(s@) <= u64::MAX {
                    lemma_dec_val_prefix(s@, i as int + 1);
                    assert(s@.subrange(0, i as int + 1) == nxt);
                    assert(false);
                }
            }
            return None;
        }
        val = val * 10 + d;
        i += 1;
    }
    proof {
        assert(s@.subrange(0, len as int) =~= s@);
    }
    Some(val)
}

/// Parses a boolean field, exactly as `parse_bool_spec` describes.
pub fn parse_bool(s: &str) -> (r: Option<bool>)
    ensures
        r == parse_bool_spec(s@),
{
    if str_eq(s, "true") || str_eq(s, "1") {
        Some(true)
    } else if str_eq(s, "false") || str_eq(s, "0") {
        Some(false)
    } else {
        None
    }
}

// ---------------------------------------------------------------------
// The decoded document
// ---------------------------------------------------------------------
/// A decoded multistatus document: one entry per `response` element, in
/// document order.
#[derive(Debug, Clone)]
pub struct MultiStatus {
    pub response: Vec<DResponse>,
}

#[verifier::ext_equal]
pub struct MultiStatusView {
    pub response: Seq<DResponseView>,
}

impl View for MultiStatus {
    type V = MultiStatusView;

    open spec fn view(&self) -> MultiStatusView {
        MultiStatusView { response: self.response@.map_values(|d: DResponse| d@) }
    }
}

/// One `response` element: the resource's `href` and its `propstat`.
#[derive(Debug, Clone)]
pub struct DResponse {
    pub href: String,
    pub prop_stat: PropStat,
}

#[verifier::ext_equal]
pub struct DResponseView {
    pub href: Seq<char>,
    pub prop_stat: PropStatView,
}

impl View for DResponse {
    type V = DResponseView;

    open spec fn view(&self) -> DResponseView {
        DResponseView { href: self.href@, prop_stat: self.prop_stat@ }
    }
}

impl DResponse {
    /// The properties of this response.
    pub fn into_prop(self) -> (r: Prop)
        ensures
            r@ == self@.prop_stat.prop,
    {
        self.prop_stat.prop
    }
}

/// A `propstat` element: properties and the status they came with.
#[derive(Debug, Clone)]
pub struct PropStat {
    pub prop: Prop,
    pub status: String,
}

#[verifier::ext_equal]
pub struct PropStatView {
    pub prop: PropView,
    pub status: Seq<char>,
}

impl View for PropStat {
    type V = PropStatView;

    open spec fn view(&self) -> PropStatView {
        PropStatView { prop: self.prop@, status: self.status@ }
    }
}

/// The decoded properties of one resource.
#[derive(Debug, Clone)]
pub struct Prop {
    pub display_name: String,
    pub content_type: String,
    pub last_modified: String,
    pub content_length: u64,
    pub collection: bool,
    pub resource_type: Option<ResourceType>,
    pub current_user_privilege_set: Option<CurrentUserPrivilegeSet>,
}

#[verifier::ext_equal]
pub struct PropView {
    pub display_name: Seq<char>,
    pub content_type: Seq<char>,
    pub last_modified: Seq<char>,
    pub content_length: u64,
    pub collection: bool,
    pub resource_type: Option<ResourceTypeView>,
    pub current_user_privilege_set: Option<CurrentUserPrivilegeSetView>,
}

impl View for Prop {
    type V = PropView;

    open spec fn view(&self) -> PropView {
        PropView {
            display_name: self.display_name@,
            content_type: self.content_type@,
            last_modified: self.last_modified@,
            content_length: self.content_length,
            collection: self.collection,
            resource_type: match self.resource_type {
                Some(rt) => Some(rt@),
                None => None,
            },
            current_user_privilege_set: match self.current_user_privilege_set {
                Some(ps) => Some(ps@),
                None => None,
            },
        }
    }
}

/// Whether a decoded property view marks a collection: either the
/// literal `iscollection` flag, or a `resourcetype` with a `collection`
/// marker — both server-dependent encodings count.
pub open spec fn is_collection_view(p: PropView) -> bool {
    p.collection || (p.resource_type matches Some(rt) && rt.collection is Some)
}

impl Prop {
    /// True when either the literal flag is set or the `resourcetype`
    /// holds a `collection` marker.
    pub fn is_collection(&self) -> (r: bool)
        ensures
            r == is_collection_view(self@),
    {
        self.collection || (match &self.resource_type {
            Some(ty) => ty.collection.is_some(),
            None => false,
        })
    }
}

/// A `resourcetype` element; `collection` is present when the nested
/// collection marker was.
#[derive(Debug, Clone)]
pub struct ResourceType {
    pub collection: Option<String>,
}

#[verifier::ext_equal]
pub struct ResourceTypeView {
    pub collection: Option<Seq<char>>,
}

impl View for ResourceType {
    type V = ResourceTypeView;

    open spec fn view(&self) -> ResourceTypeView {
        ResourceTypeView {
            collection: match self.collection {
                Some(c) => Some(c@),
                None => None,
            },
        }
    }
}

// ---------------------------------------------------------------------
// The decoder: a fold over token events
// ---------------------------------------------------------------------
/// Which leaf element's text is being captured.
#[derive(Debug, Clone, Copy, PartialEq, Eq, Structural)]
pub enum CaptureField {
    Href,
    DisplayName,
    ContentType,
    LastModified,
    ContentLength,
    IsCollection,
    Status,
}

/// The element name a capture field belongs to.
pub open spec fn capture_name(f: CaptureField) -> Seq<char> {
    match f {
        CaptureField::Href => "href"@,
        CaptureField::DisplayName => "displayname"@,
        CaptureField::ContentType => "getcontenttype"@,
        CaptureField::LastModified => "getlastmodified"@,
        CaptureField::ContentLength => "getcontentlength"@,
        CaptureField::IsCollection => "iscollection"@,
        CaptureField::Status => "status"@,
    }
}

/// The decoder's state between events.
#[verifier::ext_equal]
pub struct BState {
    pub error: bool,
    pub responses: Seq<DResponseView>,
    pub in_response: bool,
    pub href: Option<Seq<char>>,
    pub propstat: Option<PropStatView>,
    pub in_propstat: bool,
    pub status: Option<Seq<char>>,
    pub prop_done: Option<PropView>,
    pub in_prop: bool,
    pub display_name: Option<Seq<char>>,
    pub content_type: Seq<char>,
    pub last_modified: Seq<char>,
    pub content_length: u64,
    pub collection: bool,
    pub resource_type: Option<ResourceTypeView>,
    pub privset: Option<Seq<PrivilegeType>>,
    pub in_resourcetype: bool,
    pub in_privset: bool,
    pub in_privilege: bool,
    pub capture: Option<CaptureField>,
    pub buf: Seq<char>,
    /// Whether the document's root element is open.
    pub in_root: bool,
    /// The depth inside a skipped unknown subtree; zero outside one.
    pub skip: nat,
}

pub open spec fn init_state() -> BState {
    BState {
        error: false,
        responses: Seq::empty(),
        in_response: false,
        href: None,
        propstat: None,
        in_propstat: false,
        status: None,
        prop_done: None,
        in_prop: false,
        display_name: None,
        content_type: Seq::empty(),
        last_modified: Seq::empty(),
        content_length: 0,
        collection: false,
        resource_type: None,
        privset: None,
        in_resourcetype: false,
        in_privset: false,
        in_privilege: false,
        capture: None,
        buf: Seq::empty(),
        in_root: false,
        skip: 0,
    }
}

/// The privilege type a marker tag inside a `privilege` element denotes.
pub open spec fn tag_privilege(name: Seq<char>) -> PrivilegeType {
    if name == "read"@ {
        PrivilegeType::Read
    } else if name == "write"@ {
        PrivilegeType::Write
    } else if name == "read_acl"@ {
        PrivilegeType::ReadAcl
    } else if name == "write_acl"@ {
        PrivilegeType::WriteAcl
    } else if name == "all"@ {
        PrivilegeType::All
    } else {
        PrivilegeType::Unrecognized
    }
}

pub open spec fn push_priv(o: Option<Seq<PrivilegeType>>, t: PrivilegeType) -> Option<
    Seq<PrivilegeType>,
> {
    match o {
        Some(s) => Some(s.push(t)),
        None => Some(seq![t]),
    }
}

/// What an opening tag does to the state. Dispatch is by context, as in
/// a recursive descent: inside each recognised element only its own
/// children are meaningful; any other element is skipped together with
/// its whole subtree, and a second occurrence of a required singleton
/// (`href`, `propstat`, `prop`, `status`) is an error. The first element
/// of the document, whatever its name, is the root.
pub open spec fn step_open(st: BState, name: Seq<char>) -> BState {
    if st.capture is Some {
        BState { error: true, ..st }
    } else if st.in_privilege {
        BState { privset: push_priv(st.privset, tag_privilege(name)), skip: 1, ..st }
    } else if st.in_privset {
        if name == "privilege"@ {
            BState { in_privilege: true, ..st }
        } else {
            BState { skip: 1, ..st }
        }
    } else if st.in_resourcetype {
        if name == "collection"@ {
            BState {
                resource_type: Some(ResourceTypeView { collection: Some(Seq::empty()) }),
                skip: 1,
                ..st
            }
        } else {
            BState { skip: 1, ..st }
        }
    } else if st.in_prop {
        if name == "displayname"@ {
            BState { capture: Some(CaptureField::DisplayName), buf: Seq::empty(), ..st }
        } else if name == "getcontenttype"@ {
            BState { capture: Some(CaptureField::ContentType), buf: Seq::empty(), ..st }
        } else if name == "getlastmodified"@ {
            BState { capture: Some(CaptureField::LastModified), buf: Seq::empty(), ..st }
        } else if name == "getcontentlength"@ {
            BState { capture: Some(CaptureField::ContentLength), buf: Seq::empty(), ..st }
        } else if name == "iscollection"@ {
            BState { capture: Some(CaptureField::IsCollection), buf: Seq::empty(), ..st }
        } else if name == "resourcetype"@ {
            BState {
                in_resourcetype: true,
                resource_type: Some(ResourceTypeView { collection: None }),
                ..st
            }
        } else if name == "current-user-privilege-set"@ {
            BState { in_privset: true, privset: Some(Seq::empty()), ..st }
        } else if name == "prop"@ {
            BState { error: true, ..st }
        } else {
            BState { skip: 1, ..st }
        }
    } else if st.in_propstat {
        if name == "prop"@ {
            if st.prop_done is Some {
                BState { error: true, ..st }
            } else {
                BState {
                    in_prop: true,
                    display_name: None,
                    content_type: Seq::empty(),
                    last_modified: Seq::empty(),
                    content_length: 0,
                    collection: false,
                    resource_type: None,
                    privset: None,
                    ..st
                }
            }
        } else if name == "status"@ {
            if st.status is Some {
                BState { error: true, ..st }
            } else {
                BState { capture: Some(CaptureField::Status), buf: Seq::empty(), ..st }
            }
        } else {
            BState { skip: 1, ..st }
        }
    } else if st.in_response {
        if name == "href"@ {
            if st.href is Some {
                BState { error: true, ..st }
            } else {
                BState { capture: Some(CaptureField::Href), buf: Seq::empty(), ..st }
            }
        } else if name == "propstat"@ {
            if st.propstat is Some {
                BState { error: true, ..st }
            } else {
                BState { in_propstat: true, status: None, prop_done: None, ..st }
            }
        } else {
            BState { skip: 1, ..st }
        }
    } else if st.in_root {
        if name == "response"@ {
            BState { in_response: true, href: None, propstat: None, ..st }
        } else {
            BState { skip: 1, ..st }
        }
    } else {
        BState { in_root: true, ..st }
    }
}

/// Committing a captured leaf's text into its field.
pub open spec fn commit_capture(st: BState, f: CaptureField) -> BState {
    match f {
        CaptureField::Href => BState { capture: None, href: Some(st.buf), ..st },
        CaptureField::DisplayName => BState { capture: None, display_name: Some(st.buf), ..st },
        CaptureField::ContentType => BState { capture: None, content_type: st.buf, ..st },
        CaptureField::LastModified => BState { capture: None, last_modified: st.buf, ..st },
        CaptureField::ContentLength => match parse_u64_spec(st.buf) {
            Some(v) => BState { capture: None, content_length: v, ..st },
            None => BState { error: true, ..st },
        },
        CaptureField::IsCollection => match parse_bool_spec(st.buf) {
            Some(b) => BState { capture: None, collection: b, ..st },
            None => BState { error: true, ..st },
        },
        CaptureField::Status => BState { capture: None, status: Some(st.buf), ..st },
    }
}

/// The property record the accumulated fields assemble into.
pub open spec fn assembled_prop(st: BState) -> PropView {
    PropView {
        display_name: st.display_name->Some_0,
        content_type: st.content_type,
        last_modified: st.last_modified,
        content_length: st.content_length,
        collection: st.collection,
        resource_type: st.resource_type,
        current_user_privilege_set: match st.privset {
            Some(ps) => Some(CurrentUserPrivilegeSetView { privileges: ps }),
            None => None,
        },
    }
}

/// What a closing tag does to the state.
pub open spec fn step_close(st: BState, name: Seq<char>) -> BState {
    match st.capture {
        Some(f) => if name == capture_name(f) {
            commit_capture(st, f)
        } else {
            BState { error: true, ..st }
        },
        None => step_close_elem(st, name),
    }
}

/// What a closing tag does to the state, outside a captured leaf: it
/// either ends the innermost recognised element — committing what that
/// element requires — or, as a stray close, changes nothing. An element
/// whose requirements are unmet when it closes is an error.
pub open spec fn step_close_elem(st: BState, name: Seq<char>) -> BState {
    if st.in_privilege {
        if name == "privilege"@ {
            BState { in_privilege: false, ..st }
        } else {
            st
        }
    } else if st.in_privset {
        if name == "current-user-privilege-set"@ {
            BState { in_privset: false, ..st }
        } else {
            st
        }
    } else if st.in_resourcetype {
        if name == "resourcetype"@ {
            BState { in_resourcetype: false, ..st }
        } else {
            st
        }
    } else if st.in_prop {
        if name == "prop"@ {
            if st.display_name is Some {
                BState { in_prop: false, prop_done: Some(assembled_prop(st)), ..st }
            } else {
                BState { error: true, ..st }
            }
        } else {
            st
        }
    } else if st.in_propstat {
        if name == "propstat"@ {
            if st.prop_done is Some && st.status is Some {
                BState {
                    in_propstat: false,
                    propstat: Some(
                        PropStatView { prop: st.prop_done->Some_0, status: st.status->Some_0 },
                    ),
                    prop_done: None,
                    status: None,
                    ..st
                }
            } else {
                BState { error: true, ..st }
            }
        } else {
            st
        }
    } else if st.in_response {
        if name == "response"@ {
            if st.href is Some && st.propstat is Some {
                BState {
                    in_response: false,
                    responses: st.responses.push(
                        DResponseView { href: st.href->Some_0, prop_stat: st.propstat->Some_0 },
                    ),
                    href: None,
                    propstat: None,
                    ..st
                }
            } else {
                BState { error: true, ..st }
            }
        } else {
            st
        }
    } else if st.in_root {
        BState { in_root: false, ..st }
    } else {
        st
    }
}

/// One decoding step. Inside a skipped unknown subtree only the depth
/// moves: opens deepen it, closes shallow it, text is dropped.
pub open spec fn step(st: BState, ev: XmlEventModel) -> BState {
    if st.error {
        st
    } else if st.skip > 0 {
        match ev {
            XmlEventModel::Open { name } => BState { skip: (st.skip + 1) as nat, ..st },
            XmlEventModel::Close { name } => BState { skip: (st.skip - 1) as nat, ..st },
            XmlEventModel::Text { text } => st,
        }
    } else {
        match ev {
            XmlEventModel::Text { text } => if st.capture is Some {
                BState { buf: st.buf + text, ..st }
            } else {
                st
            },
            XmlEventModel::Open { name } => step_open(st, name),
            XmlEventModel::Close { name } => step_close(st, name),
        }
    }
}

/// Folding the whole event list through `step`.
pub open spec fn build_fold(evs: Seq<XmlEventModel>, st: BState) -> BState
    decreases evs.len(),
{
    if evs.len() == 0 {
        st
    } else {
        build_fold(evs.drop_first(), step(st, evs[0]))
    }
}

/// What a fully folded state yields: the decoded document, or nothing
/// when an error occurred or an element never closed.
pub open spec fn finish_spec(st: BState) -> Option<MultiStatusView> {
    if st.error || st.in_root || st.skip > 0 || st.in_response || st.in_propstat || st.in_prop
        || st.in_resourcetype || st.in_privset || st.in_privilege || st.capture is Some {
        None
    } else {
        Some(MultiStatusView { response: st.responses })
    }
}

/// What parsing a whole document yields: tokenization, then the fold.
pub open spec fn parse_spec(s: Seq<char>) -> Option<MultiStatusView> {
    match tok_from(s, 0) {
        None => None,
        Some(evs) => finish_spec(build_fold(evs, init_state())),
    }
}

/// No event of the list opens a `response` element.
pub open spec fn no_response_open(evs: Seq<XmlEventModel>) -> bool {
    forall|j: int|
        0 <= j < evs.len() ==> !(#[trigger] evs[j] matches XmlEventModel::Open { name }
            && name == "response"@)
}

/// A state inside no recognised element, with nothing captured and no
/// error; whether the root is open, and the skip depth, are arbitrary.
pub open spec fn quiescent(st: BState) -> bool {
    &&& !st.error
    &&& !st.in_response
    &&& !st.in_propstat
    &&& !st.in_prop
    &&& !st.in_resourcetype
    &&& !st.in_privset
    &&& !st.in_privilege
    &&& st.capture is None
}

/// Without an opening `response` tag the decoder never enters a
/// response, never errs, and collects nothing: a fold over such events
/// keeps the state quiescent and its response list unchanged.
pub proof fn lemma_fold_without_responses(evs: Seq<XmlEventModel>, st: BState)
    requires
        quiescent(st),
        no_response_open(evs),
    ensures
        quiescent(build_fold(evs, st)),
        build_fold(evs, st).responses == st.responses,
    decreases evs.len(),
{
    if evs.len() > 0 {
        assert(!(evs[0] matches XmlEventModel::Open { name } && name == "response"@));
        let st1 = step(st, evs[0]);
        assert(quiescent(st1) && st1.responses == st.responses);
        assert(no_response_open(evs.drop_first())) by {
            assert(forall|j: int|
                0 <= j < evs.drop_first().len() ==> evs.drop_first()[j] == evs[j + 1]);
        }
        lemma_fold_without_responses(evs.drop_first(), st1);
    }
}

/// The decoder's executable state.
struct Builder {
    error: bool,
    responses: Vec<DResponse>,
    in_response: bool,
    href: Option<String>,
    propstat: Option<PropStat>,
    in_propstat: bool,
    status: Option<String>,
    prop_done: Option<Prop>,
    in_prop: bool,
    display_name: Option<String>,
    content_type: String,
    last_modified: String,
    content_length: u64,
    collection: bool,
    resource_type: Option<ResourceType>,
    privset: Option<Vec<PrivilegeType>>,
    in_resourcetype: bool,
    in_privset: bool,
    in_privilege: bool,
    capture: Option<CaptureField>,
    buf: String,
    in_root: bool,
    skip: usize,
}

impl View for Builder {
    type V = BState;

    closed spec fn view(&self) -> BState {
        BState {
            error: self.error,
            responses: self.responses@.map_values(|d: DResponse| d@),
            in_response: self.in_response,
            href: match self.href {
                Some(h) => Some(h@),
                None => None,
            },
            propstat: match self.propstat {
                Some(p) => Some(p@),
                None => None,
            },
            in_propstat: self.in_propstat,
            status: match self.status {
                Some(s) => Some(s@),
                None => None,
            },
            prop_done: match self.prop_done {
                Some(p) => Some(p@),
                None => None,
            },
            in_prop: self.in_prop,
            display_name: match self.display_name {
                Some(d) => Some(d@),
                None => None,
            },
            content_type: self.content_type@,
            last_modified: self.last_modified@,
            content_length: self.content_length,
            collection: self.collection,
            resource_type: match self.resource_type {
                Some(rt) => Some(rt@),
                None => None,
            },
            privset: match self.privset {
                Some(ps) => Some(ps@),
                None => None,
            },
            in_resourcetype: self.in_resourcetype,
            in_privset: self.in_privset,
            in_privilege: self.in_privilege,
            capture: self.capture,
            buf: self.buf@,
            in_root: self.in_root,
            skip: self.skip as nat,
        }
    }
}

impl Builder {
    fn new() -> (r: Builder)
        ensures
            r@ == init_state(),
    {
        let r = Builder {
            error: false,
            responses: Vec::new(),
            in_response: false,
            href: None,
            propstat: None,
            in_propstat: false,
            status: None,
            prop_done: None,
            in_prop: false,
            display_name: None,
            content_type: String::new(),
            last_modified: String::new(),
            content_length: 0,
            collection: false,
            resource_type: None,
            privset: None,
            in_resourcetype: false,
            in_privset: false,
            in_privilege: false,
            capture: None,
            buf: String::new(),
            in_root: false,
            skip: 0,
        };
        proof {
            assert(r@ =~= init_state());
        }
        r
    }

    /// The element name a capture field belongs to.
    fn capture_tag(f: CaptureField) -> (r: &'static str)
        ensures
            r@ == capture_name(f),
    {
        match f {
            CaptureField::Href => "href",
            CaptureField::DisplayName => "displayname",
            CaptureField::ContentType => "getcontenttype",
            CaptureField::LastModified => "getlastmodified",
            CaptureField::ContentLength => "getcontentlength",
            CaptureField::IsCollection => "iscollection",
            CaptureField::Status => "status",
        }
    }

    /// Applies one opening tag, exactly as `step_open` describes.
    #[verifier::rlimit(100)]
    fn apply_open(&mut self, name: &str)
        requires
            !old(self)@.error,
            old(self)@.skip == 0,
        ensures
            final(self)@ == step_open(old(self)@, name@),
    {
        if self.capture.is_some() {
            self.error = true;
            proof {
                assert(self@ =~= BState { error: true, ..old(self)@ });
            }
        } else if self.in_privilege {
            let t = if str_eq(name, "read") {
                PrivilegeType::Read
            } else if str_eq(name, "write") {
                PrivilegeType::Write
            } else if str_eq(name, "read_acl") {
                PrivilegeType::ReadAcl
            } else if str_eq(name, "write_acl") {
                PrivilegeType::WriteAcl
            } else if str_eq(name, "all") {
                PrivilegeType::All
            } else {
                PrivilegeType::Unrecognized
            };
            proof {
                assert(t == tag_privilege(name@));
            }
            match self.privset.take() {
                Some(mut ps) => {
                    ps.push(t);
                    self.privset = Some(ps);
                },
                None => {
                    let mut ps: Vec<PrivilegeType> = Vec::new();
                    ps.push(t);
                    self.privset = Some(ps);
                    proof {
                        assert(ps@ =~= seq![t]);
                    }
                },
            }
            self.skip = 1;
            proof {
                assert(self@ =~= BState {
                    privset: push_priv(old(self)@.privset, tag_privilege(name@)),
                    skip: 1,
                    ..old(self)@
                });
            }
        } else if self.in_privset {
            if str_eq(name, "privilege") {
                self.in_privilege = true;
            } else {
                self.skip = 1;
            }
            proof {
                assert(self@ =~= step_open(old(self)@, name@));
            }
        } else if self.in_resourcetype {
            if str_eq(name, "collection") {
                self.resource_type = Some(ResourceType { collection: Some(String::new()) });
            }
            self.skip = 1;
            proof {
                assert(self@ =~= step_open(old(self)@, name@));
            }
        } else if self.in_prop {
            if str_eq(name, "displayname") {
                self.capture = Some(CaptureField::DisplayName);
                self.buf = String::new();
            } else if str_eq(name, "getcontenttype") {
                self.capture = Some(CaptureField::ContentType);
                self.buf = String::new();
            } else if str_eq(name, "getlastmodified") {
                self.capture = Some(CaptureField::LastModified);
                self.buf = String::new();
            } else if str_eq(name, "getcontentlength") {
                self.capture = Some(CaptureField::ContentLength);
                self.buf = String::new();
            } else if str_eq(name, "iscollection") {
                self.capture = Some(CaptureField::IsCollection);
                self.buf = String::new();
            } else if str_eq(name, "resourcetype") {
                self.in_resourcetype = true;
                self.resource_type = Some(ResourceType { collection: None });
            } else if str_eq(name, "current-user-privilege-set") {
                self.in_privset = true;
                self.privset = Some(Vec::new());
            } else if str_eq(name, "prop") {
                self.error = true;
            } else {
                self.skip = 1;
            }
            proof {
                assert(self@ =~= step_open(old(self)@, name@));
            }
        } else if self.in_propstat {
            if str_eq(name, "prop") {
                if self.prop_done.is_some() {
                    self.error = true;
                } else {
                    self.in_prop = true;
                    self.display_name = None;
                    self.content_type = String::new();
                    self.last_modified = String::new();
                    self.content_length = 0;
                    self.collection = false;
                    self.resource_type = None;
                    self.privset = None;
                }
            } else if str_eq(name, "status") {
                if self.status.is_some() {
                    self.error = true;
                } else {
                    self.capture = Some(CaptureField::Status);
                    self.buf = String::new();
                }
            } else {
                self.skip = 1;
            }
            proof {
                assert(self@ =~= step_open(old(self)@, name@));
            }
        } else if self.in_response {
            if str_eq(name, "href") {
                if self.href.is_some() {
                    self.error = true;
                } else {
                    self.capture = Some(CaptureField::Href);
                    self.buf = String::new();
                }
            } else if str_eq(name, "propstat") {
                if self.propstat.is_some() {
                    self.error = true;
                } else {
                    self.in_propstat = true;
                    self.status = None;
                    self.prop_done = None;
                }
            } else {
                self.skip = 1;
            }
            proof {
                assert(self@ =~= step_open(old(self)@, name@));
            }
        } else if self.in_root {
            if str_eq(name, "response") {
                self.in_response = true;
                self.href = None;
                self.propstat = None;
            } else {
                self.skip = 1;
            }
            proof {
                assert(self@ =~= step_open(old(self)@, name@));
            }
        } else {
            self.in_root = true;
            proof {
                assert(self@ =~= step_open(old(self)@, name@));
            }
        }
    }

    /// Applies one closing tag, exactly as `step_close` describes.
    #[verifier::rlimit(100)]
    fn apply_close(&mut self, name: &str)
        requires
            !old(self)@.error,
            old(self)@.skip == 0,
        ensures
            final(self)@ == step_close(old(self)@, name@),
    {
        let cap = self.capture;
        if let Some(f) = cap {
            if str_eq(name, Self::capture_tag(f)) {
                match f {
                    CaptureField::Href => {
                        self.href = Some(self.buf.clone());
                        self.capture = None;
                    },
                    CaptureField::DisplayName => {
                        self.display_name = Some(self.buf.clone());
                        self.capture = None;
                    },
                    CaptureField::ContentType => {
                        self.content_type = self.buf.clone();
                        self.capture = None;
                    },
                    CaptureField::LastModified => {
                        self.last_modified = self.buf.clone();
                        self.capture = None;
                    },
                    CaptureField::ContentLength => {
                        match parse_u64(self.buf.as_str()) {
                            Some(v) => {
                                self.content_length = v;
                                self.capture = None;
                            },
                            None => {
                                self.error = true;
                            },
                        }
                    },
                    CaptureField::IsCollection => {
                        match parse_bool(self.buf.as_str()) {
                            Some(b) => {
                                self.collection = b;
                                self.capture = None;
                            },
                            None => {
                                self.error = true;
                            },
                        }
                    },
                    CaptureField::Status => {
                        self.status = Some(self.buf.clone());
                        self.capture = None;
                    },
                }
            } else {
                self.error = true;
            }
            proof {
                assert(self@ =~= step_close(old(self)@, name@));
            }
        } else if self.in_privilege {
            if str_eq(name, "privilege") {
                self.in_privilege = false;
            }
            proof {
                assert(self@ =~= step_close(old(self)@, name@));
            }
        } else if self.in_privset {
            if str_eq(name, "current-user-privilege-set") {
                self.in_privset = false;
            }
            proof {
                assert(self@ =~= step_close(old(self)@, name@));
            }
        } else if self.in_resourcetype {
            if str_eq(name, "resourcetype") {
                self.in_resourcetype = false;
            }
            proof {
                assert(self@ =~= step_close(old(self)@, name@));
            }
        } else if self.in_prop {
            if str_eq(name, "prop") {
                if self.display_name.is_some() {
                    let prop = self.assemble_prop();
                    self.in_prop = false;
                    self.prop_done = Some(prop);
                } else {
                    self.error = true;
                }
            }
            proof {
                assert(self@ =~= step_close(old(self)@, name@));
            }
        } else if self.in_propstat {
            if str_eq(name, "propstat") {
                let pd = self.prop_done.take();
                let stx = self.status.take();
                match (pd, stx) {
                    (Some(prop), Some(status)) => {
                        self.in_propstat = false;
                        self.propstat = Some(PropStat { prop, status });
                        self.prop_done = None;
                        self.status = None;
                    },
                    (a, b) => {
                        self.prop_done = a;
                        self.status = b;
                        self.error = true;
                    },
                }
            }
            proof {
                assert(self@ =~= step_close(old(self)@, name@));
            }
        } else if self.in_response {
            if str_eq(name, "response") {
                let h = self.href.take();
                let ps = self.propstat.take();
                match (h, ps) {
                    (Some(href), Some(prop_stat)) => {
                        self.in_response = false;
                        self.responses.push(DResponse { href, prop_stat });
                        self.href = None;
                        self.propstat = None;
                        proof {
                            assert(self@.responses =~= old(self)@.responses.push(
                                DResponseView {
                                    href: old(self)@.href->Some_0,
                                    prop_stat: old(self)@.propstat->Some_0,
                                },
                            ));
                        }
                    },
                    (a, b) => {
                        self.href = a;
                        self.propstat = b;
                        self.error = true;
                    },
                }
            }
            proof {
                assert(self@ =~= step_close(old(self)@, name@));
            }
        } else if self.in_root {
            self.in_root = false;
            proof {
                assert(self@ =~= step_close(old(self)@, name@));
            }
        } else {
            proof {
                assert(self@ =~= step_close(old(self)@, name@));
            }
        }
    }

    /// Assembles the accumulated property fields, exactly as
    /// `assembled_prop` describes.
    fn assemble_prop(&self) -> (r: Prop)
        requires
            self@.display_name is Some,
        ensures
            r@ == assembled_prop(self@),
    {
        let display_name = match &self.display_name {
            Some(d) => d.clone(),
            None => String::new(),
        };
        let r = Prop {
            display_name,
            content_type: self.content_type.clone(),
            last_modified: self.last_modified.clone(),
            content_length: self.content_length,
            collection: self.collection,
            resource_type: match &self.resource_type {
                Some(rt) => Some(
                    ResourceType {
                        collection: match &rt.collection {
                            Some(c) => Some(c.clone()),
                            None => None,
                        },
                    },
                ),
                None => None,
            },
            current_user_privilege_set: match &self.privset {
                Some(ps) => Some(CurrentUserPrivilegeSet { privileges: ps.clone() }),
                None => None,
            },
        };
        proof {
            assert(r@ =~= assembled_prop(self@));
        }
        r
    }

    /// Applies one event, exactly as `step` describes.
    #[verifier::rlimit(100)]
    fn apply(&mut self, ev: &XmlEvent)
        requires
            old(self)@.skip < usize::MAX,
        ensures
            final(self)@ == step(old(self)@, ev@),
    {
        if self.error {
            return ;
        }
        if self.skip > 0 {
            match ev {
                XmlEvent::Open(_) => {
                    self.skip = self.skip + 1;
                },
                XmlEvent::Close(_) => {
                    self.skip = self.skip - 1;
                },
                XmlEvent::Text(_) => {},
            }
            proof {
                assert(self@ =~= step(old(self)@, ev@));
            }
            return ;
        }
        match ev {
            XmlEvent::Text(t) => {
                if self.capture.is_some() {
                    self.buf.append(t.as_str());
                }
                proof {
                    assert(self@ =~= step(old(self)@, ev@));
                }
            },
            XmlEvent::Open(n) => {
                self.apply_open(n.as_str());
            },
            XmlEvent::Close(n) => {
                self.apply_close(n.as_str());
            },
        }
    }

    /// Finishes the fold, exactly as `finish_spec` describes.
    fn finish(self) -> (r: Result<MultiStatus, DecodeError>)
        ensures
            match finish_spec(self@) {
                Some(m) => r matches Ok(v) && v@ == m,
                None => r is Err,
            },
    {
        if self.error || self.in_root || self.skip > 0 || self.in_response || self.in_propstat
            || self.in_prop || self.in_resourcetype || self.in_privset || self.in_privilege
            || self.capture.is_some() {
            Err(DecodeError)
        } else {
            Ok(MultiStatus { response: self.responses })
        }
    }
}

impl MultiStatus {
    /// Decodes a multistatus document, exactly as `parse_spec` describes:
    /// the decoded responses on success, a decode error exactly where the
    /// tokenizer or the structural fold rejects the document. A document
    /// with zero `response` elements decodes to an empty response list.
    pub fn parse(s: &str) -> (r: Result<Self, DecodeError>)
        ensures
            match parse_spec(s@) {
                Some(m) => r matches Ok(v) && v@ == m,
                None => r is Err,
            },
    {
        let evs = match tokenize(s) {
            Ok(evs) => evs,
            Err(e) => {
                return Err(e);
            },
        };
        let ghost evm = evs_view(evs@);
        let mut b = Builder::new();
        let n = evs.len();
        proof {
            assert(evm.subrange(0, evm.len() as int) =~= evm);
        }
        let mut i: usize = 0;
        while i < n
            invariant
                i <= n,
                n == evs@.len(),
                evm == evs_view(evs@),
                b@.skip <= i as nat,
                build_fold(evm, init_state()) == build_fold(
                    evm.subrange(i as int, n as int),
                    b@,
                ),
            decreases n - i,
        {
            let ghost pre = b@;
            b.apply(&evs[i]);
            proof {
                let tail = evm.subrange(i as int, n as int);
                assert(tail.len() > 0);
                assert(tail[0] == evs@[i as int]@);
                assert(tail.drop_first() =~= evm.subrange(i as int + 1, n as int));
                assert(build_fold(tail, pre) == build_fold(tail.drop_first(), step(pre, tail[0])));
                assert(step(pre, tail[0]).skip <= pre.skip + 1);
            }
            i += 1;
        }
        proof {
            assert(evm.subrange(n as int, n as int).len() == 0);
            assert(build_fold(evm.subrange(n as int, n as int), b@) == b@);
        }
        b.finish()
    }
}

} // verus!
