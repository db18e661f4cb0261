//! The public result type of a listing: a `Collection` with its child
//! `Resource`s. By WebDAV convention the first entry of a multistatus
//! document describes the requested collection itself and every later
//! entry one immediate child. Hrefs are percent-decoded before being
//! exposed, falling back to the raw string when the decoded bytes are
//! not valid UTF-8; an empty document yields an empty collection, never
//! an error.
use crate::multistatus::{
    build_fold,
    init_state,
    is_collection_view,
    lemma_fold_without_responses,
    no_response_open,
    parse_spec,
    DResponse,
    DResponseView,
    MultiStatus,
    MultiStatusView,
};
use crate::xml::tok_from;
use crate::privilege::{flags_of, Privilege, PrivilegeView};
use vstd::prelude::*;

verus! {

/// What percent-decoding plus UTF-8 validation yields for a string: the
/// decoded text, or nothing when the decoded bytes are not valid UTF-8.
pub uninterp spec fn pct_decoded(s: Seq<char>) -> Option<Seq<char>>;

/// Relies on `percent_encoding::percent_decode_str(..).decode_utf8()`:
/// the result is a function of the input characters alone; `Ok` carries
/// the decoded text and `Err` means the decoded bytes are not valid
/// UTF-8.
#[verifier::external_body]
fn percent_decode(s: &str) -> (r: Option<String>)
    ensures
        match r {
            Some(t) => pct_decoded(s@) == Some(t@),
            None => pct_decoded(s@) is None,
        },
{
    match percent_encoding::percent_decode_str(s).decode_utf8() {
        Ok(t) => Some(t.to_string()),
        Err(_) => None,
    }
}

/// The href a raw server href is exposed as: percent-decoded, or raw
/// where decoding fails.
pub open spec fn decoded_href(s: Seq<char>) -> Seq<char> {
    match pct_decoded(s) {
        Some(t) => t,
        None => s,
    }
}

/// Percent-decodes an href, keeping the raw string where the decoded
/// bytes are not valid UTF-8.
fn decode_href(s: String) -> (r: String)
    ensures
        r@ == decoded_href(s@),
{
    match percent_decode(s.as_str()) {
        Some(t) => t,
        None => s,
    }
}

/// A directory-like resource and its immediate children.
#[derive(Debug)]
pub struct Collection {
    pub href: String,
    pub display_name: String,
    pub children: Vec<Resource>,
}

#[verifier::ext_equal]
pub struct CollectionView {
    pub href: Seq<char>,
    pub display_name: Seq<char>,
    pub children: Seq<ResourceView>,
}

impl View for Collection {
    type V = CollectionView;

    open spec fn view(&self) -> CollectionView {
        CollectionView {
            href: self.href@,
            display_name: self.display_name@,
            children: self.children@.map_values(|r: Resource| r@),
        }
    }
}

/// One entry of a collection.
#[derive(Debug, Clone)]
pub struct Resource {
    pub is_collection: bool,
    pub href: String,
    pub display_name: String,
    pub last_modified: String,
    pub len: u64,
    pub content_type: String,
    pub privilege: Privilege,
}

#[verifier::ext_equal]
pub struct ResourceView {
    pub is_collection: bool,
    pub href: Seq<char>,
    pub display_name: Seq<char>,
    pub last_modified: Seq<char>,
    pub len: u64,
    pub content_type: Seq<char>,
    pub privilege: PrivilegeView,
}

impl View for Resource {
    type V = ResourceView;

    open spec fn view(&self) -> ResourceView {
        ResourceView {
            is_collection: self.is_collection,
            href: self.href@,
            display_name: self.display_name@,
            last_modified: self.last_modified@,
            len: self.len,
            content_type: self.content_type@,
            privilege: self.privilege@,
        }
    }
}

/// The resource a decoded response entry becomes: its properties copied
/// over, the href decoded, the privilege list folded into flags — or
/// all-false flags where the server returned no privilege information.
pub open spec fn resource_of(d: DResponseView) -> ResourceView {
    ResourceView {
        is_collection: is_collection_view(d.prop_stat.prop),
        href: decoded_href(d.href),
        display_name: d.prop_stat.prop.display_name,
        last_modified: d.prop_stat.prop.last_modified,
        len: d.prop_stat.prop.content_length,
        content_type: d.prop_stat.prop.content_type,
        privilege: match d.prop_stat.prop.current_user_privilege_set {
            Some(ps) => flags_of(ps.privileges),
            None => PrivilegeView {
                read: false,
                write: false,
                read_acl: false,
                write_acl: false,
                all: false,
            },
        },
    }
}

/// The collection a decoded multistatus becomes: empty for an empty
/// document; otherwise entry zero names the collection and every later
/// entry becomes a child resource.
pub open spec fn collection_of(m: MultiStatusView) -> CollectionView {
    if m.response.len() == 0 {
        CollectionView { href: Seq::empty(), display_name: Seq::empty(), children: Seq::empty() }
    } else {
        CollectionView {
            href: decoded_href(m.response[0].href),
            display_name: m.response[0].prop_stat.prop.display_name,
            children: m.response.subrange(1, m.response.len() as int).map_values(
                |d: DResponseView| resource_of(d),
            ),
        }
    }
}

/// Builds one child resource, exactly as `resource_of` describes.
fn resource_from(d: &DResponse) -> (r: Resource)
    ensures
        r@ == resource_of(d@),
{
    let prop = &d.prop_stat.prop;
    let privilege = match &prop.current_user_privilege_set {
        Some(ps) => ps.privilege_flags(),
        None => Privilege::none(),
    };
    let r = Resource {
        is_collection: prop.is_collection(),
        href: decode_href(d.href.clone()),
        display_name: prop.display_name.clone(),
        last_modified: prop.last_modified.clone(),
        len: prop.content_length,
        content_type: prop.content_type.clone(),
        privilege,
    };
    proof {
        assert(r@ =~= resource_of(d@));
    }
    r
}

impl Collection {
    /// Builds the typed result tree from a decoded multistatus, exactly
    /// as `collection_of` describes: an empty document yields an empty
    /// collection — never an error — and otherwise entry zero populates
    /// the collection itself while every later entry becomes a child.
    pub fn from(value: MultiStatus) -> (r: Collection)
        ensures
            r@ == collection_of(value@),
    {
        let n = value.response.len();
        if n == 0 {
            let r = Collection {
                href: String::new(),
                display_name: String::new(),
                children: Vec::new(),
            };
            proof {
                assert(r@ =~= collection_of(value@));
            }
            return r;
        }
        let first = &value.response[0];
        let href = decode_href(first.href.clone());
        let display_name = first.prop_stat.prop.display_name.clone();
        let mut children: Vec<Resource> = Vec::new();
        let mut i: usize = 1;
        while i < n
            invariant
                1 <= i <= n,
                n == value.response@.len(),
                children@.map_values(|r: Resource| r@) == value@.response.subrange(
                    1,
                    i as int,
                ).map_values(|d: DResponseView| resource_of(d)),
            decreases n - i,
        {
            let ghost pre = children@.map_values(|r: Resource| r@);
            let child = resource_from(&value.response[i]);
            children.push(child);
            proof {
                assert(children@.map_values(|r: Resource| r@) =~= pre.push(
                    resource_of(value@.response[i as int]),
                ));
                assert(value@.response.subrange(1, i as int + 1) =~= value@.response.subrange(
                    1,
                    i as int,
                ).push(value@.response[i as int]));
                assert(value@.response.subrange(1, i as int + 1).map_values(
                    |d: DResponseView| resource_of(d),
                ) =~= value@.response.subrange(1, i as int).map_values(
                    |d: DResponseView| resource_of(d),
                ).push(resource_of(value@.response[i as int])));
            }
            i += 1;
        }
        let r = Collection { href, display_name, children };
        proof {
            assert(value@.response.subrange(1, n as int) == value@.response.subrange(1, i as int));
            assert(value@.response[0] == first@);
            assert(r@ =~= collection_of(value@));
        }
        r
    }
}

/// A multistatus document with zero `response` elements never decodes
/// to anything but the empty document: the fold collects no responses
/// and raises no error. When, in addition, the document's elements are
/// balanced — the root and every skipped element closed — it decodes
/// successfully, yielding the empty collection with empty `href` and
/// `display_name` and no children.
pub proof fn lemma_empty_document(s: Seq<char>)
    requires
        tok_from(s, 0) is Some,
        no_response_open(tok_from(s, 0)->Some_0),
    ensures
        ({
            let f = build_fold(tok_from(s, 0)->Some_0, init_state());
            &&& !f.error
            &&& f.responses == Seq::<DResponseView>::empty()
            &&& (!f.in_root && f.skip == 0 ==> parse_spec(s) == Some(
                MultiStatusView { response: Seq::<DResponseView>::empty() },
            ))
            &&& (!f.in_root && f.skip == 0 ==> collection_of(
                MultiStatusView { response: Seq::<DResponseView>::empty() },
            ) == (CollectionView {
                href: Seq::<char>::empty(),
                display_name: Seq::<char>::empty(),
                children: Seq::<ResourceView>::empty(),
            }))
        }),
{
    lemma_fold_without_responses(tok_from(s, 0)->Some_0, init_state());
}

} // verus!
