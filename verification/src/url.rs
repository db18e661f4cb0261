//! Canonical URL representation for a WebDAV endpoint and its join
//! semantics. A `WebDavUrl` splits an endpoint into scheme, authority
//! (domain) and path; the scheme always ends in `://` and the path always
//! begins with `/`. Values are immutable: `join` returns a new value.
use crate::strutil::{is_prefix_of, push_char, str_eq, str_starts_with};
use vstd::prelude::*;

verus! {

/// Position of the first `/` at or after `i`, or `s.len()` if there is none.
pub open spec fn slash_pos(s: Seq<char>, i: int) -> int
    decreases s.len() - i when 0 <= i <= s.len()
{
    if i >= s.len() {
        s.len() as int
    } else if s[i] == '/' {
        i
    } else {
        slash_pos(s, i + 1)
    }
}

/// The first slash at or after `i` lies between `i` and the end.
pub proof fn lemma_slash_pos_bounds(s: Seq<char>, i: int)
    requires
        0 <= i <= s.len(),
    ensures
        i <= slash_pos(s, i) <= s.len(),
        slash_pos(s, i) < s.len() ==> s[slash_pos(s, i)] == '/',
    decreases s.len() - i,
{
    if i < s.len() && s[i] != '/' {
        lemma_slash_pos_bounds(s, i + 1);
    }
}

/// The non-empty `/`-separated segments of `s`, starting at position `i`.
pub open spec fn segments_from(s: Seq<char>, i: int) -> Seq<Seq<char>>
    decreases s.len() - i when 0 <= i <= s.len() via segments_from_decreases
{
    if i >= s.len() {
        Seq::empty()
    } else {
        let j = slash_pos(s, i);
        let head: Seq<Seq<char>> = if j > i {
            seq![s.subrange(i, j)]
        } else {
            Seq::empty()
        };
        if j >= s.len() {
            head
        } else {
            head + segments_from(s, j + 1)
        }
    }
}

#[via_fn]
proof fn segments_from_decreases(s: Seq<char>, i: int) {
    lemma_slash_pos_bounds(s, i);
}

/// The non-empty `/`-separated segments of `s`.
pub open spec fn segments(s: Seq<char>) -> Seq<Seq<char>> {
    segments_from(s, 0)
}

/// `/seg0/seg1/...` for a sequence of segments.
pub open spec fn path_of(segs: Seq<Seq<char>>) -> Seq<char>
    decreases segs.len()
{
    if segs.len() == 0 {
        Seq::empty()
    } else {
        seq!['/'] + segs[0] + path_of(segs.drop_first())
    }
}

/// The canonical path for a list of segments: `/` when there are none.
pub open spec fn full_path(segs: Seq<Seq<char>>) -> Seq<char> {
    if segs.len() == 0 {
        seq!['/']
    } else {
        path_of(segs)
    }
}

/// What parsing an endpoint yields: `(scheme, domain, path)`, or `None`
/// when the input has no segments at all, or names a scheme with no
/// authority after it.
pub open spec fn parse_url_spec(s: Seq<char>) -> Option<(Seq<char>, Seq<char>, Seq<char>)> {
    let segs = segments(s);
    if segs.len() == 0 {
        None
    } else if segs[0] == "http:"@ || segs[0] == "https:"@ {
        if segs.len() == 1 {
            None
        } else {
            Some((segs[0] + "//"@, segs[1], full_path(segs.skip(2))))
        }
    } else {
        Some(("https://"@, segs[0], full_path(segs.skip(1))))
    }
}

/// The path that `join` produces: a rooted suffix replaces the base path
/// outright; anything else is appended behind a single `/`.
pub open spec fn join_path(base: Seq<char>, suffix: Seq<char>) -> Seq<char> {
    if suffix.len() > 0 && suffix[0] == '/' {
        suffix
    } else {
        base + seq!['/'] + suffix
    }
}

/// The string that merging a server-returned `candidate` against a base
/// URL produces: a candidate rooted under the base path gets the scheme
/// and authority prefixed; a rooted candidate outside the base path gets
/// the base path re-prefixed as well; anything else is taken to be a full
/// URL already and is returned unchanged.
pub open spec fn merge_spec(
    scheme: Seq<char>,
    domain: Seq<char>,
    path: Seq<char>,
    candidate: Seq<char>,
) -> Seq<char> {
    if candidate.len() > 0 && candidate[0] == '/' {
        if is_prefix_of(path, candidate) {
            scheme + domain + candidate
        } else {
            scheme + domain + path + candidate
        }
    } else {
        candidate
    }
}

/// A WebDAV endpoint split into scheme, authority and path.
#[derive(Debug, Clone, PartialEq)]
pub struct WebDavUrl {
    scheme: String,
    domain: String,
    path: String,
}

impl WebDavUrl {
    /// The invariant every constructed value satisfies: the scheme ends in
    /// `://` and the path begins with `/`.
    pub open spec fn wf(self) -> bool {
        &&& self.scheme_spec().len() >= 3
        &&& self.scheme_spec().subrange(
            self.scheme_spec().len() - 3,
            self.scheme_spec().len() as int,
        ) == seq![':', '/', '/']
        &&& self.path_spec().len() > 0
        &&& self.path_spec()[0] == '/'
    }

    pub closed spec fn scheme_spec(self) -> Seq<char> {
        self.scheme@
    }

    pub closed spec fn domain_spec(self) -> Seq<char> {
        self.domain@
    }

    pub closed spec fn path_spec(self) -> Seq<char> {
        self.path@
    }

    /// Parses `scheme://authority/path...`; with no recognised scheme the
    /// endpoint defaults to `https://` and the first segment is taken as
    /// the authority. Yields `None` exactly when the input has no segments,
    /// or a scheme with nothing after it.
    pub fn new(url: &str) -> (r: Option<WebDavUrl>)
        ensures
            match r {
                Some(u) => {
                    &&& parse_url_spec(url@) matches Some(t)
                    &&& u.scheme_spec() == t.0
                    &&& u.domain_spec() == t.1
                    &&& u.path_spec() == t.2
                    &&& u.wf()
                },
                None => parse_url_spec(url@) is None,
            },
    {
        match parse_url(url) {
            Some((scheme, domain, path)) => {
                let u = WebDavUrl { scheme, domain, path };
                proof {
                    lemma_parse_url_spec_wf(url@);
                }
                Some(u)
            },
            None => None,
        }
    }

    pub fn scheme(&self) -> (r: &str)
        ensures
            r@ == self.scheme_spec(),
    {
        self.scheme.as_str()
    }

    pub fn domain(&self) -> (r: &str)
        ensures
            r@ == self.domain_spec(),
    {
        self.domain.as_str()
    }

    pub fn path(&self) -> (r: &str)
        ensures
            r@ == self.path_spec(),
    {
        self.path.as_str()
    }

    /// A copy of this URL with the same scheme, authority and path.
    pub fn duplicate(&self) -> (r: WebDavUrl)
        ensures
            r.scheme_spec() == self.scheme_spec(),
            r.domain_spec() == self.domain_spec(),
            r.path_spec() == self.path_spec(),
    {
        WebDavUrl {
            scheme: self.scheme.clone(),
            domain: self.domain.clone(),
            path: self.path.clone(),
        }
    }

    /// The whole URL as one string, `scheme` then `domain` then `path`.
    pub fn to_url_string(&self) -> (r: String)
        ensures
            r@ == self.scheme_spec() + self.domain_spec() + self.path_spec(),
    {
        let mut out = self.scheme.clone();
        out.append(self.domain.as_str());
        out.append(self.path.as_str());
        out
    }

    /// Resolves a path fragment against this URL. A fragment that starts
    /// with `/` replaces the path outright; any other fragment is appended
    /// to it behind a single `/`. Never fails, and the result is again a
    /// well-formed URL.
    pub fn join(&self, path: &str) -> (r: Self)
        requires
            self.wf(),
        ensures
            r.scheme_spec() == self.scheme_spec(),
            r.domain_spec() == self.domain_spec(),
            r.path_spec() == join_path(self.path_spec(), path@),
            r.wf(),
    {
        let rooted = if path.unicode_len() > 0 {
            path.get_char(0) == '/'
        } else {
            false
        };
        if rooted {
            WebDavUrl {
                scheme: self.scheme.clone(),
                domain: self.domain.clone(),
                path: String::from_str(path),
            }
        } else {
            let mut p = self.path.clone();
            push_char(&mut p, '/');
            p.append(path);
            let r = WebDavUrl { scheme: self.scheme.clone(), domain: self.domain.clone(), path: p };
            assert(r.path@ =~= self.path@ + seq!['/'] + path@);
            r
        }
    }

    /// Merges an `href` the server returned against this URL, as
    /// `merge_spec` describes.
    pub(crate) fn smart_merge(&self, path: &str) -> (r: String)
        ensures
            r@ == merge_spec(self.scheme_spec(), self.domain_spec(), self.path_spec(), path@),
    {
        self.merge_impl(path)
    }

    /// Merges a candidate URL the server returned against this URL: rooted
    /// candidates get this URL's scheme and authority (and, outside the
    /// base path, the base path itself) prefixed; anything else is returned
    /// unchanged.
    pub fn url_join(&self, url: &str) -> (r: String)
        ensures
            r@ == merge_spec(self.scheme_spec(), self.domain_spec(), self.path_spec(), url@),
    {
        self.merge_impl(url)
    }

    fn merge_impl(&self, candidate: &str) -> (r: String)
        ensures
            r@ == merge_spec(self.scheme_spec(), self.domain_spec(), self.path_spec(), candidate@),
    {
        let rooted = if candidate.unicode_len() > 0 {
            candidate.get_char(0) == '/'
        } else {
            false
        };
        if rooted {
            let mut out = self.scheme.clone();
            out.append(self.domain.as_str());
            if !str_starts_with(candidate, self.path.as_str()) {
                out.append(self.path.as_str());
            }
            out.append(candidate);
            out
        } else {
            String::from_str(candidate)
        }
    }
}

/// Splits an endpoint string into `(scheme, domain, path)` exactly as
/// `parse_url_spec` describes, or yields `None` where it does.
pub(crate) fn parse_url(url: &str) -> (r: Option<(String, String, String)>)
    ensures
        match r {
            Some(t) => {
                &&& parse_url_spec(url@) matches Some(s)
                &&& t.0@ == s.0
                &&& t.1@ == s.1
                &&& t.2@ == s.2
            },
            None => parse_url_spec(url@) is None,
        },
{
    let segs = split_segments(url);
    if segs.len() == 0 {
        return None;
    }
    let first = &segs[0];
    let (scheme, domain_idx) = if str_eq(first.as_str(), "http:") || str_eq(
        first.as_str(),
        "https:",
    ) {
        if segs.len() == 1 {
            return None;
        }
        (first.clone().concat("//"), 1usize)
    } else {
        (String::from_str("https://"), 0usize)
    };
    let domain = segs[domain_idx].clone();
    let path = build_path(&segs, domain_idx + 1);
    Some((scheme, domain, path))
}

/// Builds `/seg[from]/seg[from+1]/...`, or `/` when nothing is left.
fn build_path(segs: &Vec<String>, from: usize) -> (r: String)
    requires
        from <= segs@.len(),
    ensures
        r@ == full_path(segs@.map_values(|x: String| x@).skip(from as int)),
{
    let ghost model = segs@.map_values(|x: String| x@);
    if from == segs.len() {
        let mut r = String::new();
        push_char(&mut r, '/');
        assert(r@ =~= seq!['/']);
        assert(model.skip(from as int).len() == 0);
        return r;
    }
    let mut out = String::new();
    let mut i: usize = from;
    while i < segs.len()
        invariant
            from <= i <= segs@.len(),
            model == segs@.map_values(|x: String| x@),
            model.len() == segs@.len(),
            out@ + path_of(model.skip(i as int)) == path_of(model.skip(from as int)),
        decreases segs@.len() - i,
    {
        let ghost before = out@;
        push_char(&mut out, '/');
        out.append(segs[i].as_str());
        proof {
            assert(model.skip(i as int).len() > 0);
            assert(model.skip(i as int)[0] == model[i as int]);
            assert(model.skip(i as int).drop_first() =~= model.skip(i as int + 1));
            assert(path_of(model.skip(i as int)) == seq!['/'] + model[i as int] + path_of(
                model.skip(i as int + 1),
            ));
            assert(out@ =~= before + seq!['/'] + model[i as int]);
            assert(out@ + path_of(model.skip(i as int + 1)) =~= before + path_of(
                model.skip(i as int),
            ));
        }
        i += 1;
    }
    proof {
        assert(model.skip(i as int).len() == 0);
        assert(path_of(model.skip(i as int)) =~= Seq::<char>::empty());
        assert(out@ =~= out@ + path_of(model.skip(i as int)));
        assert(model.skip(from as int).len() > 0);
    }
    out
}

/// Position of the first `/` at or after `i`, computed exactly as
/// `slash_pos` describes.
fn find_slash(s: &str, i: usize) -> (j: usize)
    requires
        i <= s@.len(),
    ensures
        j == slash_pos(s@, i as int),
        i <= j <= s@.len(),
        j < s@.len() ==> s@[j as int] == '/',
{
    let len = s.unicode_len();
    let mut k = i;
    while k < len
        invariant
            i <= k <= len,
            len == s@.len(),
            slash_pos(s@, i as int) == slash_pos(s@, k as int),
        decreases len - k,
    {
        if s.get_char(k) == '/' {
            return k;
        }
        k += 1;
    }
    k
}

/// Splits `s` into its non-empty `/`-separated segments, exactly as
/// `segments` describes.
fn split_segments(s: &str) -> (r: Vec<String>)
    ensures
        r@.map_values(|x: String| x@) == segments(s@),
{
    let len = s.unicode_len();
    let mut out: Vec<String> = Vec::new();
    let mut i: usize = 0;
    while i < len
        invariant
            i <= len,
            len == s@.len(),
            out@.map_values(|x: String| x@) + segments_from(s@, i as int) == segments(s@),
        decreases len - i,
    {
        let ghost before = out@.map_values(|x: String| x@);
        let j = find_slash(s, i);
        if j > i {
            let seg = s.substring_char(i, j).to_owned();
            out.push(seg);
            proof {
                assert(out@.map_values(|x: String| x@) =~= before.push(s@.subrange(
                    i as int,
                    j as int,
                )));
            }
        }
        proof {
            let iv = i as int;
            let jv = slash_pos(s@, iv);
            let head: Seq<Seq<char>> = if jv > iv {
                seq![s@.subrange(iv, jv)]
            } else {
                Seq::empty()
            };
            if jv >= s@.len() {
                assert(segments_from(s@, iv) == head);
                assert(before + head =~= out@.map_values(|x: String| x@));
                assert(segments_from(s@, s@.len() as int) =~= Seq::<Seq<char>>::empty());
                assert(out@.map_values(|x: String| x@) + segments_from(s@, s@.len() as int)
                    =~= before + segments_from(s@, iv));
            } else {
                assert(segments_from(s@, iv) == head + segments_from(s@, jv + 1));
                assert(out@.map_values(|x: String| x@) + segments_from(s@, jv + 1) =~= before
                    + segments_from(s@, iv));
            }
        }
        if j >= len {
            i = len;
        } else {
            i = j + 1;
        }
    }
    proof {
        assert(segments_from(s@, len as int) =~= Seq::<Seq<char>>::empty());
        assert(out@.map_values(|x: String| x@) =~= out@.map_values(|x: String| x@) + Seq::<
            Seq<char>,
        >::empty());
    }
    out
}

/// Whatever `parse_url_spec` yields satisfies the `WebDavUrl` invariant:
/// the scheme ends in `://` and the path begins with `/`.
proof fn lemma_parse_url_spec_wf(s: Seq<char>)
    requires
        parse_url_spec(s) is Some,
    ensures
        ({
            let t = parse_url_spec(s)->Some_0;
            &&& t.0.len() >= 3
            &&& t.0.subrange(t.0.len() - 3, t.0.len() as int) == seq![':', '/', '/']
            &&& t.2.len() > 0
            &&& t.2[0] == '/'
        }),
{
    let segs = segments(s);
    let t = parse_url_spec(s)->Some_0;
    reveal_strlit("http:");
    reveal_strlit("https:");
    reveal_strlit("//");
    reveal_strlit("https://");
    if segs[0] == "http:"@ || segs[0] == "https:"@ {
        assert(t.0 =~= segs[0] + "//"@);
        assert(t.0.subrange(t.0.len() - 3, t.0.len() as int) =~= seq![':', '/', '/']);
        lemma_full_path_rooted(segs.skip(2));
    } else {
        assert(t.0 == "https://"@);
        assert(t.0.subrange(t.0.len() - 3, t.0.len() as int) =~= seq![':', '/', '/']);
        lemma_full_path_rooted(segs.skip(1));
    }
}

/// A canonical path always begins with `/`.
proof fn lemma_full_path_rooted(segs: Seq<Seq<char>>)
    ensures
        full_path(segs).len() > 0,
        full_path(segs)[0] == '/',
{
    if segs.len() == 0 {
    } else {
        assert(path_of(segs) == seq!['/'] + segs[0] + path_of(segs.drop_first()));
    }
}

/// Joining is total and keeps the path rooted: for any well-formed base
/// path and any suffix, the joined path begins with `/`.
pub proof fn lemma_join_total(base: Seq<char>, suffix: Seq<char>)
    requires
        base.len() > 0,
        base[0] == '/',
    ensures
        join_path(base, suffix).len() > 0,
        join_path(base, suffix)[0] == '/',
{
    if !(suffix.len() > 0 && suffix[0] == '/') {
        assert(join_path(base, suffix)[0] == base[0]);
    }
}

/// A rooted suffix replaces the base path outright, whatever the base
/// path was.
pub proof fn lemma_join_rooted(base: Seq<char>, suffix: Seq<char>)
    requires
        suffix.len() > 0,
        suffix[0] == '/',
    ensures
        join_path(base, suffix) == suffix,
{
}

/// A relative suffix composes: when the base path does not already end in
/// `/`, the joined path is the base path, one `/`, then the suffix.
pub proof fn lemma_join_relative(base: Seq<char>, suffix: Seq<char>)
    requires
        !(suffix.len() > 0 && suffix[0] == '/'),
        base.len() == 0 || base[base.len() - 1] != '/',
    ensures
        join_path(base, suffix) == base + seq!['/'] + suffix,
{
}

} // verus!
