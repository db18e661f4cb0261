//! The client configuration and the request descriptor builder. A
//! builder accumulates method, target URL, headers, body, and an optional
//! per-request credential override; `build` merges them into one concrete
//! exchange description: it resolves the target against the client's
//! base endpoint, if one is configured, and chooses credentials by
//! priority: per-request override, then the client default. Producing a
//! request with no credentials at all is surfaced as an error, never
//! sent silently.
use crate::collection::{collection_of, Collection};
use crate::error::Error;
use crate::headers::{lower_seq, HeaderMap};
use crate::method::Method;
use crate::multistatus::{parse_spec, MultiStatus};
use crate::reader::{is_success_status, LazyResponseReader};
use crate::strutil::{dec_str, usize_to_string};
use crate::url::{merge_spec, parse_url_spec, WebDavUrl};
use vstd::prelude::*;
use vstd::string::StringSliceAdditionalSpecFns;

verus! {

/// The PROPFIND request body asking for every property.
pub open spec fn propfind_body_chars() -> Seq<char> {
    "<?xml version=\"1.0\" encoding=\"utf-8\" ?>\n    <D:propfind xmlns:D=\"DAV:\">\n        <D:allprop/>\n    </D:propfind>\n"@
}

/// Yields the PROPFIND request body for an all-property listing.
pub fn propfind_body() -> (r: &'static str)
    ensures
        r@ == propfind_body_chars(),
{
    "<?xml version=\"1.0\" encoding=\"utf-8\" ?>\n    <D:propfind xmlns:D=\"DAV:\">\n        <D:allprop/>\n    </D:propfind>\n"
}

/// The value of the `Range` header for an inclusive byte range.
pub open spec fn range_header_value(start: nat, end: nat) -> Seq<char> {
    "bytes="@ + dec_str(start) + "-"@ + dec_str(end)
}

/// One concrete HTTP exchange, ready to be performed: everything the
/// transport needs, as plain values. Built exactly once from a request
/// builder; performing it is the transport's business.
#[derive(Debug)]
pub struct PreparedRequest {
    pub method: Method,
    pub url: String,
    pub headers: HeaderMap,
    pub body: Option<Vec<u8>>,
    pub auth: (String, String),
}

/// The URL one concrete exchange goes to: the target merged against the
/// base endpoint's `(scheme, domain, path)` where one is configured — a
/// rooted target is resolved under the base — and the target unchanged
/// where none is.
pub open spec fn resolve_target(
    base: Option<(Seq<char>, Seq<char>, Seq<char>)>,
    url: Seq<char>,
) -> Seq<char> {
    match base {
        Some(t) => merge_spec(t.0, t.1, t.2, url),
        None => url,
    }
}

/// Shared client configuration: the base endpoint and the default
/// credentials every request falls back to. Read-only after
/// construction.
#[derive(Debug)]
pub struct WebDAVClient {
    auth: Option<(String, String)>,
    base: Option<WebDavUrl>,
}

impl WebDAVClient {
    /// The default credentials, if any were configured.
    pub closed spec fn auth_spec(self) -> Option<(Seq<char>, Seq<char>)> {
        match self.auth {
            Some(a) => Some((a.0@, a.1@)),
            None => None,
        }
    }

    /// The base endpoint's `(scheme, domain, path)`, if one was
    /// configured.
    pub closed spec fn base_spec(self) -> Option<(Seq<char>, Seq<char>, Seq<char>)> {
        match self.base {
            Some(b) => Some((b.scheme_spec(), b.domain_spec(), b.path_spec())),
            None => None,
        }
    }

    pub fn new(username: &str, password: &str) -> (r: Self)
        ensures
            r.auth_spec() == Some((username@, password@)),
            r.base_spec() is None,
    {
        WebDAVClient { auth: Some((username.to_owned(), password.to_owned())), base: None }
    }

    /// A client with no credentials configured; a request built on it
    /// without a per-request override is refused by `build`.
    pub fn anonymous() -> (r: Self)
        ensures
            r.auth_spec() is None,
            r.base_spec() is None,
    {
        WebDAVClient { auth: None, base: None }
    }

    /// Configures the base endpoint every rooted target is resolved
    /// against. Fails with a URL error exactly when the endpoint string
    /// does not parse.
    pub fn with_endpoint(self, url: &str) -> (r: Result<Self, Error>)
        ensures
            match r {
                Ok(c) => {
                    &&& parse_url_spec(url@) matches Some(t)
                    &&& c.base_spec() == Some(t)
                    &&& c.auth_spec() == self.auth_spec()
                },
                Err(e) => e is UrlError && parse_url_spec(url@) is None,
            },
    {
        match WebDavUrl::new(url) {
            Some(b) => Ok(WebDAVClient { auth: self.auth, base: Some(b) }),
            None => Err(Error::UrlError),
        }
    }

    /// Starts a request descriptor for `method` on `url`, carrying this
    /// client's default credentials.
    pub fn request(&self, method: Method, url: &str) -> (r: WevDAVRequestBuilder)
        ensures
            r.wf(),
            r.client_auth_spec() == self.auth_spec(),
            r.base_spec() == self.base_spec(),
            r.basic_auth_spec() is None,
            r.url_spec() == url@,
            r.method_spec() == method,
            r.headers_spec().as_map() == Map::<Seq<char>, Seq<char>>::empty(),
            r.body_spec() is None,
    {
        WevDAVRequestBuilder::new(self, url, method)
    }

    pub fn get(&self, url: &str) -> (r: WevDAVRequestBuilder)
        ensures
            r.wf(),
            r.client_auth_spec() == self.auth_spec(),
            r.base_spec() == self.base_spec(),
            r.basic_auth_spec() is None,
            r.url_spec() == url@,
            r.method_spec() == Method::Get,
            r.headers_spec().as_map() == Map::<Seq<char>, Seq<char>>::empty(),
            r.body_spec() is None,
    {
        self.request(Method::Get, url)
    }

    pub fn put(&self, url: &str) -> (r: WevDAVRequestBuilder)
        ensures
            r.wf(),
            r.client_auth_spec() == self.auth_spec(),
            r.base_spec() == self.base_spec(),
            r.basic_auth_spec() is None,
            r.url_spec() == url@,
            r.method_spec() == Method::Put,
            r.headers_spec().as_map() == Map::<Seq<char>, Seq<char>>::empty(),
            r.body_spec() is None,
    {
        self.request(Method::Put, url)
    }

    /// The decoding half of a directory listing, applied to the resolved
    /// exchange: a non-success status is surfaced as a response error
    /// carrying the status — distinguishable from a decode failure — and
    /// a successful response's body is decoded into a `Collection`.
    pub fn list_from_response(status: u16, body: &str) -> (r: Result<Collection, Error>)
        ensures
            !is_success_status(status) ==> (r matches Err(e) && e == Error::ResponseError(
                status,
            )),
            is_success_status(status) ==> match parse_spec(body@) {
                Some(m) => r matches Ok(c) && c@ == collection_of(m),
                None => r matches Err(e) && e is DeError,
            },
    {
        if !(200 <= status && status < 300) {
            return Err(Error::ResponseError(status));
        }
        match MultiStatus::parse(body) {
            Ok(ms) => Ok(Collection::from(ms)),
            Err(de) => Err(Error::DeError(de)),
        }
    }

    /// Describes the one exchange an all-property PROPFIND listing of
    /// `url` performs: method `PROPFIND`, headers `Content-Type:
    /// application/xml` and `Depth: 1`, and the all-property body.
    /// Fails exactly when no credentials are configured.
    pub fn all_propfind_request(&self, url: &str) -> (r: Result<PreparedRequest, Error>)
        ensures
            match r {
                Ok(p) => {
                    &&& self.auth_spec() matches Some(a)
                    &&& (p.auth.0@, p.auth.1@) == a
                    &&& p.method is Propfind
                    &&& p.url@ == resolve_target(self.base_spec(), url@)
                    &&& p.headers.as_map() == Map::<Seq<char>, Seq<char>>::empty().insert(
                        lower_seq("Content-Type"@),
                        "application/xml"@,
                    ).insert(lower_seq("Depth"@), "1"@)
                    &&& p.body matches Some(b) && b@ == vstd::utf8::encode_utf8(propfind_body_chars())
                },
                Err(e) => e is StdError && self.auth_spec() is None,
            },
    {
        let body = propfind_body().as_bytes_vec();
        self.request(Method::Propfind, url).header("Content-Type", "application/xml").header(
            "Depth",
            "1",
        ).body(body).build()
    }
}

/// Accumulates one request's description; consumed by `build`.
pub struct WevDAVRequestBuilder {
    client_auth: Option<(String, String)>,
    basic_auth: Option<(String, String)>,
    base: Option<WebDavUrl>,
    url: String,
    headers: HeaderMap,
    body: Option<Vec<u8>>,
    method: Method,
}

impl WevDAVRequestBuilder {
    pub closed spec fn client_auth_spec(self) -> Option<(Seq<char>, Seq<char>)> {
        match self.client_auth {
            Some(a) => Some((a.0@, a.1@)),
            None => None,
        }
    }

    pub closed spec fn basic_auth_spec(self) -> Option<(Seq<char>, Seq<char>)> {
        match self.basic_auth {
            Some(a) => Some((a.0@, a.1@)),
            None => None,
        }
    }

    pub closed spec fn base_spec(self) -> Option<(Seq<char>, Seq<char>, Seq<char>)> {
        match self.base {
            Some(b) => Some((b.scheme_spec(), b.domain_spec(), b.path_spec())),
            None => None,
        }
    }

    pub closed spec fn url_spec(self) -> Seq<char> {
        self.url@
    }

    /// The URL the built exchange goes to: the target resolved against
    /// the base endpoint, where one is configured.
    pub open spec fn resolved_target(self) -> Seq<char> {
        resolve_target(self.base_spec(), self.url_spec())
    }

    pub closed spec fn method_spec(self) -> Method {
        self.method
    }

    pub closed spec fn headers_spec(self) -> HeaderMap {
        self.headers
    }

    pub closed spec fn body_spec(self) -> Option<Seq<u8>> {
        match self.body {
            Some(b) => Some(b@),
            None => None,
        }
    }

    pub open spec fn wf(self) -> bool {
        self.headers_spec().wf()
    }

    /// The credentials `build` selects: the per-request override wins
    /// over the client default; none at all is an error.
    pub open spec fn selected_auth(self) -> Option<(Seq<char>, Seq<char>)> {
        if self.basic_auth_spec() is Some {
            self.basic_auth_spec()
        } else {
            self.client_auth_spec()
        }
    }

    pub fn new(client: &WebDAVClient, url: &str, method: Method) -> (r: Self)
        ensures
            r.wf(),
            r.client_auth_spec() == client.auth_spec(),
            r.base_spec() == client.base_spec(),
            r.basic_auth_spec() is None,
            r.url_spec() == url@,
            r.method_spec() == method,
            r.headers_spec().as_map() == Map::<Seq<char>, Seq<char>>::empty(),
            r.body_spec() is None,
    {
        WevDAVRequestBuilder {
            client_auth: match &client.auth {
                Some(a) => Some((a.0.clone(), a.1.clone())),
                None => None,
            },
            basic_auth: None,
            base: match &client.base {
                Some(b) => Some(b.duplicate()),
                None => None,
            },
            url: url.to_owned(),
            headers: HeaderMap::new(),
            body: None,
            method,
        }
    }

    /// Overrides the credentials for this request alone.
    pub fn basic_auth(self, username: &str, password: &str) -> (r: Self)
        ensures
            r.basic_auth_spec() == Some((username@, password@)),
            r.client_auth_spec() == self.client_auth_spec(),
            r.base_spec() == self.base_spec(),
            r.url_spec() == self.url_spec(),
            r.method_spec() == self.method_spec(),
            r.headers_spec() == self.headers_spec(),
            r.body_spec() == self.body_spec(),
    {
        WevDAVRequestBuilder {
            basic_auth: Some((username.to_owned(), password.to_owned())),
            ..self
        }
    }

    /// Sets the request body.
    pub fn body(self, body: Vec<u8>) -> (r: Self)
        ensures
            r.body_spec() == Some(body@),
            r.client_auth_spec() == self.client_auth_spec(),
            r.base_spec() == self.base_spec(),
            r.basic_auth_spec() == self.basic_auth_spec(),
            r.url_spec() == self.url_spec(),
            r.method_spec() == self.method_spec(),
            r.headers_spec() == self.headers_spec(),
    {
        WevDAVRequestBuilder { body: Some(body), ..self }
    }

    /// Sets the `Range` header to `bytes=start-end`, exactly; whether
    /// `start <= end` is the server's business.
    pub fn range(self, start: usize, end: usize) -> (r: Self)
        requires
            self.wf(),
        ensures
            r.wf(),
            r.headers_spec().as_map() == self.headers_spec().as_map().insert(
                "range"@,
                range_header_value(start as nat, end as nat),
            ),
            r.client_auth_spec() == self.client_auth_spec(),
            r.base_spec() == self.base_spec(),
            r.basic_auth_spec() == self.basic_auth_spec(),
            r.url_spec() == self.url_spec(),
            r.method_spec() == self.method_spec(),
            r.body_spec() == self.body_spec(),
    {
        let mut value = String::from_str("bytes=");
        value.append(usize_to_string(start).as_str());
        value.append("-");
        value.append(usize_to_string(end).as_str());
        proof {
            assert(lower_seq("range"@) =~= "range"@) by {
                reveal_strlit("range");
            }
        }
        self.header("range", value.as_str())
    }

    /// Sets one header; the newest value for a name wins.
    pub fn header(self, key: &str, val: &str) -> (r: Self)
        requires
            self.wf(),
        ensures
            r.wf(),
            r.headers_spec().as_map() == self.headers_spec().as_map().insert(
                lower_seq(key@),
                val@,
            ),
            r.client_auth_spec() == self.client_auth_spec(),
            r.base_spec() == self.base_spec(),
            r.basic_auth_spec() == self.basic_auth_spec(),
            r.url_spec() == self.url_spec(),
            r.method_spec() == self.method_spec(),
            r.body_spec() == self.body_spec(),
    {
        let mut r = self;
        r.headers.insert(key, val);
        r
    }

    /// Folds a whole header map in; its entries win on shared names.
    pub fn headers(self, headers: &HeaderMap) -> (r: Self)
        requires
            self.wf(),
            headers.wf(),
        ensures
            r.wf(),
            r.headers_spec().as_map() == self.headers_spec().as_map().union_prefer_right(
                headers.as_map(),
            ),
            r.client_auth_spec() == self.client_auth_spec(),
            r.base_spec() == self.base_spec(),
            r.basic_auth_spec() == self.basic_auth_spec(),
            r.url_spec() == self.url_spec(),
            r.method_spec() == self.method_spec(),
            r.body_spec() == self.body_spec(),
    {
        let mut r = self;
        r.headers.extend(headers);
        r
    }

    /// Merges everything accumulated into one concrete exchange
    /// description: the target is resolved against the base endpoint
    /// where one is configured, and credentials are chosen by priority:
    /// the per-request override, else the client default; with neither,
    /// the request is refused rather than sent without credentials.
    pub fn build(self) -> (r: Result<PreparedRequest, Error>)
        ensures
            match r {
                Ok(p) => {
                    &&& self.selected_auth() matches Some(a)
                    &&& (p.auth.0@, p.auth.1@) == a
                    &&& p.method == self.method_spec()
                    &&& p.url@ == self.resolved_target()
                    &&& p.headers == self.headers_spec()
                    &&& match (p.body, self.body_spec()) {
                        (Some(b), Some(s)) => b@ == s,
                        (None, None) => true,
                        _ => false,
                    }
                },
                Err(e) => e is StdError && self.selected_auth() is None,
            },
    {
        let auth = match self.basic_auth {
            Some(a) => a,
            None => match self.client_auth {
                Some(a) => a,
                None => {
                    return Err(Error::StdError(String::from_str("missing basic auth")));
                },
            },
        };
        let url = match &self.base {
            Some(b) => b.smart_merge(self.url.as_str()),
            None => self.url,
        };
        Ok(
            PreparedRequest {
                method: self.method,
                url,
                headers: self.headers,
                body: self.body,
                auth,
            },
        )
    }

    /// Wraps the built exchange in a lazy stream; nothing is performed
    /// until the stream is first polled.
    pub fn into_lazy_reader(self) -> (r: Result<LazyResponseReader, Error>)
        ensures
            match r {
                Ok(s) => {
                    &&& self.selected_auth() is Some
                    &&& s.is_unsent()
                    &&& s.request_spec() matches Some(p)
                    &&& p.method == self.method_spec()
                    &&& p.url@ == self.resolved_target()
                    &&& p.headers == self.headers_spec()
                },
                Err(e) => e is StdError && self.selected_auth() is None,
            },
    {
        match self.build() {
            Ok(p) => Ok(LazyResponseReader::new(p)),
            Err(e) => Err(e),
        }
    }
}

} // verus!
