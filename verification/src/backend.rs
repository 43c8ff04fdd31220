//! The backend type: immutable base-endpoint configuration and the
//! translation of one API request (plus an optional multipart form) into a
//! transport-ready request description.

use crate::error::Error;
use crate::multipart::{encode_form, spec_encode, spec_form_boundary, spec_form_ok,
    spec_parts_view, Form};
use crate::response;
use crate::uri::{base_usable, spec_base_usable, spec_target_url, target_url};
use vstd::prelude::*;
use vstd::string::StringExecFns;

verus! {

/// The HTTP method of an API request.
#[derive(Clone, Copy, Debug, PartialEq, Eq, Structural)]
pub enum Method {
    Get,
    Post,
    Put,
    Head,
    Delete,
    Options,
    Patch,
}

impl Method {
    /// The method's name on the wire.
    pub open spec fn spec_name(self) -> Seq<char> {
        match self {
            Method::Get => "GET"@,
            Method::Post => "POST"@,
            Method::Put => "PUT"@,
            Method::Head => "HEAD"@,
            Method::Delete => "DELETE"@,
            Method::Options => "OPTIONS"@,
            Method::Patch => "PATCH"@,
        }
    }

    /// Executable mirror of `spec_name`.
    pub fn name(&self) -> (r: &'static str)
        ensures
            r@ == self.spec_name(),
    {
        match self {
            Method::Get => "GET",
            Method::Post => "POST",
            Method::Put => "PUT",
            Method::Head => "HEAD",
            Method::Delete => "DELETE",
            Method::Options => "OPTIONS",
            Method::Patch => "PATCH",
        }
    }
}

/// One API call as the request-definition layer describes it: method, path
/// relative to the base endpoint, and an already-encoded query string
/// (empty when there is none).
pub struct ApiRequest {
    pub method: Method,
    pub path: String,
    pub query: String,
}

/// A transport-ready request: everything the HTTP transport needs to perform
/// one exchange, as plain values.
pub struct TransportRequest {
    pub method: Method,
    pub url: String,
    pub headers: Vec<(String, String)>,
    pub body: Vec<u8>,
}

/// The content-type header value announcing a multipart body framed with
/// boundary `b`.
pub open spec fn spec_multipart_content_type(b: Seq<char>) -> Seq<char> {
    "multipart/form-data; boundary="@ + b
}

/// The adapter between the API request model and the HTTP transport. It holds
/// only the immutable base endpoint; every call builds a fresh request.
#[derive(Clone, Debug)]
pub struct HttpReqBackend {
    pub base: String,
}

impl HttpReqBackend {
    /// A backend is well formed when its base endpoint is one the transport's
    /// URI parser accepts.
    pub open spec fn well_formed(&self) -> bool {
        spec_base_usable(self.base@)
    }

    /// Builds a backend over the given base endpoint, validating it against
    /// the transport's URI parser; a rejected endpoint is a `Config` error.
    pub fn build_with_base_uri(base: String) -> (r: Result<HttpReqBackend, Error>)
        ensures
            spec_base_usable(base@) ==> (r matches Ok(bk) && bk.base@ == base@
                && bk.well_formed()),
            !spec_base_usable(base@) ==> (r matches Err(Error::Config { uri }) && uri@ == base@),
    {
        if base_usable(base.as_str()) {
            Ok(HttpReqBackend { base })
        } else {
            Err(Error::Config { uri: base })
        }
    }

    /// Translates one API request, plus an optional multipart form, into a
    /// transport-ready request. No network contact happens here.
    ///
    /// The target URL is the base endpoint joined with the request's path and
    /// query. Without a form the body is empty and no header is set; with a
    /// form the body is its encoding and one content-type header announces
    /// the boundary. Construction fails only on a rejected base endpoint
    /// (`Config`), a joined target URL the transport's parser rejects, or a
    /// form that cannot be encoded (both `Construction`).
    pub fn build_base_request(&self, req: &ApiRequest, form: Option<&Form>) -> (r: Result<
        TransportRequest,
        Error,
    >)
        ensures
            !self.well_formed() ==> (r matches Err(Error::Config { uri }) && uri@ == self.base@),
            self.well_formed() && !spec_base_usable(
                spec_target_url(self.base@, req.path@, req.query@),
            ) ==> (r matches Err(e) && (e matches Error::Construction { .. })),
            self.well_formed() && spec_base_usable(
                spec_target_url(self.base@, req.path@, req.query@),
            ) && form is None ==> (r matches Ok(t) && t.method == req.method && t.url@
                == spec_target_url(self.base@, req.path@, req.query@) && t.headers@.len() == 0
                && t.body@.len() == 0),
            self.well_formed() && spec_base_usable(
                spec_target_url(self.base@, req.path@, req.query@),
            ) ==> (form matches Some(f) ==> (spec_form_ok(f) ==> (r matches Ok(t) && t.method
                == req.method && t.url@ == spec_target_url(self.base@, req.path@, req.query@)
                && t.body@ == spec_encode(spec_parts_view(f.parts@), spec_form_boundary(f))
                && t.headers@.len() == 1 && t.headers@[0].0@ == "Content-Type"@
                && t.headers@[0].1@ == spec_multipart_content_type(f.boundary@)))),
            self.well_formed() && spec_base_usable(
                spec_target_url(self.base@, req.path@, req.query@),
            ) ==> (form matches Some(f) ==> (!spec_form_ok(f) ==> (r matches Err(e) && (e matches
                Error::Construction { .. })))),
    {
        if !base_usable(self.base.as_str()) {
            return Err(Error::Config { uri: self.base.clone() });
        }
        let url = target_url(self.base.as_str(), req.path.as_str(), req.query.as_str());
        if !base_usable(url.as_str()) {
            return Err(
                Error::Construction {
                    message: "the transport's parser rejects the target url".to_owned(),
                },
            );
        }
        match form {
            None => Ok(
                TransportRequest {
                    method: req.method,
                    url,
                    headers: Vec::new(),
                    body: Vec::new(),
                },
            ),
            Some(f) => match encode_form(f) {
                Ok(body) => {
                    let mut ct = "multipart/form-data; boundary=".to_owned();
                    ct.append(f.boundary.as_str());
                    let mut headers: Vec<(String, String)> = Vec::new();
                    headers.push(("Content-Type".to_owned(), ct));
                    Ok(TransportRequest { method: req.method, url, headers, body })
                },
                Err(e) => Err(e),
            },
        }
    }

    /// Looks a header of a transport response up by name, ignoring ASCII
    /// case, and hands back an owned copy of the first matching value.
    pub fn get_header(headers: &Vec<(String, String)>, key: &str) -> (r: Option<String>)
        ensures
            (match response::spec_header_lookup(headers@, key@) {
                None => r is None,
                Some(v) => r matches Some(s) && s@ == v,
            }),
    {
        response::get_header(headers, key)
    }
}

impl Default for HttpReqBackend {
    /// The conventional local daemon endpoint, used when no endpoint is
    /// configured.
    fn default() -> (r: Self)
        ensures
            r.base@ == "http://localhost:5001"@,
    {
        HttpReqBackend { base: "http://localhost:5001".to_owned() }
    }
}

} // verus!
