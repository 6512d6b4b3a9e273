//! Per-call request options.

use vstd::prelude::*;

verus! {

/// HTTP method of a call.
#[derive(Debug, Clone, Copy, PartialEq, Eq, Structural)]
pub enum Method {
    /// `GET`: parameters in the query string, no body.
    Get,
    /// `POST`.
    Post,
    /// `PUT`.
    Put,
    /// `PATCH`.
    Patch,
    /// `DELETE`.
    Delete,
}

impl Default for Method {
    fn default() -> (method: Self)
        ensures
            method == Method::Get,
    {
        Method::Get
    }
}

/// Options applied to a single call. What is set overrides the client's base
/// for that call only.
#[derive(Debug)]
pub struct CallOpts {
    /// The url for this call.
    pub url: Option<String>,
    /// Headers set over the base headers.
    pub headers: Vec<(String, String)>,
    /// Files to upload as multipart parts.
    pub files: Vec<Vec<u8>>,
    /// The HTTP method.
    pub method: Option<Method>,
}

impl CallOpts {
    /// Nothing is set.
    pub open spec fn is_plain(self) -> bool {
        self.url is None && self.headers@.len() == 0 && self.files@.len() == 0
            && self.method is None
    }

    /// An empty option set.
    #[must_use]
    pub fn new() -> (opts: Self)
        ensures
            opts.is_plain(),
    {
        CallOpts { url: None, headers: Vec::new(), files: Vec::new(), method: None }
    }

    /// Sets the url.
    #[must_use]
    pub fn url(self, url: String) -> (opts: Self)
        ensures
            opts == (CallOpts { url: Some(url), ..self }),
    {
        CallOpts { url: Some(url), headers: self.headers, files: self.files, method: self.method }
    }

    /// Adds a header.
    #[must_use]
    pub fn header(self, name: String, value: String) -> (opts: Self)
        ensures
            opts.headers@ == self.headers@.push((name, value)),
            opts.url == self.url,
            opts.files == self.files,
            opts.method == self.method,
    {
        let mut headers = self.headers;
        headers.push((name, value));
        CallOpts { url: self.url, headers, files: self.files, method: self.method }
    }

    /// Adds a file to upload.
    #[must_use]
    pub fn file(self, bytes: Vec<u8>) -> (opts: Self)
        ensures
            opts.files@ == self.files@.push(bytes),
            opts.url == self.url,
            opts.headers == self.headers,
            opts.method == self.method,
    {
        let mut files = self.files;
        files.push(bytes);
        CallOpts { url: self.url, headers: self.headers, files, method: self.method }
    }

    /// Sets the HTTP method.
    #[must_use]
    pub fn method(self, method: Method) -> (opts: Self)
        ensures
            opts == (CallOpts { method: Some(method), ..self }),
    {
        CallOpts { url: self.url, headers: self.headers, files: self.files, method: Some(method) }
    }
}

impl Default for CallOpts {
    fn default() -> (opts: Self)
        ensures
            opts.is_plain(),
    {
        CallOpts::new()
    }
}

} // verus!
