//! Serving one file: the pending read and what becomes of it.

use vstd::prelude::*;
use crate::error::ProxyError;
use crate::response::{Response, NOT_FOUND, OK};

verus! {

/// What came of opening a file and reading it to its end.
#[derive(Debug)]
pub enum FileRead {
    /// The file was read; these are its bytes.
    Contents(Vec<u8>),
    /// There is no file at that place.
    NotFound,
    /// The file could not be opened or read for another reason (no
    /// permission, a directory, too many open files). Holds the system's
    /// report.
    Failed(String),
}

/// A file that is about to be read for a request.
#[derive(Debug)]
pub struct StaticFileFuture {
    path: String,
}

impl View for StaticFileFuture {
    type V = Seq<char>;

    /// The place of the file.
    closed spec fn view(&self) -> Seq<char> {
        self.path@
    }
}

impl StaticFileFuture {
    /// A pending read of the file at `path`.
    pub fn new(path: String) -> (pending: Self)
        ensures
            pending@ == path@,
    {
        Self { path }
    }

    /// The place of the file.
    pub fn path(&self) -> (path: &str)
        ensures
            path@ == self@,
    {
        self.path.as_str()
    }

    /// What the request is answered with once the read has ended: the
    /// file's bytes under `200`, an empty `404` where there is no such file,
    /// and the failure itself for anything else, its report kept out of any
    /// body.
    pub fn poll(&self, read: FileRead) -> (result: Result<Response, ProxyError>)
        ensures
            match read {
                FileRead::Contents(bytes) => result matches Ok(response) && response.status == OK
                    && response.body@ == bytes@,
                FileRead::NotFound => result matches Ok(response) && response.status == NOT_FOUND
                    && response.body@ == Seq::<u8>::empty(),
                FileRead::Failed(cause) => result matches Err(ProxyError::Proxy(report))
                    && report@ == cause@,
            },
    {
        match read {
            FileRead::Contents(bytes) => Ok(Response::ok(bytes)),
            FileRead::NotFound => Ok(Response::not_found()),
            FileRead::Failed(cause) => Err(ProxyError::Proxy(cause)),
        }
    }
}

} // verus!
