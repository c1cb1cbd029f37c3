//! Per-call-site fetch state: the data each hook stores in the keyed
//! hook-state store, together with its mathematical view.

use crate::json::SendMessageRequestBody;
use crate::status::UseFetchStatus;
use vstd::prelude::*;

verus! {

/// The HTTP method a fetch is issued with.
#[derive(Clone, Copy, Debug, PartialEq, Eq, Structural)]
pub enum Method {
    Get,
    Post,
    Put,
    Delete,
}

/// Why a transport attempt failed, as reported by the host.
#[derive(Clone, Copy, Debug, PartialEq, Eq, Structural)]
pub struct FailureInfo {
    /// The failure code the transport reported (an HTTP status or a
    /// host-defined code).
    pub code: u16,
}

/// State of one single-item fetch hook.
#[derive(Debug)]
pub struct UseFetch {
    pub status: UseFetchStatus,
    pub string_response: Option<Vec<char>>,
    pub fail_reason: Option<FailureInfo>,
    pub url: Vec<char>,
    pub method: Method,
}

/// Mathematical view of [`UseFetch`].
pub ghost struct UseFetchV {
    pub status: UseFetchStatus,
    pub string_response: Option<Seq<char>>,
    pub fail_reason: Option<FailureInfo>,
    pub url: Seq<char>,
    pub method: Method,
}

impl View for UseFetch {
    type V = UseFetchV;

    open spec fn view(&self) -> UseFetchV {
        UseFetchV {
            status: self.status,
            string_response: match self.string_response {
                Some(r) => Some(r@),
                None => None,
            },
            fail_reason: self.fail_reason,
            url: self.url@,
            method: self.method,
        }
    }
}

impl UseFetch {
    /// The state of a single-item fetch that was never dispatched.
    pub fn new(url: Vec<char>, method: Method) -> (r: UseFetch)
        ensures
            r@ == (UseFetchV {
                status: UseFetchStatus::Initialized,
                string_response: None,
                fail_reason: None,
                url: url@,
                method,
            }),
    {
        UseFetch {
            status: UseFetchStatus::Initialized,
            string_response: None,
            fail_reason: None,
            url,
            method,
        }
    }
}

/// State of one collection fetch hook: the stored request additionally
/// carries the query body sent with each dispatch, and no failure reason is
/// kept (a transport failure leaves this state unchanged).
#[derive(Debug)]
pub struct UseFetchCollection {
    pub status: UseFetchStatus,
    pub json_body: SendMessageRequestBody,
    pub string_response: Option<Vec<char>>,
    pub url: Vec<char>,
    pub method: Method,
}

/// Mathematical view of [`UseFetchCollection`].
pub ghost struct UseFetchCollectionV {
    pub status: UseFetchStatus,
    pub json_body: Seq<char>,
    pub string_response: Option<Seq<char>>,
    pub url: Seq<char>,
    pub method: Method,
}

impl View for UseFetchCollection {
    type V = UseFetchCollectionV;

    open spec fn view(&self) -> UseFetchCollectionV {
        UseFetchCollectionV {
            status: self.status,
            json_body: self.json_body.query@,
            string_response: match self.string_response {
                Some(r) => Some(r@),
                None => None,
            },
            url: self.url@,
            method: self.method,
        }
    }
}

impl UseFetchCollection {
    /// The state of a collection fetch that was never dispatched.
    pub fn new(url: Vec<char>, json_body: SendMessageRequestBody, method: Method) -> (r:
        UseFetchCollection)
        ensures
            r@ == (UseFetchCollectionV {
                status: UseFetchStatus::Initialized,
                json_body: json_body.query@,
                string_response: None,
                url: url@,
                method,
            }),
    {
        UseFetchCollection { status: UseFetchStatus::Initialized, json_body, string_response: None, url, method }
    }
}

} // verus!
