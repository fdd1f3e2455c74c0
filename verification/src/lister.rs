//! The decisions of the model lister.
//!
//! A listing is one GET to the daemon's tags endpoint. The caller sends the
//! request and hands the outcome to [`check_response`], which says whether
//! the body is to be read. If it is, the caller decodes the body and hands
//! that outcome to [`collect_names`], which gives the list.

use vstd::prelude::*;

use crate::error::ListError;
use crate::names::is_sorted_set_of;
use crate::names::lemma_same_names_same_list;
use crate::names::names_of;
use crate::names::normalize_names;
use crate::status::HttpStatus;

verus! {

/// Where the daemon lists its installed models.
pub const TAGS_ENDPOINT: &'static str = "http://127.0.0.1:11434/api/tags";

/// One installed model, as the daemon reports it.
#[derive(Clone, Debug, PartialEq, Eq)]
pub struct ModelTag {
    pub name: String,
}

/// The decoded body of the daemon's answer.
#[derive(Clone, Debug, PartialEq, Eq)]
pub struct ModelListResponse {
    pub models: Vec<ModelTag>,
}

impl ModelListResponse {
    /// The names of the reported models, in the order of the report.
    pub open spec fn names(self) -> Seq<Seq<char>> {
        Seq::new(self.models@.len(), |i: int| self.models@[i].name@)
    }

    /// The names of the reported models, in the order of the report.
    pub fn into_names(self) -> (names: Vec<String>)
        ensures
            names_of(names@) == self.names(),
    {
        let mut names: Vec<String> = Vec::new();
        let mut i: usize = 0;
        while i < self.models.len()
            invariant
                i <= self.models@.len(),
                names_of(names@) =~= self.names().take(i as int),
            decreases self.models@.len() - i,
        {
            let name = self.models[i].name.clone();
            names.push(name);
            proof {
                assert(self.names().take(i + 1) =~= self.names().take(i as int).push(
                    self.models@[i as int].name@,
                ));
            }
            i += 1;
        }
        proof {
            assert(self.names().take(i as int) =~= self.names());
        }
        names
    }
}

/// What the outcome of the request means: a transport failure is a
/// connection failure, whatever its cause; a status that does not report
/// success is a status failure; any other response is to be read.
pub open spec fn response_verdict(sent: Result<HttpStatus, String>) -> Result<(), ListError> {
    match sent {
        Err(cause) => Err(ListError::ConnectionFailure(cause)),
        Ok(status) => if status.success() {
            Ok(())
        } else {
            Err(ListError::StatusFailure(status))
        },
    }
}

/// Decides on the outcome of the request: `Ok` if the body is to be read,
/// else the failure. `sent` is the status of the response, or the
/// transport's account of why there is none.
pub fn check_response(sent: Result<HttpStatus, String>) -> (checked: Result<(), ListError>)
    ensures
        checked == response_verdict(sent),
{
    match sent {
        Err(cause) => Err(ListError::ConnectionFailure(cause)),
        Ok(status) => if status.is_success() {
            Ok(())
        } else {
            Err(ListError::StatusFailure(status))
        },
    }
}

/// `listed` is the listing that belongs to the outcome `body` of decoding:
/// for a body that did not decode, the parse failure with the decoder's
/// account; for a payload, the sorted, duplicate-free list of its names.
pub open spec fn is_listing_of(
    listed: Result<Vec<String>, ListError>,
    body: Result<ModelListResponse, String>,
) -> bool {
    match body {
        Err(cause) => listed == Err::<Vec<String>, ListError>(ListError::ParseFailure(cause)),
        Ok(payload) => listed matches Ok(list) && is_sorted_set_of(
            names_of(list@),
            payload.names(),
        ),
    }
}

/// Gives the listing for the outcome of decoding the body. `body` is the
/// decoded payload, or the decoder's account of why there is none. A
/// payload without models gives the empty list.
pub fn collect_names(body: Result<ModelListResponse, String>) -> (listed: Result<
    Vec<String>,
    ListError,
>)
    ensures
        is_listing_of(listed, body),
{
    match body {
        Err(cause) => Err(ListError::ParseFailure(cause)),
        Ok(payload) => Ok(normalize_names(payload.into_names())),
    }
}

/// Listing again gives the same: two listings that belong to bodies with the
/// same names, in whatever order and number, hold the same list, and two
/// that belong to the same undecodable body are the same failure.
pub proof fn lemma_repeated_listing_agrees(
    first_body: Result<ModelListResponse, String>,
    first: Result<Vec<String>, ListError>,
    second_body: Result<ModelListResponse, String>,
    second: Result<Vec<String>, ListError>,
)
    requires
        is_listing_of(first, first_body),
        is_listing_of(second, second_body),
        match (first_body, second_body) {
            (Ok(a), Ok(b)) => a.names().to_set() == b.names().to_set(),
            (Err(a), Err(b)) => a == b,
            _ => false,
        },
    ensures
        match (first, second) {
            (Ok(a), Ok(b)) => names_of(a@) == names_of(b@),
            (Err(a), Err(b)) => a == b,
            _ => false,
        },
{
    if let (Ok(a), Ok(b)) = (first_body, second_body) {
        lemma_same_names_same_list(
            a.names(),
            names_of(first->Ok_0@),
            b.names(),
            names_of(second->Ok_0@),
        );
    }
}

} // verus!
