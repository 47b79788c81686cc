//! Plain resource types of the cloud API, and the addresses of its
//! endpoints.

use vstd::prelude::*;

verus! {

/// A calendar date, as the API writes it.
pub type Date = String;

/// A point in time with its offset, as the API writes it.
pub type DateTimeOffset = String;

/// The address under which every endpoint of the API lies.
pub const GRAPH_BASE_URI: &'static str = "https://graph.microsoft.com/beta";

/// A point in time together with the time zone it is given in.
#[derive(Debug)]
pub struct DateTimeTimeZone {
    pub date_time: String,
    pub time_zone: String,
}

/// What the server sends: the resource asked for, or the description of an
/// error.
#[derive(Debug)]
pub enum Response<T> {
    Success(T),
    Error(ErrorResponse),
}

/// The body of an answer that reports an error.
#[derive(Debug)]
pub struct ErrorResponse {
    pub error: ErrorResponseError,
}

/// The error that an [`ErrorResponse`] reports.
#[derive(Debug)]
pub struct ErrorResponseError {
    pub code: String,
    pub message: String,
    pub inner_error: ErrorResponseErrorInnerError,
}

/// Where and when the error arose on the server.
#[derive(Debug)]
pub struct ErrorResponseErrorInnerError {
    pub date: String,
    pub request_id: String,
    pub client_request_id: String,
}

impl<T> Response<T> {
    /// The resource, or the error that was sent in its place.
    pub fn into_result(self) -> (r: Result<T, ErrorResponse>)
        ensures
            match self {
                Response::Success(value) => r == Ok::<T, ErrorResponse>(value),
                Response::Error(e) => r == Err::<T, ErrorResponse>(e),
            },
    {
        match self {
            Response::Success(value) => Ok(value),
            Response::Error(e) => Err(e),
        }
    }
}

/// The address of the endpoint at `path`: the base address followed by the
/// path.
pub fn graph_url(path: &str) -> (r: String)
    ensures
        r@ == GRAPH_BASE_URI@ + path@,
{
    String::from_str(GRAPH_BASE_URI).concat(path)
}

/// The address of the listing of all task lists.
pub fn lists_url() -> (r: String)
    ensures
        r@ == GRAPH_BASE_URI@ + "/me/todo/lists"@,
{
    graph_url("/me/todo/lists")
}

/// The address of the listing of the tasks of the list of this id.
pub fn tasks_url(list_id: &str) -> (r: String)
    ensures
        r@ == GRAPH_BASE_URI@ + "/me/todo/lists/"@ + list_id@ + "/tasks"@,
{
    graph_url("/me/todo/lists/").concat(list_id).concat("/tasks")
}

} // verus!
