//! HTTP status codes.
use vstd::prelude::*;

verus! {

/// A HTTP response status code.
#[derive(Debug, Clone, Copy, PartialEq, Eq, Structural)]
pub struct StatusCode(pub u16);

impl StatusCode {
    /// Create a status code with the given numerical value.
    pub fn new(status_code: u16) -> (r: Self)
        ensures
            r.0 == status_code,
    {
        StatusCode(status_code)
    }

    /// Convert a status code into the underlying numerical value.
    pub fn as_u16(self) -> (r: u16)
        ensures
            r == self.0,
    {
        self.0
    }

    /// Is the status code with the 1xx range
    pub fn is_informational(&self) -> (r: bool)
        ensures
            r == (100 <= self.0 < 200),
    {
        200 > self.0 && self.0 >= 100
    }

    /// Is the status code with the 2xx range
    pub fn is_success(&self) -> (r: bool)
        ensures
            r == (200 <= self.0 < 300),
    {
        300 > self.0 && self.0 >= 200
    }

    /// Is the status code with the 3xx range
    pub fn is_redirection(&self) -> (r: bool)
        ensures
            r == (300 <= self.0 < 400),
    {
        400 > self.0 && self.0 >= 300
    }

    /// Is the status code with the 4xx range
    pub fn is_client_error(&self) -> (r: bool)
        ensures
            r == (400 <= self.0 < 500),
    {
        500 > self.0 && self.0 >= 400
    }

    /// Is the status code with the 5xx range
    pub fn is_server_error(&self) -> (r: bool)
        ensures
            r == (500 <= self.0 < 600),
    {
        600 > self.0 && self.0 >= 500
    }
}

} // verus!
