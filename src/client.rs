//! What a client makes of the server's responses.
use vstd::prelude::*;

use crate::error::Error;
use crate::server::Response;

verus! {

/// The outcome of a get: `Value` is the value, `Done` means no value, and
/// `Error` is the server's error.
pub fn get_outcome(response: Response) -> (r: Result<Option<String>, Error>)
    ensures
        response matches Response::Value(v) ==> r == Ok::<Option<String>, Error>(Some(v)),
        response is Done ==> r == Ok::<Option<String>, Error>(None),
        response matches Response::Error(e) ==> r == Err::<Option<String>, Error>(e),
{
    match response {
        Response::Value(v) => Ok(Some(v)),
        Response::Done => Ok(None),
        Response::Error(e) => Err(e),
    }
}

/// The outcome of a set or a remove: `Done` is success and `Error` the
/// server's error; a value, which no set or remove answers, is a `Generic`
/// error.
pub fn write_outcome(response: Response) -> (r: Result<(), Error>)
    ensures
        response is Done ==> r is Ok,
        response matches Response::Error(e) ==> r == Err::<(), Error>(e),
        response is Value ==> (r matches Err(e) && e is Generic),
{
    match response {
        Response::Done => Ok(()),
        Response::Error(e) => Err(e),
        Response::Value(_) => Err(Error::Generic("unexpected value in the response".to_owned())),
    }
}

} // verus!
