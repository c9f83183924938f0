use vstd::prelude::*;

use crate::response::{wire, Response};

verus! {

/// The statuses that `get_response` frames.
#[derive(Debug, Clone, Copy, PartialEq, Eq, Structural)]
pub enum Status {
    Success,
    NotFound,
    Created,
}

/// The response for a status and an optional body with its media type.
pub open spec fn status_response(status: Status, body: Option<(Vec<u8>, String)>) -> Response {
    match status {
        Status::NotFound => Response::NotFound,
        Status::Created => Response::Created,
        Status::Success => match body {
            Some((b, m)) => Response::Success(Some((b, m, None))),
            None => Response::Success(None),
        },
    }
}

/// Frames a status with an optional unencoded body.
pub fn get_response(status: Status, body: Option<(Vec<u8>, String)>) -> (r: Vec<u8>)
    ensures
        r@ == wire(status_response(status, body)),
{
    let resp = match status {
        Status::NotFound => Response::NotFound,
        Status::Created => Response::Created,
        Status::Success => match body {
            Some((b, m)) => Response::Success(Some((b, m, None))),
            None => Response::Success(None),
        },
    };
    resp.to_vec()
}

} // verus!
