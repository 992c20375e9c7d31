//! The answers of the endpoint that starts a run.

use vstd::prelude::*;

verus! {

/// The error part of an answer.
#[derive(Debug)]
pub struct ResponseError {
    pub code: u32,
    pub message: String,
}

/// The answer to a request to start a run.
#[derive(Debug)]
pub struct RunSimResponse {
    pub status: String,
    pub error: ResponseError,
    pub sim_uuid: String,
}

impl ResponseError {
    /// No error: the code 200 and an empty message.
    pub fn ok() -> (error: Self)
        ensures
            error.code == 200,
            error.message@ == Seq::<char>::empty(),
    {
        Self { code: 200, message: String::new() }
    }
}

impl RunSimResponse {
    /// The answer to an accepted request: the status `ok`, no error, and the
    /// identifier of the run that was started.
    pub fn accepted(sim_uuid: String) -> (response: Self)
        ensures
            response.status@ == "ok"@,
            response.error.code == 200,
            response.error.message@ == Seq::<char>::empty(),
            response.sim_uuid@ == sim_uuid@,
    {
        Self { status: "ok".to_owned(), error: ResponseError::ok(), sim_uuid }
    }
}

} // verus!
