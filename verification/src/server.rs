//! The server's part between a request and its response.

use crate::engine::KvsEngine;
use crate::error::KvsError;
use vstd::prelude::*;

verus! {

/// What a client asks of the server.
#[derive(Debug)]
pub enum Request {
    Get { key: String },
    /// Sent with the tag `Set`.
    Put { key: String, value: String },
    Remove { key: String },
}

/// The answer to a `Get`.
#[derive(Debug)]
pub enum GetResponse {
    /// The value found, if any; sent with the tag `Ok`.
    Found(Option<String>),
    /// The words of the error; sent with the tag `Err`.
    Failed(String),
}

/// The answer to a `Put` or a `Remove`.
#[derive(Debug)]
pub enum SetOrRemoveResponse {
    /// Sent with the tag `Ok`.
    Done,
    /// The words of the error; sent with the tag `Err`.
    Failed(String),
}

/// The answer to a request.
#[derive(Debug)]
pub enum Response {
    Get(GetResponse),
    SetOrRemove(SetOrRemoveResponse),
}

/// Whether `resp` is the answer to a `Get` for which the engine returned
/// `r`: the value found, or the words of the error.
pub open spec fn answers_get(r: Result<Option<String>, KvsError>, resp: GetResponse) -> bool {
    match r {
        Ok(value) => resp == GetResponse::Found(value),
        Err(e) => resp matches GetResponse::Failed(text) && text@ == e.message_spec(),
    }
}

/// Whether `resp` is the answer to a `Put` or a `Remove` for which the
/// engine returned `r`: done, or the words of the error.
pub open spec fn answers_set_or_remove(r: Result<(), KvsError>, resp: SetOrRemoveResponse) -> bool {
    match r {
        Ok(()) => resp is Done,
        Err(e) => resp matches SetOrRemoveResponse::Failed(text) && text@ == e.message_spec(),
    }
}

/// The answer to a `Get` for what the engine returned.
pub fn get_response(r: Result<Option<String>, KvsError>) -> (resp: GetResponse)
    ensures
        answers_get(r, resp),
{
    match r {
        Ok(value) => GetResponse::Found(value),
        Err(e) => GetResponse::Failed(e.message()),
    }
}

/// The answer to a `Put` or a `Remove` for what the engine returned.
pub fn set_or_remove_response(r: Result<(), KvsError>) -> (resp: SetOrRemoveResponse)
    ensures
        answers_set_or_remove(r, resp),
{
    match r {
        Ok(()) => SetOrRemoveResponse::Done,
        Err(e) => SetOrRemoveResponse::Failed(e.message()),
    }
}

/// A server in front of an engine.
pub struct KvsServer<E: KvsEngine> {
    engine: E,
}

impl<E: KvsEngine> KvsServer<E> {
    /// The engine that the server asks.
    pub closed spec fn engine_spec(&self) -> E {
        self.engine
    }

    /// A server in front of `engine`.
    pub fn new(engine: E) -> (server: Self)
        ensures
            server.engine_spec() == engine,
    {
        KvsServer { engine }
    }

    /// Whether the engine `before`, asked `req`, may have become the engine
    /// `after` and answered `resp`: the engine did the one operation that
    /// the request names, and the response tells what it returned.
    pub open spec fn handled(before: E, req: Request, after: E, resp: Response) -> bool {
        match req {
            Request::Get { key } => exists|r: Result<Option<String>, KvsError>|
                #[trigger] E::did_get(before, key@, after, r) && (resp matches Response::Get(get)
                    && answers_get(r, get)),
            Request::Put { key, value } => exists|r: Result<(), KvsError>|
                #[trigger] E::did_set(before, key@, value@, after, r) && (
                resp matches Response::SetOrRemove(done) && answers_set_or_remove(r, done)),
            Request::Remove { key } => exists|r: Result<(), KvsError>|
                #[trigger] E::did_remove(before, key@, after, r) && (
                resp matches Response::SetOrRemove(done) && answers_set_or_remove(r, done)),
        }
    }

    /// Hands the request to the engine and turns what the engine returns
    /// into the response.
    pub fn handle(&mut self, req: Request) -> (resp: Response)
        requires
            old(self).engine_spec().inv(),
        ensures
            final(self).engine_spec().inv(),
            Self::handled(old(self).engine_spec(), req, final(self).engine_spec(), resp),
    {
        match req {
            Request::Get { key } => {
                let r = self.engine.get(key);
                Response::Get(get_response(r))
            },
            Request::Put { key, value } => {
                let r = self.engine.set(key, value);
                Response::SetOrRemove(set_or_remove_response(r))
            },
            Request::Remove { key } => {
                let r = self.engine.remove(key);
                Response::SetOrRemove(set_or_remove_response(r))
            },
        }
    }
}

} // verus!
