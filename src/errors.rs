use vstd::prelude::*;

verus! {

/// Failures of the workers that serve connections.
#[derive(Debug, Clone, Copy, PartialEq, Eq, Structural)]
pub enum ThreadPoolError {
    /// A worker for a connection could not be started.
    Spawn,
}

/// Failures that lie with the server.
#[derive(Debug, Clone, Copy, PartialEq, Eq, Structural)]
pub enum ServerError {
    Internal,
    NotImplemented,
}

/// Failures that lie with the client.
#[derive(Debug, Clone, Copy, PartialEq, Eq, Structural)]
pub enum ClientError {
    NotFound,
    BadRequest,
}

/// Every failure that a request can meet on its way through the server.
#[derive(Debug, PartialEq, Eq)]
pub enum AppError {
    Client(ClientError),
    Server(ServerError),
    /// A read or a write failed; the text describes it.
    IO(String),
    /// A number in the request could not be read.
    Parse,
    ThreadPool(ThreadPoolError),
}

/// Code and reason phrase of the status line for a server error.
pub open spec fn server_status_text(e: ServerError) -> Seq<char> {
    match e {
        ServerError::Internal => "500 Internal Server Error"@,
        ServerError::NotImplemented => "501 Not Implemented"@,
    }
}

/// Code and reason phrase of the status line for a client error.
pub open spec fn client_status_text(e: ClientError) -> Seq<char> {
    match e {
        ClientError::NotFound => "404 Not Found"@,
        ClientError::BadRequest => "400 Bad Request"@,
    }
}

impl ServerError {
    /// The status code and reason phrase, as they stand in a status line.
    pub fn status_text(&self) -> (r: &'static str)
        ensures
            r@ == server_status_text(*self),
    {
        match self {
            ServerError::Internal => "500 Internal Server Error",
            ServerError::NotImplemented => "501 Not Implemented",
        }
    }
}

impl ClientError {
    /// The status code and reason phrase, as they stand in a status line.
    pub fn status_text(&self) -> (r: &'static str)
        ensures
            r@ == client_status_text(*self),
    {
        match self {
            ClientError::NotFound => "404 Not Found",
            ClientError::BadRequest => "400 Bad Request",
        }
    }
}

impl From<ClientError> for AppError {
    fn from(e: ClientError) -> (r: AppError)
        ensures
            r == AppError::Client(e),
    {
        AppError::Client(e)
    }
}

impl vstd::std_specs::convert::FromSpecImpl<ClientError> for AppError {
    open spec fn obeys_from_spec() -> bool {
        true
    }

    open spec fn from_spec(e: ClientError) -> AppError {
        AppError::Client(e)
    }
}

impl From<ServerError> for AppError {
    fn from(e: ServerError) -> (r: AppError)
        ensures
            r == AppError::Server(e),
    {
        AppError::Server(e)
    }
}

impl vstd::std_specs::convert::FromSpecImpl<ServerError> for AppError {
    open spec fn obeys_from_spec() -> bool {
        true
    }

    open spec fn from_spec(e: ServerError) -> AppError {
        AppError::Server(e)
    }
}

impl From<ThreadPoolError> for AppError {
    fn from(e: ThreadPoolError) -> (r: AppError)
        ensures
            r == AppError::ThreadPool(e),
    {
        AppError::ThreadPool(e)
    }
}

impl vstd::std_specs::convert::FromSpecImpl<ThreadPoolError> for AppError {
    open spec fn obeys_from_spec() -> bool {
        true
    }

    open spec fn from_spec(e: ThreadPoolError) -> AppError {
        AppError::ThreadPool(e)
    }
}

} // verus!
