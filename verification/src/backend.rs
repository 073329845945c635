use vstd::prelude::*;
use vstd::string::*;
use crate::envelope::RunRequest;
use crate::envelope::RunResponse;
use crate::envelope::TestRequest;
use crate::envelope::TestResponse;
use crate::envelope::VisualizeRequest;
use crate::envelope::VisualizeResponse;

verus! {

/// A run outcome, reduced to its model: the response view on success, the
/// transport-level message on failure.
pub open spec fn run_result_model(r: Result<RunResponse, String>) -> Result<
    Option<Seq<char>>,
    Seq<char>,
> {
    match r {
        Ok(resp) => Ok(resp@),
        Err(m) => Err(m@),
    }
}

/// A test outcome, reduced to its model.
pub open spec fn test_result_model(r: Result<TestResponse, String>) -> Result<
    Option<Seq<char>>,
    Seq<char>,
> {
    match r {
        Ok(resp) => Ok(resp@),
        Err(m) => Err(m@),
    }
}

/// A visualize outcome, reduced to its model.
pub open spec fn visualize_result_model(r: Result<VisualizeResponse, String>) -> Result<
    (Seq<char>, Option<Seq<char>>),
    Seq<char>,
> {
    match r {
        Ok(resp) => Ok(resp@),
        Err(m) => Err(m@),
    }
}

/// The capability interface: three named operations, each fallible. An
/// implementation fixes, through the model functions, what every call
/// returns, and must be safe to share across concurrent requests — it holds
/// no per-request state, so each outcome depends on the implementation and
/// the request alone.
pub trait Backend: Send + Sync + Sized {
    /// What `run` returns for a given request, as a model value.
    spec fn run_model(&self, req: RunRequest) -> Result<Option<Seq<char>>, Seq<char>>;

    /// What `test` returns for a given request, as a model value.
    spec fn test_model(&self, req: TestRequest) -> Result<Option<Seq<char>>, Seq<char>>;

    /// What `visualize` returns for a given request, as a model value.
    spec fn visualize_model(&self, req: VisualizeRequest) -> Result<
        (Seq<char>, Option<Seq<char>>),
        Seq<char>,
    >;

    fn run(&self, req: RunRequest) -> (r: Result<RunResponse, String>)
        ensures
            run_result_model(r) == self.run_model(req),
    ;

    fn test(&self, req: TestRequest) -> (r: Result<TestResponse, String>)
        ensures
            test_result_model(r) == self.test_model(req),
    ;

    fn visualize(&self, req: VisualizeRequest) -> (r: Result<VisualizeResponse, String>)
        ensures
            visualize_result_model(r) == self.visualize_model(req),
    ;
}

/// A stand-in implementation with two modes fixed at construction: succeed
/// with the default response entity, or fail with one fixed message.
#[derive(Clone)]
pub struct MockBackend {
    error: Option<&'static str>,
}

impl MockBackend {
    /// The fixed failure message: present exactly in failure mode.
    pub closed spec fn error_model(&self) -> Option<Seq<char>> {
        match self.error {
            Some(m) => Some(m@),
            None => None,
        }
    }

    /// A mock in success mode.
    pub fn new() -> (r: MockBackend)
        ensures
            r.error_model() is None,
    {
        MockBackend { error: None }
    }

    /// A mock in failure mode, carrying the given message.
    pub fn error(message: &'static str) -> (r: MockBackend)
        ensures
            r.error_model() == Some(message@),
    {
        MockBackend { error: Some(message) }
    }
}

impl Backend for MockBackend {
    open spec fn run_model(&self, req: RunRequest) -> Result<Option<Seq<char>>, Seq<char>> {
        match self.error_model() {
            Some(m) => Err(m),
            None => Ok(None),
        }
    }

    open spec fn test_model(&self, req: TestRequest) -> Result<Option<Seq<char>>, Seq<char>> {
        match self.error_model() {
            Some(m) => Err(m),
            None => Ok(None),
        }
    }

    open spec fn visualize_model(&self, req: VisualizeRequest) -> Result<
        (Seq<char>, Option<Seq<char>>),
        Seq<char>,
    > {
        match self.error_model() {
            Some(m) => Err(m),
            None => Ok((Seq::<char>::empty(), None)),
        }
    }

    fn run(&self, req: RunRequest) -> (r: Result<RunResponse, String>) {
        match self.error {
            Some(err) => Err(err.to_owned()),
            None => Ok(RunResponse::new()),
        }
    }

    fn test(&self, req: TestRequest) -> (r: Result<TestResponse, String>) {
        match self.error {
            Some(err) => Err(err.to_owned()),
            None => Ok(TestResponse::new()),
        }
    }

    fn visualize(&self, req: VisualizeRequest) -> (r: Result<VisualizeResponse, String>) {
        match self.error {
            Some(err) => Err(err.to_owned()),
            None => Ok(VisualizeResponse::new()),
        }
    }
}

} // verus!
