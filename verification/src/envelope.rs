use vstd::prelude::*;
use crate::json::JsonValue;

verus! {

/// No two members of a configuration mapping share a key.
pub open spec fn distinct_str_keys(s: Seq<(String, JsonValue)>) -> bool {
    forall|i: int, j: int| 0 <= i < j < s.len() ==> s[i].0@ != s[j].0@
}

/// No two members of an integer-keyed mapping share a key.
pub open spec fn distinct_int_keys(s: Seq<(i64, String)>) -> bool {
    forall|i: int, j: int| 0 <= i < j < s.len() ==> s[i].0 != s[j].0
}

/// The request entity of the run operation. The two mappings are held as
/// member lists in insertion order, each key at most once.
pub struct RunRequest {
    pub id: String,
    pub backend: String,
    pub input: String,
    pub config: Vec<(String, JsonValue)>,
    pub foo: Vec<(i64, String)>,
}

impl RunRequest {
    /// A request entity is well formed when its mapping keys are distinct.
    pub open spec fn wf(&self) -> bool {
        distinct_str_keys(self.config@) && distinct_int_keys(self.foo@)
    }

    pub fn new() -> (r: Self)
        ensures
            r.id@ == Seq::<char>::empty(),
            r.backend@ == Seq::<char>::empty(),
            r.input@ == Seq::<char>::empty(),
            r.config@ == Seq::<(String, JsonValue)>::empty(),
            r.foo@ == Seq::<(i64, String)>::empty(),
            r.wf(),
    {
        let r = RunRequest {
            id: String::new(),
            backend: String::new(),
            input: String::new(),
            config: Vec::new(),
            foo: Vec::new(),
        };
        proof {
            assert(r.config@ =~= Seq::<(String, JsonValue)>::empty());
            assert(r.foo@ =~= Seq::<(i64, String)>::empty());
        }
        r
    }

    pub fn make(
        id: String,
        backend: String,
        input: String,
        config: Vec<(String, JsonValue)>,
        foo: Vec<(i64, String)>,
    ) -> (r: Self)
        requires
            distinct_str_keys(config@),
            distinct_int_keys(foo@),
        ensures
            r == (RunRequest { id, backend, input, config, foo }),
            r.wf(),
    {
        RunRequest { id, backend, input, config, foo }
    }
}

impl Default for RunRequest {
    fn default() -> (r: RunRequest)
        ensures
            r.id@ == Seq::<char>::empty(),
            r.backend@ == Seq::<char>::empty(),
            r.input@ == Seq::<char>::empty(),
            r.config@ == Seq::<(String, JsonValue)>::empty(),
            r.foo@ == Seq::<(i64, String)>::empty(),
    {
        RunRequest::new()
    }
}

/// The response entity of the run operation: an in-band error, or nothing.
pub struct RunResponse {
    error: Option<String>,
}

impl View for RunResponse {
    type V = Option<Seq<char>>;

    closed spec fn view(&self) -> Option<Seq<char>> {
        match self.error {
            Some(m) => Some(m@),
            None => None,
        }
    }
}

impl RunResponse {
    pub fn new() -> (r: Self)
        ensures
            r@ is None,
    {
        RunResponse { error: None }
    }

    pub fn make() -> (r: Self)
        ensures
            r@ is None,
    {
        RunResponse { error: None }
    }

    pub fn error(msg: String) -> (r: Self)
        ensures
            r@ == Some(msg@),
    {
        RunResponse { error: Some(msg) }
    }

    pub fn is_error(&self) -> (r: bool)
        ensures
            r == (self@ is Some),
    {
        match self.error {
            Some(_) => true,
            None => false,
        }
    }

    pub fn get_error(&self) -> (r: Option<&String>)
        ensures
            match r {
                Some(m) => self@ == Some(m@),
                None => self@ is None,
            },
    {
        self.error.as_ref()
    }

    pub fn take_error(&mut self) -> (r: Option<String>)
        ensures
            final(self)@ is None,
            match r {
                Some(m) => old(self)@ == Some(m@),
                None => old(self)@ is None,
            },
    {
        self.error.take()
    }
}

impl Default for RunResponse {
    fn default() -> (r: RunResponse)
        ensures
            r@ is None,
    {
        RunResponse::new()
    }
}

/// The request entity of the test operation: a marker with no fields.
pub struct TestRequest {}

impl TestRequest {
    pub fn new() -> (r: Self) {
        TestRequest {  }
    }

    pub fn make() -> (r: Self) {
        TestRequest {  }
    }
}

impl Default for TestRequest {
    fn default() -> (r: TestRequest) {
        TestRequest::new()
    }
}

/// The response entity of the test operation: an in-band error, or nothing.
pub struct TestResponse {
    error: Option<String>,
}

impl View for TestResponse {
    type V = Option<Seq<char>>;

    closed spec fn view(&self) -> Option<Seq<char>> {
        match self.error {
            Some(m) => Some(m@),
            None => None,
        }
    }
}

impl TestResponse {
    pub fn new() -> (r: Self)
        ensures
            r@ is None,
    {
        TestResponse { error: None }
    }

    pub fn make() -> (r: Self)
        ensures
            r@ is None,
    {
        TestResponse { error: None }
    }

    pub fn error(msg: String) -> (r: Self)
        ensures
            r@ == Some(msg@),
    {
        TestResponse { error: Some(msg) }
    }

    pub fn is_error(&self) -> (r: bool)
        ensures
            r == (self@ is Some),
    {
        match self.error {
            Some(_) => true,
            None => false,
        }
    }

    pub fn get_error(&self) -> (r: Option<&String>)
        ensures
            match r {
                Some(m) => self@ == Some(m@),
                None => self@ is None,
            },
    {
        self.error.as_ref()
    }

    pub fn take_error(&mut self) -> (r: Option<String>)
        ensures
            final(self)@ is None,
            match r {
                Some(m) => old(self)@ == Some(m@),
                None => old(self)@ is None,
            },
    {
        self.error.take()
    }
}

impl Default for TestResponse {
    fn default() -> (r: TestResponse)
        ensures
            r@ is None,
    {
        TestResponse::new()
    }
}

/// The request entity of the visualize operation.
pub struct VisualizeRequest {
    pub f_p_s: i64,
    pub num_frames: i64,
}

impl VisualizeRequest {
    pub fn new() -> (r: Self)
        ensures
            r.f_p_s == 0,
            r.num_frames == 0,
    {
        VisualizeRequest { f_p_s: 0, num_frames: 0 }
    }

    pub fn make(f_p_s: i64, num_frames: i64) -> (r: Self)
        ensures
            r == (VisualizeRequest { f_p_s, num_frames }),
    {
        VisualizeRequest { f_p_s, num_frames }
    }
}

impl Default for VisualizeRequest {
    fn default() -> (r: VisualizeRequest)
        ensures
            r.f_p_s == 0,
            r.num_frames == 0,
    {
        VisualizeRequest::new()
    }
}

/// The response entity of the visualize operation: a resource on success,
/// with the same in-band error channel as the others.
pub struct VisualizeResponse {
    pub resource: String,
    error: Option<String>,
}

impl View for VisualizeResponse {
    type V = (Seq<char>, Option<Seq<char>>);

    closed spec fn view(&self) -> (Seq<char>, Option<Seq<char>>) {
        (
            self.resource@,
            match self.error {
                Some(m) => Some(m@),
                None => None,
            },
        )
    }
}

impl VisualizeResponse {
    pub fn new() -> (r: Self)
        ensures
            r@.0 == Seq::<char>::empty(),
            r@.1 is None,
    {
        VisualizeResponse { resource: String::new(), error: None }
    }

    pub fn make(resource: String) -> (r: Self)
        ensures
            r@.0 == resource@,
            r@.1 is None,
    {
        VisualizeResponse { resource, error: None }
    }

    pub fn error(msg: String) -> (r: Self)
        ensures
            r@.0 == Seq::<char>::empty(),
            r@.1 == Some(msg@),
    {
        VisualizeResponse { resource: String::new(), error: Some(msg) }
    }

    /// The resource field, readable where the whole value is opaque.
    pub fn resource(&self) -> (r: &String)
        ensures
            r@ == self@.0,
    {
        &self.resource
    }

    pub fn is_error(&self) -> (r: bool)
        ensures
            r == (self@.1 is Some),
    {
        match self.error {
            Some(_) => true,
            None => false,
        }
    }

    pub fn get_error(&self) -> (r: Option<&String>)
        ensures
            match r {
                Some(m) => self@.1 == Some(m@),
                None => self@.1 is None,
            },
    {
        self.error.as_ref()
    }

    pub fn take_error(&mut self) -> (r: Option<String>)
        ensures
            final(self)@.1 is None,
            final(self)@.0 == old(self)@.0,
            match r {
                Some(m) => old(self)@.1 == Some(m@),
                None => old(self)@.1 is None,
            },
    {
        self.error.take()
    }
}

impl Default for VisualizeResponse {
    fn default() -> (r: VisualizeResponse)
        ensures
            r@.0 == Seq::<char>::empty(),
            r@.1 is None,
    {
        VisualizeResponse::new()
    }
}

} // verus!
