use vstd::prelude::*;
use crate::backend::Backend;
use crate::backend::MockBackend;
use crate::backend::run_result_model;
use crate::backend::test_result_model;
use crate::backend::visualize_result_model;
use crate::codec::encode_run_response;
use crate::codec::encode_test_response;
use crate::codec::encode_visualize_response;
use crate::codec::error_json;
use crate::codec::error_envelope_json;
use crate::codec::run_response_json;
use crate::codec::test_response_json;
use crate::codec::visualize_response_json;
use crate::envelope::RunRequest;
use crate::envelope::RunResponse;
use crate::envelope::TestRequest;
use crate::envelope::TestResponse;
use crate::envelope::VisualizeRequest;
use crate::envelope::VisualizeResponse;
use crate::json::str_eq;

verus! {

/// A single HTTP reply produced by the dispatch layer: a status code and a
/// JSON body.
pub struct HttpReply {
    pub status: u16,
    pub body: String,
}

/// The reply owed to a run outcome: 200 with the response's own JSON on
/// success, 500 with the failure envelope on a transport-level failure.
pub open spec fn run_reply_model(outcome: Result<Option<Seq<char>>, Seq<char>>) -> (
    int,
    Seq<char>,
) {
    match outcome {
        Ok(e) => (200int, run_response_json(e)),
        Err(m) => (500int, error_envelope_json(m)),
    }
}

/// The reply owed to a test outcome.
pub open spec fn test_reply_model(outcome: Result<Option<Seq<char>>, Seq<char>>) -> (
    int,
    Seq<char>,
) {
    match outcome {
        Ok(e) => (200int, test_response_json(e)),
        Err(m) => (500int, error_envelope_json(m)),
    }
}

/// The reply owed to a visualize outcome.
pub open spec fn visualize_reply_model(
    outcome: Result<(Seq<char>, Option<Seq<char>>), Seq<char>>,
) -> (int, Seq<char>) {
    match outcome {
        Ok(v) => (200int, visualize_response_json(v)),
        Err(m) => (500int, error_envelope_json(m)),
    }
}

/// Turns one run outcome into the reply it owes. A populated in-band error
/// still travels with status 200: only a transport-level failure reaches the
/// out-of-band envelope.
pub fn classify_run(outcome: Result<RunResponse, String>) -> (r: HttpReply)
    ensures
        (r.status as int, r.body@) == run_reply_model(run_result_model(outcome)),
{
    match outcome {
        Ok(resp) => HttpReply { status: 200, body: encode_run_response(&resp) },
        Err(m) => HttpReply { status: 500, body: error_json(m.as_str()) },
    }
}

/// Turns one test outcome into the reply it owes.
pub fn classify_test(outcome: Result<TestResponse, String>) -> (r: HttpReply)
    ensures
        (r.status as int, r.body@) == test_reply_model(test_result_model(outcome)),
{
    match outcome {
        Ok(resp) => HttpReply { status: 200, body: encode_test_response(&resp) },
        Err(m) => HttpReply { status: 500, body: error_json(m.as_str()) },
    }
}

/// Turns one visualize outcome into the reply it owes.
pub fn classify_visualize(outcome: Result<VisualizeResponse, String>) -> (r: HttpReply)
    ensures
        (r.status as int, r.body@) == visualize_reply_model(visualize_result_model(outcome)),
{
    match outcome {
        Ok(resp) => HttpReply { status: 200, body: encode_visualize_response(&resp) },
        Err(m) => HttpReply { status: 500, body: error_json(m.as_str()) },
    }
}

/// One whole run dispatch: invoke the shared implementation, classify the
/// outcome. The reply is a function of the implementation and the request
/// alone, so concurrent requests cannot affect one another's replies.
pub fn handle_run<T: Backend>(svc: &T, req: RunRequest) -> (r: HttpReply)
    ensures
        (r.status as int, r.body@) == run_reply_model(svc.run_model(req)),
{
    let outcome = svc.run(req);
    classify_run(outcome)
}

/// One whole test dispatch.
pub fn handle_test<T: Backend>(svc: &T, req: TestRequest) -> (r: HttpReply)
    ensures
        (r.status as int, r.body@) == test_reply_model(svc.test_model(req)),
{
    let outcome = svc.test(req);
    classify_test(outcome)
}

/// One whole visualize dispatch.
pub fn handle_visualize<T: Backend>(svc: &T, req: VisualizeRequest) -> (r: HttpReply)
    ensures
        (r.status as int, r.body@) == visualize_reply_model(svc.visualize_model(req)),
{
    let outcome = svc.visualize(req);
    classify_visualize(outcome)
}

/// The three operations the route table binds.
pub enum Op {
    Run,
    Test,
    Visualize,
}

/// The fixed URL path bound to each operation.
pub open spec fn route_path_spec(op: Op) -> Seq<char> {
    match op {
        Op::Run => seq!['/', 'r', 'p', 'c', '/', 'B', 'a', 'c', 'k', 'e', 'n', 'd', '.', 'R', 'u', 'n'],
        Op::Test => seq!['/', 'r', 'p', 'c', '/', 'B', 'a', 'c', 'k', 'e', 'n', 'd', '.', 'T', 'e', 's', 't'],
        Op::Visualize => seq!['/', 'r', 'p', 'c', '/', 'B', 'a', 'c', 'k', 'e', 'n', 'd', '.', 'V', 'i', 's', 'u', 'a', 'l', 'i', 'z', 'e'],
    }
}

/// The path bound to one operation.
pub fn route_path(op: &Op) -> (r: &'static str)
    ensures
        r@ == route_path_spec(*op),
{
    proof {
        reveal_strlit("/rpc/Backend.Run");
        reveal_strlit("/rpc/Backend.Test");
        reveal_strlit("/rpc/Backend.Visualize");
    }
    match op {
        Op::Run => {
            let r = "/rpc/Backend.Run";
            proof {
                assert(r@ =~= route_path_spec(*op));
            }
            r
        },
        Op::Test => {
            let r = "/rpc/Backend.Test";
            proof {
                assert(r@ =~= route_path_spec(*op));
            }
            r
        },
        Op::Visualize => {
            let r = "/rpc/Backend.Visualize";
            proof {
                assert(r@ =~= route_path_spec(*op));
            }
            r
        },
    }
}

/// The operation a path resolves to, if any: exactly the three fixed routes.
pub fn op_of_path(path: &str) -> (r: Option<Op>)
    ensures
        match r {
            Some(op) => path@ == route_path_spec(op),
            None => forall|op: Op| path@ != #[trigger] route_path_spec(op),
        },
{
    proof {
        reveal_strlit("/rpc/Backend.Run");
        reveal_strlit("/rpc/Backend.Test");
        reveal_strlit("/rpc/Backend.Visualize");
        assert("/rpc/Backend.Run"@ =~= route_path_spec(Op::Run));
        assert("/rpc/Backend.Test"@ =~= route_path_spec(Op::Test));
        assert("/rpc/Backend.Visualize"@ =~= route_path_spec(Op::Visualize));
    }
    if str_eq(path, "/rpc/Backend.Run") {
        Some(Op::Run)
    } else if str_eq(path, "/rpc/Backend.Test") {
        Some(Op::Test)
    } else if str_eq(path, "/rpc/Backend.Visualize") {
        Some(Op::Visualize)
    } else {
        proof {
            assert forall|op: Op| path@ != #[trigger] route_path_spec(op) by {
                match op {
                    Op::Run => assert(path@ != route_path_spec(Op::Run)),
                    Op::Test => assert(path@ != route_path_spec(Op::Test)),
                    Op::Visualize => assert(path@ != route_path_spec(Op::Visualize)),
                }
            }
        }
        None
    }
}

/// Success mode dispatches to 200 with the default response entity's JSON
/// text, for each of the three operations.
pub proof fn lemma_mock_success_replies(
    m: MockBackend,
    run_req: RunRequest,
    test_req: TestRequest,
    vis_req: VisualizeRequest,
)
    requires
        m.error_model() is None,
    ensures
        run_reply_model(m.run_model(run_req)) == (200int, run_response_json(None)),
        test_reply_model(m.test_model(test_req)) == (200int, test_response_json(None)),
        visualize_reply_model(m.visualize_model(vis_req)) == (
            200int,
            visualize_response_json((Seq::<char>::empty(), None)),
        ),
{
}

/// Failure mode dispatches to 500 with the fixed message in the failure
/// envelope, for each of the three operations, whatever the request held.
pub proof fn lemma_mock_failure_replies(
    m: MockBackend,
    msg: Seq<char>,
    run_req: RunRequest,
    test_req: TestRequest,
    vis_req: VisualizeRequest,
)
    requires
        m.error_model() == Some(msg),
    ensures
        run_reply_model(m.run_model(run_req)) == (500int, error_envelope_json(msg)),
        test_reply_model(m.test_model(test_req)) == (500int, error_envelope_json(msg)),
        visualize_reply_model(m.visualize_model(vis_req)) == (500int, error_envelope_json(msg)),
{
}

} // verus!
