use capdispatch::backend::MockBackend;
use capdispatch::dispatch::handle_run;
use capdispatch::dispatch::handle_test;
use capdispatch::dispatch::handle_visualize;
use capdispatch::envelope::RunRequest;
use capdispatch::envelope::TestRequest;
use capdispatch::envelope::VisualizeRequest;

// Posting `{}` to the test route against a success-mode mock yields 200 and
// the default body.
#[test]
fn scenario_test_empty_body_success() {
    let svc = MockBackend::new();
    let reply = handle_test(&svc, TestRequest::new());
    assert_eq!(reply.status, 200);
    assert_eq!(reply.body, "{\"error\":null}");
}

// Posting an all-empty run request against a failure-mode mock configured
// with "boom" yields 500 and exactly the failure envelope.
#[test]
fn scenario_run_failure_boom() {
    let svc = MockBackend::error("boom");
    let req = RunRequest::make(
        String::new(),
        String::new(),
        String::new(),
        vec![],
        vec![],
    );
    let reply = handle_run(&svc, req);
    assert_eq!(reply.status, 500);
    assert_eq!(reply.body, "{\"error\":\"boom\"}");
}

// Posting zeroed visualize fields against a success-mode mock yields 200
// with an empty resource and no in-band error.
#[test]
fn scenario_visualize_zeroes_success() {
    let svc = MockBackend::new();
    let reply = handle_visualize(&svc, VisualizeRequest::make(0, 0));
    assert_eq!(reply.status, 200);
    assert_eq!(reply.body, "{\"resource\":\"\",\"error\":null}");
}
