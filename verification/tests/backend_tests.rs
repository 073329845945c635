use capdispatch::backend::Backend;
use capdispatch::backend::MockBackend;
use capdispatch::envelope::RunRequest;
use capdispatch::envelope::TestRequest;
use capdispatch::envelope::VisualizeRequest;

#[test]
fn types_run_ok() {
    assert!(MockBackend::new().run(RunRequest::new()).is_ok());
}

#[test]
fn types_run_error() {
    assert_eq!(
        MockBackend::error("hello from MockBackend")
            .run(RunRequest::new())
            .err()
            .unwrap(),
        "hello from MockBackend"
    );
}

#[test]
fn types_test_ok() {
    assert!(MockBackend::new().test(TestRequest::new()).is_ok());
}

#[test]
fn types_test_error() {
    assert_eq!(
        MockBackend::error("hello from MockBackend")
            .test(TestRequest::new())
            .err()
            .unwrap(),
        "hello from MockBackend"
    );
}

#[test]
fn types_visualize_ok() {
    assert!(MockBackend::new().visualize(VisualizeRequest::new()).is_ok());
}

#[test]
fn types_visualize_error() {
    assert_eq!(
        MockBackend::error("hello from MockBackend")
            .visualize(VisualizeRequest::new())
            .err()
            .unwrap(),
        "hello from MockBackend"
    );
}

#[test]
fn mock_success_responses_are_default() {
    let svc = MockBackend::new();
    let run = svc.run(RunRequest::new()).unwrap();
    assert!(!run.is_error());
    assert!(run.get_error().is_none());
    let test = svc.test(TestRequest::new()).unwrap();
    assert!(!test.is_error());
    let vis = svc.visualize(VisualizeRequest::new()).unwrap();
    assert!(!vis.is_error());
    assert_eq!(vis.resource(), "");
}

#[test]
fn response_error_accessors() {
    let mut resp = capdispatch::envelope::RunResponse::error(String::from("bad"));
    assert!(resp.is_error());
    assert_eq!(resp.get_error().unwrap(), "bad");
    assert_eq!(resp.take_error().unwrap(), "bad");
    assert!(!resp.is_error());
    assert!(resp.take_error().is_none());
}
