use capdispatch::backend::MockBackend;
use capdispatch::codec::encode_run_response;
use capdispatch::codec::encode_test_response;
use capdispatch::codec::encode_visualize_response;
use capdispatch::codec::error_json;
use capdispatch::dispatch::handle_run;
use capdispatch::dispatch::handle_test;
use capdispatch::dispatch::handle_visualize;
use capdispatch::dispatch::op_of_path;
use capdispatch::dispatch::route_path;
use capdispatch::dispatch::Op;
use capdispatch::envelope::RunRequest;
use capdispatch::envelope::RunResponse;
use capdispatch::envelope::TestRequest;
use capdispatch::envelope::TestResponse;
use capdispatch::envelope::VisualizeRequest;
use capdispatch::envelope::VisualizeResponse;

#[test]
fn test_server() {}

#[test]
fn main_test_server() {}

#[test]
fn run_ok() {
    let svc = MockBackend::new();
    let reply = handle_run(&svc, RunRequest::new());
    assert_eq!(reply.status, 200);
    let expected = encode_run_response(&RunResponse::new());
    assert_eq!(reply.body, expected);
}

#[test]
fn run_error() {
    let svc = MockBackend::error("Hello from Backend.Run!");
    let reply = handle_run(&svc, RunRequest::new());
    assert_eq!(reply.status, 500);
    let expected = error_json("Hello from Backend.Run!");
    assert_eq!(reply.body, expected);
}

#[test]
fn test_ok() {
    let svc = MockBackend::new();
    let reply = handle_test(&svc, TestRequest::new());
    assert_eq!(reply.status, 200);
    let expected = encode_test_response(&TestResponse::new());
    assert_eq!(reply.body, expected);
}

#[test]
fn test_error() {
    let svc = MockBackend::error("Hello from Backend.Test!");
    let reply = handle_test(&svc, TestRequest::new());
    assert_eq!(reply.status, 500);
    let expected = error_json("Hello from Backend.Test!");
    assert_eq!(reply.body, expected);
}

#[test]
fn visualize_ok() {
    let svc = MockBackend::new();
    let reply = handle_visualize(&svc, VisualizeRequest::new());
    assert_eq!(reply.status, 200);
    let expected = encode_visualize_response(&VisualizeResponse::new());
    assert_eq!(reply.body, expected);
}

#[test]
fn visualize_error() {
    let svc = MockBackend::error("Hello from Backend.Visualize!");
    let reply = handle_visualize(&svc, VisualizeRequest::new());
    assert_eq!(reply.status, 500);
    let expected = error_json("Hello from Backend.Visualize!");
    assert_eq!(reply.body, expected);
}

#[test]
fn routes_bind_the_three_fixed_paths() {
    assert_eq!(route_path(&Op::Run), "/rpc/Backend.Run");
    assert_eq!(route_path(&Op::Test), "/rpc/Backend.Test");
    assert_eq!(route_path(&Op::Visualize), "/rpc/Backend.Visualize");
    assert!(matches!(op_of_path("/rpc/Backend.Run"), Some(Op::Run)));
    assert!(matches!(op_of_path("/rpc/Backend.Test"), Some(Op::Test)));
    assert!(matches!(
        op_of_path("/rpc/Backend.Visualize"),
        Some(Op::Visualize)
    ));
    assert!(op_of_path("/rpc/Backend.Other").is_none());
    assert!(op_of_path("").is_none());
    assert!(op_of_path("/rpc/Backend.Runx").is_none());
}

#[test]
fn shared_instance_requests_stay_independent() {
    // One shared implementation, two interleaved request streams: each reply
    // depends on its own request and the shared mode alone.
    let ok = MockBackend::new();
    let bad = MockBackend::error("boom");
    let first = handle_visualize(&ok, VisualizeRequest::make(1, 2));
    let second = handle_run(&ok, RunRequest::new());
    let third = handle_visualize(&ok, VisualizeRequest::make(1, 2));
    assert_eq!(first.status, 200);
    assert_eq!(second.status, 200);
    assert_eq!(first.body, third.body);
    let a = handle_run(&bad, RunRequest::new());
    let b = handle_test(&bad, TestRequest::new());
    assert_eq!(a.status, 500);
    assert_eq!(a.body, b.body);
}
