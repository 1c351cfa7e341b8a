use edge_pipeline::config::{Config, Global};
use edge_pipeline::envelope::{PipelineError, Response};
use edge_pipeline::interceptor::intercept;
use edge_pipeline::pipeline::{Action, HandlerOutcome, Pipeline, DEFAULT_TIMEOUT_MILLIS};
use edge_pipeline::pool::PoolState;
use edge_pipeline::router::{Method, PatSeg, Router};

const NOT_FOUND_BODY: &str = "{\"code\": 0, \"msg\": \"not found\"}";
const TIMEOUT_BODY: &str = "{\"msg\": \"request took too long\"}";
const INTERNAL_BODY: &str = "{\"msg\": \"unhandled internal error\"}";

fn pat(s: &str) -> Vec<PatSeg> {
    edge_pipeline::router::parse_pattern(&s.as_bytes().to_vec())
}

fn path(s: &str) -> Vec<Vec<u8>> {
    edge_pipeline::router::split_path(&s.as_bytes().to_vec())
}

fn sample_pipeline() -> Pipeline {
    let mut r = Router::new();
    r.register(Method::Get, pat("/user/list"), 1).unwrap();
    r.register(Method::Post, pat("/product/update/:id"), 2).unwrap();
    Pipeline::compose(r, DEFAULT_TIMEOUT_MILLIS, 7)
}

#[test]
fn unregistered_path_gets_the_404_envelope() {
    let p = sample_pipeline();
    match p.dispatch(Method::Get, &path("/missing"), 1000) {
        Action::Respond(resp) => {
            assert_eq!(resp.status, 404);
            assert_eq!(resp.body, NOT_FOUND_BODY);
        }
        _ => panic!("expected a direct response"),
    }
}

#[test]
fn wrong_method_gets_the_same_404_envelope() {
    let p = sample_pipeline();
    match p.dispatch(Method::Post, &path("/user/list"), 1000) {
        Action::Respond(resp) => {
            assert_eq!(resp.status, 404);
            assert_eq!(resp.body, NOT_FOUND_BODY);
        }
        _ => panic!("expected a direct response"),
    }
}

#[test]
fn a_resolved_request_carries_context_and_parameters() {
    let p = sample_pipeline();
    match p.dispatch(Method::Post, &path("/product/update/42"), 1000) {
        Action::Invoke { handler, params, context } => {
            assert_eq!(handler, 2);
            assert_eq!(params.len(), 1);
            assert_eq!(params[0].0, b"id".to_vec());
            assert_eq!(params[0].1, b"42".to_vec());
            assert_eq!(context.deadline_millis, 1000 + DEFAULT_TIMEOUT_MILLIS);
            assert_eq!(context.pool_handle, 7);
        }
        _ => panic!("expected an invocation"),
    }
}

#[test]
fn a_timeout_yields_408_with_its_envelope() {
    let r = Pipeline::complete(HandlerOutcome::Failed(PipelineError::Timeout));
    assert_eq!(r.status, 408);
    assert_eq!(r.body, TIMEOUT_BODY);
}

#[test]
fn a_handler_error_yields_500_with_its_envelope() {
    let r = Pipeline::complete(HandlerOutcome::Failed(PipelineError::Handler));
    assert_eq!(r.status, 500);
    assert_eq!(r.body, INTERNAL_BODY);
}

#[test]
fn a_body_read_error_yields_500_with_its_envelope() {
    let r = Pipeline::complete(HandlerOutcome::Failed(PipelineError::BodyRead));
    assert_eq!(r.status, 500);
    assert_eq!(r.body, INTERNAL_BODY);
}

#[test]
fn a_handler_404_is_rewritten_to_the_envelope() {
    let r = Pipeline::complete(HandlerOutcome::Completed(Response {
        status: 404,
        body: "gone".to_string(),
    }));
    assert_eq!(r.status, 404);
    assert_eq!(r.body, NOT_FOUND_BODY);
}

#[test]
fn a_handler_405_is_folded_into_404() {
    let r = Pipeline::complete(HandlerOutcome::Completed(Response {
        status: 405,
        body: "method".to_string(),
    }));
    assert_eq!(r.status, 404);
    assert_eq!(r.body, NOT_FOUND_BODY);
}

#[test]
fn any_other_response_passes_through_unchanged() {
    let r = Pipeline::complete(HandlerOutcome::Completed(Response {
        status: 200,
        body: "Hello,World".to_string(),
    }));
    assert_eq!(r.status, 200);
    assert_eq!(r.body, "Hello,World");
}

#[test]
fn interception_is_lossless() {
    let body = vec![0u8, 159, 146, 150, 255, 47, 1];
    let got = intercept(body.clone());
    assert_eq!(got.bytes, body);
    assert!(got.text.is_none());
}

#[test]
fn intercepted_text_is_surfaced_when_valid() {
    let body = b"request body".to_vec();
    let got = intercept(body.clone());
    assert_eq!(got.bytes, body);
    assert_eq!(got.text.as_deref(), Some("request body"));
}

#[test]
fn the_pool_never_exceeds_its_bound() {
    let mut pool = PoolState::new(2);
    assert!(pool.try_checkout());
    assert!(pool.try_checkout());
    assert!(!pool.try_checkout());
    assert_eq!(pool.checked_out, 2);
    pool.give_back();
    assert!(pool.try_checkout());
    assert!(!pool.try_checkout());
    assert!(pool.checked_out <= pool.max_size);
}

#[test]
fn many_requests_are_independently_correlated() {
    let p = sample_pipeline();
    for i in 0..100u32 {
        let raw = format!("/product/update/{}", i);
        match p.dispatch(Method::Post, &path(&raw), u64::from(i)) {
            Action::Invoke { handler, params, context } => {
                assert_eq!(handler, 2);
                assert_eq!(params[0].1, format!("{}", i).into_bytes());
                assert_eq!(context.deadline_millis, u64::from(i) + DEFAULT_TIMEOUT_MILLIS);
            }
            _ => panic!("request {} did not resolve", i),
        }
    }
}

#[test]
fn configuration_is_checked_before_serving() {
    let good = Config {
        global: Global {
            address: "0.0.0.0:3000".to_string(),
            db_url: "postgres://localhost/app".to_string(),
            pool_size: 16,
        },
    };
    assert!(good.check());
    let empty_pool = Config {
        global: Global {
            address: "0.0.0.0:3000".to_string(),
            db_url: "postgres://localhost/app".to_string(),
            pool_size: 0,
        },
    };
    assert!(!empty_pool.check());
    let no_address = Config {
        global: Global {
            address: "".to_string(),
            db_url: "postgres://localhost/app".to_string(),
            pool_size: 16,
        },
    };
    assert!(!no_address.check());
}
