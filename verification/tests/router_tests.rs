use edge_pipeline::router::{Method, PatSeg, Resolution, Router};

fn pat(s: &str) -> Vec<PatSeg> {
    edge_pipeline::router::parse_pattern(&s.as_bytes().to_vec())
}

fn path(s: &str) -> Vec<Vec<u8>> {
    edge_pipeline::router::split_path(&s.as_bytes().to_vec())
}

#[test]
fn resolve_returns_registered_handler() {
    let mut r = Router::new();
    r.register(Method::Get, pat("/user/list"), 1).unwrap();
    r.register(Method::Post, pat("/user/create"), 2).unwrap();
    match r.resolve(Method::Get, &path("/user/list")) {
        Resolution::Found { handler, params } => {
            assert_eq!(handler, 1);
            assert!(params.is_empty());
        }
        _ => panic!("expected a match"),
    }
    match r.resolve(Method::Post, &path("/user/create")) {
        Resolution::Found { handler, .. } => assert_eq!(handler, 2),
        _ => panic!("expected a match"),
    }
}

#[test]
fn path_parameters_are_extracted() {
    let mut r = Router::new();
    r.register(Method::Post, pat("/product/update/:id"), 9).unwrap();
    match r.resolve(Method::Post, &path("/product/update/42")) {
        Resolution::Found { handler, params } => {
            assert_eq!(handler, 9);
            assert_eq!(params.len(), 1);
            assert_eq!(params[0].0, b"id".to_vec());
            assert_eq!(params[0].1, b"42".to_vec());
        }
        _ => panic!("expected a match"),
    }
}

#[test]
fn duplicate_registration_fails() {
    let mut r = Router::new();
    assert!(r.register(Method::Get, pat("/money"), 3).is_ok());
    assert!(r.register(Method::Get, pat("/money"), 4).is_err());
    // The same path under another method is a different route.
    assert!(r.register(Method::Post, pat("/money"), 5).is_ok());
}

#[test]
fn duplicate_detection_ignores_parameter_names() {
    let mut r = Router::new();
    assert!(r.register(Method::Get, pat("/order/:id"), 1).is_ok());
    assert!(r.register(Method::Get, pat("/order/:key"), 2).is_err());
}

#[test]
fn unknown_path_is_not_found() {
    let mut r = Router::new();
    r.register(Method::Get, pat("/user/list"), 1).unwrap();
    assert!(matches!(
        r.resolve(Method::Get, &path("/nope")),
        Resolution::NotFound
    ));
}

#[test]
fn wrong_method_is_method_not_allowed() {
    let mut r = Router::new();
    r.register(Method::Post, pat("/user/login"), 1).unwrap();
    assert!(matches!(
        r.resolve(Method::Get, &path("/user/login")),
        Resolution::MethodNotAllowed
    ));
}

#[test]
fn literal_takes_precedence_over_parameter() {
    let mut r = Router::new();
    r.register(Method::Get, pat("/product/:id"), 1).unwrap();
    r.register(Method::Get, pat("/product/home"), 2).unwrap();
    match r.resolve(Method::Get, &path("/product/home")) {
        Resolution::Found { handler, params } => {
            assert_eq!(handler, 2);
            assert!(params.is_empty());
        }
        _ => panic!("expected a match"),
    }
    match r.resolve(Method::Get, &path("/product/77")) {
        Resolution::Found { handler, params } => {
            assert_eq!(handler, 1);
            assert_eq!(params[0].1, b"77".to_vec());
        }
        _ => panic!("expected a match"),
    }
}

#[test]
fn nested_routes_match_like_flat_ones() {
    let mut child = Router::new();
    child.register(Method::Get, pat("/list"), 11).unwrap();
    child.register(Method::Post, pat("/create"), 12).unwrap();
    let mut root = Router::new();
    root.nest(&pat("/order"), child).unwrap();
    match root.resolve(Method::Get, &path("/order/list")) {
        Resolution::Found { handler, .. } => assert_eq!(handler, 11),
        _ => panic!("expected a match"),
    }
    match root.resolve(Method::Post, &path("/order/create")) {
        Resolution::Found { handler, .. } => assert_eq!(handler, 12),
        _ => panic!("expected a match"),
    }
}

#[test]
fn nesting_a_conflicting_child_fails_and_changes_nothing() {
    let mut child = Router::new();
    child.register(Method::Get, pat("/list"), 11).unwrap();
    let mut root = Router::new();
    root.register(Method::Get, pat("/order/list"), 1).unwrap();
    assert!(root.nest(&pat("/order"), child).is_err());
    match root.resolve(Method::Get, &path("/order/list")) {
        Resolution::Found { handler, .. } => assert_eq!(handler, 1),
        _ => panic!("expected a match"),
    }
}

#[test]
fn split_path_edges() {
    let empty: Vec<u8> = Vec::new();
    let segs = edge_pipeline::router::split_path(&empty);
    assert_eq!(segs, vec![b"".to_vec()]);
    let segs = edge_pipeline::router::split_path(&b"/".to_vec());
    assert_eq!(segs, vec![b"".to_vec()]);
    let segs = edge_pipeline::router::split_path(&b"/a/b".to_vec());
    assert_eq!(segs, vec![b"a".to_vec(), b"b".to_vec()]);
    let segs = edge_pipeline::router::split_path(&b"/a/".to_vec());
    assert_eq!(segs, vec![b"a".to_vec(), b"".to_vec()]);
    let segs = edge_pipeline::router::split_path(&b"a/b".to_vec());
    assert_eq!(segs, vec![b"a".to_vec(), b"b".to_vec()]);
}

#[test]
fn the_full_route_table_registers_without_conflict() {
    let table: [(&str, Method); 21] = [
        ("/pay/pay_params", Method::Post),
        ("/pay/transfer_info", Method::Post),
        ("/upload/image", Method::Post),
        ("/user/list", Method::Get),
        ("/user/create", Method::Post),
        ("/user/login", Method::Post),
        ("/user/info", Method::Get),
        ("/update_password", Method::Get),
        ("/money", Method::Get),
        ("/order/create", Method::Post),
        ("/order/all", Method::Get),
        ("/order/list", Method::Get),
        ("/product/list", Method::Get),
        ("/product/home", Method::Get),
        ("/product/create", Method::Post),
        ("/product/update/:id", Method::Post),
        ("/product/delete", Method::Post),
        ("/product/detail", Method::Get),
        ("/product/earnings/create", Method::Post),
        ("/product/earnings/delete", Method::Post),
        ("/product/earnings/find", Method::Get),
    ];
    let mut r = Router::new();
    for (i, (p, m)) in table.iter().enumerate() {
        r.register(*m, pat(p), i as u64).unwrap();
    }
    for (i, (p, m)) in table.iter().enumerate() {
        let concrete = p.replace(":id", "42");
        match r.resolve(*m, &path(&concrete)) {
            Resolution::Found { handler, .. } => assert_eq!(handler, i as u64),
            _ => panic!("route {} did not resolve", p),
        }
    }
}
