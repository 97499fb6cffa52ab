use http_core::response::Status;
use http_core::router::{error_status, HandlerError, Router};

#[test]
fn exact_paths_are_routed() {
    let mut r: Router<u32> = Router::new();
    r.get("/", 1);
    r.post("/hello", 2);
    assert_eq!(r.lookup("/"), Some(&1));
    assert_eq!(r.lookup("/hello"), Some(&2));
    assert_eq!(r.lookup("/hello/"), None);
    assert_eq!(r.lookup("/missing"), None);
}

#[test]
fn adding_a_path_again_replaces_its_handler() {
    let mut r: Router<u32> = Router::new();
    r.add_route("/a", 1);
    r.add_route("/a", 5);
    assert_eq!(r.lookup("/a"), Some(&5));
    assert_ne!(HandlerError::NotFound, HandlerError::InternalError);
}

#[test]
fn handler_errors_map_to_statuses() {
    assert_eq!(error_status(&HandlerError::NotFound), Status::NotFound);
    assert_eq!(
        error_status(&HandlerError::InternalError),
        Status::InternalServerError
    );
}
