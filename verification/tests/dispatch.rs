use devprox::error::{ProxyError, BAD_GATEWAY, FORBIDDEN, INTERNAL_SERVER_ERROR};
use devprox::forward::ProxyResponseFuture;
use devprox::request::InboundRequest;
use devprox::response::{Response, NOT_FOUND, OK};
use devprox::route::ProxyRoute;
use devprox::service::{DevProxService, Dispatch};
use devprox::static_file::{FileRead, StaticFileFuture};
use hyper::{HeaderMap, Method};

fn get(path: &str) -> InboundRequest<Vec<u8>> {
    InboundRequest {
        method: Method::GET,
        path: path.to_string(),
        headers: HeaderMap::new(),
        body: Vec::new(),
    }
}

fn service(root: &str, routes: &[(&str, &str)]) -> DevProxService {
    let mut service = DevProxService::new(root.to_string());
    for (prefix, target) in routes {
        service.proxy(ProxyRoute::new(prefix.to_string(), target.to_string()));
    }
    service
}

fn forwarded_uri(dispatch: Dispatch<Vec<u8>>) -> String {
    match dispatch {
        Dispatch::Forward(pending) => pending.into_request().uri,
        other => panic!("not forwarded: {:?}", kind(&other)),
    }
}

fn static_path(dispatch: Dispatch<Vec<u8>>) -> String {
    match dispatch {
        Dispatch::Static(pending) => pending.path().to_string(),
        other => panic!("not served from a file: {:?}", kind(&other)),
    }
}

fn kind(dispatch: &Dispatch<Vec<u8>>) -> &'static str {
    match dispatch {
        Dispatch::Forward(_) => "forward",
        Dispatch::Static(_) => "static",
        Dispatch::Failed(_) => "failed",
    }
}

#[test]
fn api_request_is_forwarded() {
    let service = service("/srv/www", &[("/api", "http://localhost:3000/api")]);
    let dispatch = service.call(InboundRequest {
        method: Method::GET,
        path: "/api/users".to_string(),
        headers: HeaderMap::new(),
        body: b"payload".to_vec(),
    });
    match dispatch {
        Dispatch::Forward(pending) => {
            let outbound = pending.into_request();
            assert_eq!(outbound.method, Method::GET);
            assert_eq!(outbound.uri, "http://localhost:3000/api/users");
            assert_eq!(outbound.body, b"payload".to_vec());
        }
        other => panic!("not forwarded: {}", kind(&other)),
    }
}

#[test]
fn existing_file_is_served() {
    let service = service("/srv/www", &[("/api", "http://localhost:3000/api")]);
    let dispatch = service.call(get("/index.html"));
    let pending = match dispatch {
        Dispatch::Static(pending) => pending,
        other => panic!("not served from a file: {}", kind(&other)),
    };
    assert_eq!(pending.path(), "/srv/www/index.html");
    let response = Response::settle(pending.poll(FileRead::Contents(b"<html></html>".to_vec())));
    assert_eq!(response.status, 200);
    assert_eq!(response.body, b"<html></html>".to_vec());
}

#[test]
fn missing_file_is_not_found() {
    let service = service("/srv/www", &[("/api", "http://localhost:3000/api")]);
    let dispatch = service.call(get("/missing.txt"));
    let pending = match dispatch {
        Dispatch::Static(pending) => pending,
        other => panic!("not served from a file: {}", kind(&other)),
    };
    assert_eq!(pending.path(), "/srv/www/missing.txt");
    let response = Response::settle(pending.poll(FileRead::NotFound));
    assert_eq!(response.status, 404);
    assert!(response.body.is_empty());
}

#[test]
fn traversal_is_forbidden() {
    let service = service("/srv/www", &[("/api", "http://localhost:3000/api")]);
    let dispatch = service.call(get("/../../etc/passwd"));
    let error = match dispatch {
        Dispatch::Failed(error) => error,
        other => panic!("not refused: {}", kind(&other)),
    };
    assert!(matches!(error, ProxyError::InvalidPath));
    let response = Response::from_error(&error);
    assert_eq!(response.status, 403);
    assert!(response.body.is_empty());
}

#[test]
fn unreachable_backend_is_bad_gateway() {
    let service = service("/srv/www", &[("/api", "http://localhost:9999/api")]);
    assert_eq!(forwarded_uri(service.call(get("/api/x"))), "http://localhost:9999/api/x");
    let outcome: Result<(), String> = Err("connection refused".to_string());
    let error = ProxyResponseFuture::<Vec<u8>>::poll(outcome).unwrap_err();
    assert!(matches!(&error, ProxyError::Http(cause) if cause == "connection refused"));
    let response = Response::from_error(&error);
    assert_eq!(response.status, 502);
    assert!(response.body.is_empty());
}

#[test]
fn backend_response_passes_untouched() {
    let outcome: Result<&str, String> = Ok("whatever the backend said");
    assert_eq!(
        ProxyResponseFuture::<Vec<u8>>::poll(outcome).unwrap(),
        "whatever the backend said"
    );
}

#[test]
fn first_matching_route_wins() {
    let both = [("/api", "http://first:1/a"), ("/api/v2", "http://second:2/b")];
    let service_a = service("/srv", &both);
    assert_eq!(forwarded_uri(service_a.call(get("/api/v2/users"))), "http://first:1/a/v2/users");

    let swapped = [("/api/v2", "http://second:2/b"), ("/api", "http://first:1/a")];
    let service_b = service("/srv", &swapped);
    assert_eq!(forwarded_uri(service_b.call(get("/api/v2/users"))), "http://second:2/b/users");
    assert_eq!(forwarded_uri(service_b.call(get("/api/v1/users"))), "http://first:1/a/v1/users");
}

#[test]
fn lookup_finds_the_first_route_that_applies() {
    let service = service(
        "/srv",
        &[("/a", "http://one/"), ("/b", "http://two/"), ("/a/b", "http://three/")],
    );
    assert_eq!(service.lookup("/a/b/c").unwrap().proxy(), "http://one/");
    assert_eq!(service.lookup("/b").unwrap().proxy(), "http://two/");
    assert_eq!(service.lookup("/bb").unwrap().proxy(), "http://two/");
    assert!(service.lookup("/c").is_none());
    assert!(service.lookup("").is_none());
}

#[test]
fn service_without_routes_serves_files_only() {
    let service = DevProxService::new("/srv/www".to_string());
    assert_eq!(service.root(), "/srv/www");
    assert!(service.lookup("/api/users").is_none());
    assert_eq!(static_path(service.call(get("/api/users"))), "/srv/www/api/users");
}

#[test]
fn matching_route_is_not_sanitised() {
    let service = service("/srv/www", &[("/api", "http://localhost:3000/api")]);
    assert_eq!(
        forwarded_uri(service.call(get("/api/../x"))),
        "http://localhost:3000/api/../x"
    );
}

#[test]
fn invalid_rewritten_uri_is_bad_gateway() {
    let service = service("/srv/www", &[("/api", "http://localhost:3000/api")]);
    let error = match service.call(get("/api/a b")) {
        Dispatch::Failed(error) => error,
        other => panic!("not refused: {}", kind(&other)),
    };
    assert!(matches!(error, ProxyError::InvalidRoute));
    assert_eq!(Response::from_error(&error).status, 502);
}

#[test]
fn static_path_is_sanitised_before_it_is_joined() {
    let service = DevProxService::new("/srv/www".to_string());
    assert_eq!(static_path(service.call(get("/a/../b/./c.txt"))), "/srv/www/b/c.txt");
    assert_eq!(static_path(service.call(get("//etc/passwd"))), "/srv/www/etc/passwd");
    assert_eq!(static_path(service.call(get("/"))), "/srv/www/");
    assert!(matches!(service.call(get("/a/../../b")), Dispatch::Failed(ProxyError::InvalidPath)));
}

#[test]
fn read_failure_is_internal_error() {
    let pending = StaticFileFuture::new("/srv/www/secret".to_string());
    let result = pending.poll(FileRead::Failed("permission denied".to_string()));
    let error = result.unwrap_err();
    assert!(matches!(&error, ProxyError::Proxy(cause) if cause == "permission denied"));
    assert_eq!(error.message(), "permission denied");
    let response = Response::settle(Err(error));
    assert_eq!(response.status, 500);
    assert!(response.body.is_empty());
}

#[test]
fn file_bytes_are_served_exactly() {
    let bytes: Vec<u8> = vec![0, 159, 146, 150, 255, 10, 13];
    let pending = StaticFileFuture::new("/srv/www/blob".to_string());
    let response = pending.poll(FileRead::Contents(bytes.clone())).unwrap();
    assert_eq!(response.status, OK);
    assert_eq!(response.body, bytes);
    let empty = pending.poll(FileRead::Contents(Vec::new())).unwrap();
    assert_eq!(empty.status, 200);
    assert!(empty.body.is_empty());
}

#[test]
fn plain_responses() {
    let ok = Response::ok(b"abc".to_vec());
    assert_eq!((ok.status, ok.body), (200, b"abc".to_vec()));
    let missing = Response::not_found();
    assert_eq!(missing.status, NOT_FOUND);
    assert_eq!(missing.status, 404);
    assert!(missing.body.is_empty());
    let kept = Response::settle(Ok(Response { status: 204, body: vec![1] }));
    assert_eq!((kept.status, kept.body), (204, vec![1]));
}

#[test]
fn each_error_has_its_status() {
    assert_eq!(ProxyError::InvalidRoute.status(), 502);
    assert_eq!(ProxyError::Http("reset".to_string()).status(), 502);
    assert_eq!(ProxyError::InvalidPath.status(), 403);
    assert_eq!(ProxyError::Proxy("is a directory".to_string()).status(), 500);
    assert_eq!(BAD_GATEWAY, 502);
    assert_eq!(FORBIDDEN, 403);
    assert_eq!(INTERNAL_SERVER_ERROR, 500);
}

#[test]
fn each_error_has_its_message() {
    assert_eq!(ProxyError::InvalidRoute.message(), "rewritten target is not a valid URI");
    assert_eq!(ProxyError::Http("reset by peer".to_string()).message(), "reset by peer");
    assert_eq!(ProxyError::InvalidPath.message(), "path leaves the document root");
    assert_eq!(ProxyError::Proxy("is a directory".to_string()).message(), "is a directory");
}

#[test]
fn error_response_never_carries_the_cause() {
    let errors = [
        ProxyError::InvalidRoute,
        ProxyError::Http("secret backend address".to_string()),
        ProxyError::InvalidPath,
        ProxyError::Proxy("/etc/shadow: permission denied".to_string()),
    ];
    for error in errors {
        let response = Response::from_error(&error);
        assert!(response.status >= 400);
        assert!(response.body.is_empty());
    }
}
