use jupyter_launcher::error::LauncherError;
use jupyter_launcher::session::{token_of, Server};

#[test]
fn session_from_local_link() {
    let s = Server::new("http://localhost:8888/lab?token=abc123", "/home/user/proj").unwrap();
    assert_eq!(s.link, "http://localhost:8888/lab?token=abc123");
    assert_eq!(s.folder, "/home/user/proj");
    assert_eq!(s.port, Some(8888));
    assert_eq!(s.token.as_deref(), Some("abc123"));
    assert_eq!(s.title, "proj");
    assert_eq!(s.origin.as_deref(), Some("http://localhost:8888"));
}

#[test]
fn title_is_final_component() {
    let s = Server::new("http://localhost:8888/lab", "/a/b/my-project").unwrap();
    assert_eq!(s.title, "my-project");
}

#[test]
fn title_skips_trailing_slash_and_dot() {
    let s = Server::new("http://localhost:8888/lab", "/a/b/").unwrap();
    assert_eq!(s.title, "b");
    let s = Server::new("http://localhost:8888/lab", "/a/b/.").unwrap();
    assert_eq!(s.title, "b");
    let s = Server::new("http://localhost:8888/lab", "relative").unwrap();
    assert_eq!(s.title, "relative");
}

#[test]
fn folder_without_final_component_is_refused() {
    let r = Server::new("http://localhost:8888/lab", "/");
    assert!(matches!(r, Err(LauncherError::InvalidFolderPath)));
    let r = Server::new("http://localhost:8888/lab", "/a/..");
    assert!(matches!(r, Err(LauncherError::InvalidFolderPath)));
    let r = Server::new("http://localhost:8888/lab", "");
    assert!(matches!(r, Err(LauncherError::InvalidFolderPath)));
}

#[test]
fn folder_is_checked_before_link() {
    let r = Server::new("not a url", "/");
    assert!(matches!(r, Err(LauncherError::InvalidFolderPath)));
}

#[test]
fn malformed_link_is_refused() {
    let r = Server::new("not a url", "/home/user/proj");
    assert!(matches!(r, Err(LauncherError::InvalidUrl)));
    let r = Server::new("httpfoo", "/home/user/proj");
    assert!(matches!(r, Err(LauncherError::InvalidUrl)));
}

#[test]
fn token_absent_without_parameter() {
    let s = Server::new("http://localhost:9000/lab?x=1", "/p").unwrap();
    assert_eq!(s.token, None);
    let s = Server::new("http://localhost:9000/lab", "/p").unwrap();
    assert_eq!(s.token, None);
}

#[test]
fn token_is_decoded_and_last_wins() {
    let s = Server::new("http://localhost:9000/lab?token=a%20b", "/p").unwrap();
    assert_eq!(s.token.as_deref(), Some("a b"));
    let s = Server::new("http://localhost:9000/lab?token=first&x=2&token=second", "/p").unwrap();
    assert_eq!(s.token.as_deref(), Some("second"));
    let s = Server::new("http://localhost:9000/lab?x=1&token=jupyter:Ab9", "/p").unwrap();
    assert_eq!(s.token.as_deref(), Some("jupyter:Ab9"));
}

#[test]
fn token_of_pairs() {
    let q = vec![
        ("a".to_string(), "1".to_string()),
        ("token".to_string(), "t1".to_string()),
        ("tokens".to_string(), "t2".to_string()),
    ];
    assert_eq!(token_of(&q).as_deref(), Some("t1"));
    assert_eq!(token_of(&vec![]), None);
}

#[test]
fn origin_ignores_path_and_query() {
    let a = Server::new("http://localhost:8888/lab?token=abc", "/p").unwrap();
    let b = Server::new("http://localhost:8888/tree/x?other=1", "/q").unwrap();
    assert_eq!(a.origin, b.origin);
    assert_eq!(a.origin.as_deref(), Some("http://localhost:8888"));
}

#[test]
fn default_port_is_left_out() {
    let s = Server::new("https://example.com:443/lab?token=z", "/p").unwrap();
    assert_eq!(s.port, None);
    assert_eq!(s.origin.as_deref(), Some("https://example.com"));
    let s = Server::new("http://127.0.0.1:80/", "/p").unwrap();
    assert_eq!(s.port, None);
    assert_eq!(s.origin.as_deref(), Some("http://127.0.0.1"));
}

#[test]
fn non_default_port_is_kept() {
    let s = Server::new("https://example.com:8443/", "/p").unwrap();
    assert_eq!(s.port, Some(8443));
    assert_eq!(s.origin.as_deref(), Some("https://example.com:8443"));
}
