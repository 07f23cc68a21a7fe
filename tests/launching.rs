use jupyter_launcher::config::{needs_csp_config, CSP_CONFIG};
use jupyter_launcher::launch::{decimal_string, gen_token, lab_url, launch_args};
use jupyter_launcher::registry::ServerManger;
use jupyter_launcher::session::Server;

#[test]
fn token_shape() {
    let t = gen_token();
    assert_eq!(t.len(), 56);
    assert!(t.starts_with("jupyter:"));
    assert!(t[8..].chars().all(|c| c.is_ascii_alphanumeric()));
    assert_ne!(gen_token(), t);
}

#[test]
fn local_link() {
    assert_eq!(lab_url(8888, "abc"), "http://localhost:8888/lab?token=abc");
    assert_eq!(lab_url(0, ""), "http://localhost:0/lab?token=");
}

#[test]
fn decimal_digits() {
    assert_eq!(decimal_string(0), "0");
    assert_eq!(decimal_string(7), "7");
    assert_eq!(decimal_string(10), "10");
    assert_eq!(decimal_string(65535), "65535");
}

#[test]
fn launch_arguments() {
    let a = launch_args(15001, "jupyter:tok", "/home/u/p");
    assert_eq!(a.len(), 13);
    assert_eq!(a[0], "lab");
    assert_eq!(a[1], "--no-browser");
    assert_eq!(a[3], "--ServerApp.port");
    assert_eq!(a[4], "15001");
    assert_eq!(a[6], "--ServerApp.token");
    assert_eq!(a[7], "jupyter:tok");
    assert_eq!(a[9], "--ServerApp.allow_origin=*");
    assert_eq!(a[10], "--ServerApp.allow_credentials=True");
    assert_eq!(a[11], "--ServerApp.root_dir");
    assert_eq!(a[12], "/home/u/p");
}

#[test]
fn launched_link_makes_a_session() {
    let token = gen_token();
    let link = lab_url(15002, &token);
    let s = Server::new(&link, "/work/nb").unwrap();
    assert_eq!(s.port, Some(15002));
    assert_eq!(s.token.as_deref(), Some(token.as_str()));
    assert_eq!(s.origin.as_deref(), Some("http://localhost:15002"));
}

#[test]
fn stop_arguments() {
    let s = Server::new("http://localhost:8888/lab", "/p").unwrap();
    assert_eq!(s.stop_args(), Some(vec!["lab".to_string(), "stop".to_string(), "8888".to_string()]));
    let s = Server::new("http://localhost/lab", "/p").unwrap();
    assert_eq!(s.stop_args(), None);
}

#[test]
fn second_start_replaces_first() {
    let mut m: ServerManger<u32> = ServerManger::new();
    m.start(1);
    m.start(2);
    assert_eq!(m.child, Some(2));
    assert_eq!(m.stop(), Some(2));
    assert_eq!(m.child, None);
}

#[test]
fn stop_when_idle_is_noop() {
    let mut m: ServerManger<u32> = ServerManger::new();
    assert_eq!(m.stop(), None);
    assert_eq!(m.child, None);
    assert_eq!(m.kill(), None);
    assert_eq!(m.child, None);
}

#[test]
fn kill_hands_back_child() {
    let mut m: ServerManger<&str> = ServerManger::new();
    m.start("child");
    assert_eq!(m.kill(), Some("child"));
    assert_eq!(m.child, None);
}

#[test]
fn register_replaces_same_origin() {
    let mut m: ServerManger<u32> = ServerManger::new();
    m.register(Server::new("http://localhost:1/lab?token=a", "/a").unwrap());
    m.register(Server::new("http://localhost:2/lab?token=b", "/b").unwrap());
    m.register(Server::new("http://localhost:1/tree?token=c", "/c").unwrap());
    assert_eq!(m.servers.len(), 2);
    assert_eq!(m.servers[0].folder, "/c");
    assert_eq!(m.servers[0].token.as_deref(), Some("c"));
    assert_eq!(m.servers[1].folder, "/b");
}

#[test]
fn csp_config_needed_once() {
    assert!(needs_csp_config(""));
    assert!(needs_csp_config("c.ServerApp.port = 1\n"));
    let with = format!("# head\n{}# tail\n", CSP_CONFIG);
    assert!(!needs_csp_config(&with));
    assert!(CSP_CONFIG.contains("frame-ancestors * 'self'"));
}

#[test]
fn free_port_is_usable_number() {
    if let Ok(p) = jupyter_launcher::launch::get_free_port() {
        assert_ne!(p, 0);
    }
}

#[test]
fn token_is_tag_then_drawn_characters() {
    let t = jupyter_launcher::launch::token_from(&b"aZ09".to_vec());
    assert_eq!(t, "jupyter:aZ09");
    assert_eq!(jupyter_launcher::launch::token_from(&vec![]), "jupyter:");
}

#[test]
fn register_all_in_order() {
    let mut m: ServerManger<u32> = ServerManger::new();
    let v = vec![
        Server::new("http://localhost:1/?token=a", "/a").unwrap(),
        Server::new("http://localhost:2/?token=b", "/b").unwrap(),
        Server::new("http://localhost:1/?token=c", "/c").unwrap(),
    ];
    m.register_all(&v);
    assert_eq!(m.servers.len(), 2);
    assert_eq!(m.servers[0].folder, "/c");
    assert_eq!(m.servers[1].folder, "/b");
    assert_eq!(v.len(), 3);
}

#[test]
fn running_servers_join_both_streams() {
    let mut m: ServerManger<u32> = ServerManger::new();
    let out = b"http://localhost:8888/lab?token=abc123 :: /home/user/proj\n".to_vec();
    let err = b"[JupyterServerListApp] http://localhost:8889/?token=x :: /srv/two\n".to_vec();
    let v = m.record_running_servers(out, err).unwrap();
    assert_eq!(v.len(), 2);
    assert_eq!(v[0].title, "proj");
    assert_eq!(v[1].title, "two");
    assert_eq!(m.servers.len(), 2);
    assert_eq!(m.servers[1].origin.as_deref(), Some("http://localhost:8889"));
}

#[test]
fn unreadable_stream_records_nothing() {
    let mut m: ServerManger<u32> = ServerManger::new();
    let out = b"http://localhost:8888/lab?token=abc123 :: /home/user/proj\n".to_vec();
    let r = m.record_running_servers(out, vec![0xff]);
    assert!(matches!(r, Err(jupyter_launcher::error::LauncherError::InvalidUtf8)));
    assert!(m.servers.is_empty());
}

#[test]
fn copy_keeps_every_field() {
    let s = Server::new("http://localhost:8888/lab?token=abc123", "/home/user/proj").unwrap();
    let c = s.copy();
    assert_eq!(c.link, s.link);
    assert_eq!(c.folder, s.folder);
    assert_eq!(c.title, s.title);
    assert_eq!(c.port, s.port);
    assert_eq!(c.origin, s.origin);
    assert_eq!(c.token, s.token);
}
