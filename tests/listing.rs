use jupyter_launcher::error::LauncherError;
use jupyter_launcher::session::Server;
use jupyter_launcher::status::{parse_output, parse_text};

fn pairs(v: &[Server]) -> Vec<(String, String)> {
    v.iter().map(|s| (s.link.clone(), s.folder.clone())).collect()
}

#[test]
fn listing_of_one_server() {
    let out = "http://localhost:8888/lab?token=abc123 :: /home/user/proj\n";
    let v = parse_output(out.as_bytes().to_vec()).unwrap();
    assert_eq!(v.len(), 1);
    assert_eq!(v[0].port, Some(8888));
    assert_eq!(v[0].token.as_deref(), Some("abc123"));
    assert_eq!(v[0].title, "proj");
    assert_eq!(v[0].origin.as_deref(), Some("http://localhost:8888"));
    assert_eq!(v[0].link, "http://localhost:8888/lab?token=abc123");
    assert_eq!(v[0].folder, "/home/user/proj");
}

#[test]
fn tagged_lines_are_read_and_untagged_noise_skipped() {
    let out = "[JupyterServerListApp] Currently running servers:\n\
               [JupyterServerListApp] http://localhost:8890/?token=t1 :: /srv/one\n\
               some other text :: /nowhere\n\
               http://localhost:8891/?token=t2 :: /srv/two\n";
    let v = parse_text(out).unwrap();
    assert_eq!(
        pairs(&v),
        vec![
            ("http://localhost:8890/?token=t1".to_string(), "/srv/one".to_string()),
            ("http://localhost:8891/?token=t2".to_string(), "/srv/two".to_string()),
        ]
    );
    assert_eq!(v[0].title, "one");
    assert_eq!(v[1].port, Some(8891));
}

#[test]
fn lines_without_prefix_give_nothing() {
    let v = parse_text("  http://localhost:1/ :: /a\nftp://x :: /b\n\n").unwrap();
    assert!(v.is_empty());
    let v = parse_text("").unwrap();
    assert!(v.is_empty());
}

#[test]
fn lines_with_other_field_counts_give_nothing() {
    let v = parse_text("http://localhost:1/\nhttp://localhost:2/ :: /a :: /b\nhttp://x::y::z\n").unwrap();
    assert!(v.is_empty());
}

#[test]
fn triple_colon_splits_once() {
    let v = parse_text("http://localhost:3/:::/f").unwrap();
    assert_eq!(pairs(&v), vec![("http://localhost:3/".to_string(), ":/f".to_string())]);
}

#[test]
fn fields_are_trimmed_of_unicode_space() {
    let v = parse_text("http://localhost:5/?token=k\u{3000} ::\u{a0}/x/y\r\n").unwrap();
    assert_eq!(pairs(&v), vec![("http://localhost:5/?token=k".to_string(), "/x/y".to_string())]);
    assert_eq!(v[0].title, "y");
}

#[test]
fn last_line_without_newline_is_read() {
    let v = parse_text("http://localhost:6/ :: /z").unwrap();
    assert_eq!(v.len(), 1);
    assert_eq!(v[0].folder, "/z");
}

#[test]
fn bad_link_on_listed_line_is_an_error() {
    let r = parse_text("http://localhost:7/ :: /ok\nhttp//broken :: /p\n");
    assert!(matches!(r, Err(LauncherError::InvalidUrl)));
    let r = parse_text("[JupyterServerListApp]  :: /p\n");
    assert!(matches!(r, Err(LauncherError::InvalidUrl)));
}

#[test]
fn first_error_is_reported() {
    let r = parse_text("http://localhost:7/ :: /\nhttp//broken :: /p\n");
    assert!(matches!(r, Err(LauncherError::InvalidFolderPath)));
}

#[test]
fn invalid_utf8_is_an_error() {
    let r = parse_output(vec![b'h', b't', 0xff, b'\n']);
    assert!(matches!(r, Err(LauncherError::InvalidUtf8)));
}

#[test]
fn non_ascii_folder_survives() {
    let out = "http://localhost:8/ :: /home/été/projet\n";
    let v = parse_output(out.as_bytes().to_vec()).unwrap();
    assert_eq!(v[0].title, "projet");
    assert_eq!(v[0].folder, "/home/été/projet");
}

#[test]
fn rebuilt_listing_reads_back() {
    let out = "[JupyterServerListApp] Currently running servers:\n\
               [JupyterServerListApp] http://localhost:8890/?token=t1 ::   /srv/one  \n\
               http://localhost:8891/lab?token=t2 :: /srv/two\n";
    let first = parse_text(out).unwrap();
    let rebuilt: String = first.iter().map(|s| format!("{} :: {}\n", s.link, s.folder)).collect();
    let second = parse_text(&rebuilt).unwrap();
    assert_eq!(pairs(&first), pairs(&second));
    assert_eq!(second[0].token.as_deref(), Some("t1"));
    assert_eq!(second[1].title, "two");
}

#[test]
fn noise_inserted_between_records_changes_nothing() {
    let plain = "http://localhost:1/?token=a :: /a\nhttp://localhost:2/?token=b :: /b";
    let noisy = "http://localhost:1/?token=a :: /a\nnot a record :: /x\nhttp://localhost:2/?token=b :: /b";
    assert_eq!(pairs(&parse_text(plain).unwrap()), pairs(&parse_text(noisy).unwrap()));
}
