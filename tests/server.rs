use find_work::blob::Blob;
use find_work::config::Config;
use find_work::server::{content_type, route, Route, ServerData};
use find_work::WorkErr;

fn config() -> Config {
    Config {
        repository: "nrc/find-work".to_owned(),
        username: "nrc".to_owned(),
        token: "SECRET-REDACTED".to_owned(),
        addr: "127.0.0.1:80".to_owned(),
        static_path: String::new(),
        index_path: String::new(),
        dev_mode: false,
    }
}

fn blob_with(ids: &[&str]) -> Blob {
    Blob {
        tabs: ids
            .iter()
            .map(|id| find_work::blob::Tab {
                id: id.to_string(),
                title: id.to_string(),
                description: String::new(),
                categories: vec![],
                tags: vec![],
            })
            .collect(),
    }
}

#[test]
fn new_server_data_has_empty_cache() {
    let d = ServerData::new(config(), blob_with(&["a"]));
    assert!(d.file_cache.is_empty());
    assert_eq!(d.blob.tabs.len(), 1);
    assert_eq!(d.config.addr, "127.0.0.1:80");
}

#[test]
fn failed_refresh_keeps_published_blob() {
    let mut d = ServerData::new(config(), blob_with(&["a", "b"]));
    d.cache_file("index.html".to_owned(), vec![1, 2, 3]);
    let before = format!("{:?}", d);
    let r = d.publish(Err(WorkErr("upstream failed".to_owned())));
    assert_eq!(r.unwrap_err().0, "upstream failed");
    assert_eq!(format!("{:?}", d), before);
    assert_eq!(d.cached_file("index.html"), Some(vec![1, 2, 3]));
}

#[test]
fn successful_refresh_replaces_blob_and_clears_cache() {
    let mut d = ServerData::new(config(), blob_with(&["a"]));
    d.cache_file("index.html".to_owned(), vec![1]);
    assert!(d.publish(Ok(blob_with(&["x", "y"]))).is_ok());
    assert_eq!(d.blob.tabs.len(), 2);
    assert_eq!(d.blob.tabs[0].id, "x");
    assert_eq!(d.cached_file("index.html"), None);
    assert_eq!(d.config.repository, "nrc/find-work");
}

#[test]
fn cache_returns_latest_bytes_per_path() {
    let mut d = ServerData::new(config(), blob_with(&[]));
    assert_eq!(d.cached_file("a"), None);
    d.cache_file("a".to_owned(), vec![1]);
    d.cache_file("b".to_owned(), vec![2]);
    d.cache_file("a".to_owned(), vec![3]);
    assert_eq!(d.cached_file("a"), Some(vec![3]));
    assert_eq!(d.cached_file("b"), Some(vec![2]));
}

#[test]
fn routes_by_method_and_path() {
    assert!(matches!(route(false, "/data/"), Route::Unknown));
    assert!(matches!(route(true, "/data/"), Route::Data));
    assert!(matches!(route(true, "/data"), Route::Data));
    match route(true, "/static/css/site.css") {
        Route::Static(p) => assert_eq!(p, "css/site.css"),
        other => panic!("{:?}", other),
    }
    match route(true, "/static/") {
        Route::Static(p) => assert_eq!(p, ""),
        other => panic!("{:?}", other),
    }
    assert!(matches!(route(true, "/"), Route::Index));
    assert!(matches!(route(true, "/staticx"), Route::Index));
    assert!(matches!(route(true, "/data/x"), Route::Index));
}

#[test]
fn content_types_by_route() {
    assert_eq!(content_type(&Route::Data, ""), "application/json");
    assert_eq!(content_type(&Route::Index, "index.html"), "text/html; charset=utf-8");
    assert_eq!(content_type(&Route::Static("site.css".to_owned()), "static/site.css"), "text/css");
    assert_eq!(content_type(&Route::Static("app.js".to_owned()), "static/app.js"), "text/javascript");
    assert_eq!(content_type(&Route::Static("blob".to_owned()), "static/blob"), "application/octet-stream");
    assert_eq!(content_type(&Route::Unknown, ""), "text/plain; charset=utf-8");
}
