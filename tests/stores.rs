use static_server::handler::{respond, Method, Status};
use static_server::provider::{
    ArchiveEntry, FolderProvider, StaticMap, StaticProvider, TarProvider, TryRewrite,
};
use static_server::table::PathTable;

fn folder_with_site() -> FolderProvider {
    let mut p = FolderProvider::new("site");
    p.add_file("/index.html".to_string(), b"hello".to_vec());
    p.add_file("/style.css".to_string(), b"body{}".to_vec());
    p
}

#[test]
fn table_insert_get_remove() {
    let mut t: PathTable<u32> = PathTable::new();
    assert_eq!(t.len(), 0);
    t.insert("/a".to_string(), 1);
    t.insert("/b".to_string(), 2);
    t.insert("/a".to_string(), 3);
    assert_eq!(t.len(), 2);
    assert_eq!(t.get(&"/a".to_string()), Some(&3));
    assert_eq!(t.get(&"/c".to_string()), None);
    assert_eq!(t.remove(&"/a".to_string()), Some(3));
    assert_eq!(t.remove(&"/a".to_string()), None);
    assert_eq!(t.len(), 1);
    assert_eq!(t.get(&"/b".to_string()), Some(&2));
}

#[test]
fn store_keeps_bytes_and_mime() {
    let mut m = StaticMap::new();
    m.insert_file("/index.html".to_string(), b"hello".to_vec());
    m.insert_file("/style.css".to_string(), b"body{}".to_vec());
    assert_eq!(m.len(), 2);
    let c = m.get("/index.html").unwrap();
    assert_eq!(c.payload, b"hello".to_vec());
    assert_eq!(c.mime, "text/html");
    let c = m.get_content("/style.css").unwrap();
    assert_eq!(c.payload, b"body{}".to_vec());
    assert_eq!(c.mime, "text/css");
    assert!(m.get("/missing.txt").is_none());
}

#[test]
fn unknown_extension_is_octet_stream() {
    let mut m = StaticMap::new();
    m.insert_file("/data.zzzunknown".to_string(), vec![1, 2, 3]);
    m.insert_file("/README".to_string(), vec![4]);
    assert_eq!(m.get("/data.zzzunknown").unwrap().mime, "application/octet-stream");
    assert_eq!(m.get("/README").unwrap().mime, "application/octet-stream");
}

#[test]
fn later_file_replaces_earlier() {
    let mut m = StaticMap::new();
    m.insert_file("/a.txt".to_string(), b"one".to_vec());
    m.insert_file("/a.txt".to_string(), b"two".to_vec());
    assert_eq!(m.len(), 1);
    assert_eq!(m.get("/a.txt").unwrap().payload, b"two".to_vec());
    assert_eq!(m.get("/a.txt").unwrap().mime, "text/plain");
}

#[test]
fn empty_file_is_stored() {
    let mut m = StaticMap::new();
    m.insert_file("/empty.txt".to_string(), Vec::new());
    assert_eq!(m.get("/empty.txt").unwrap().payload.len(), 0);
}

#[test]
fn folder_site_end_to_end() {
    let p = folder_with_site();
    assert_eq!(p.folder(), "site");
    match respond(&p, Method::Get, "/") {
        Ok(c) => {
            assert_eq!(c.payload, b"hello".to_vec());
            assert_eq!(c.mime, "text/html");
        }
        Err(s) => panic!("unexpected status {:?}", s),
    }
    match respond(&p, Method::Get, "/style.css") {
        Ok(c) => {
            assert_eq!(c.payload, b"body{}".to_vec());
            assert_eq!(c.mime, "text/css");
        }
        Err(s) => panic!("unexpected status {:?}", s),
    }
    assert!(matches!(respond(&p, Method::Get, "/missing.txt"), Err(Status::NotFound)));
}

#[test]
fn absent_path_is_not_found_every_time() {
    let p = folder_with_site();
    for _ in 0..3 {
        assert!(matches!(respond(&p, Method::Get, "/nope.html"), Err(Status::NotFound)));
        assert!(p.get_data("/nope.html").is_none());
    }
    assert_eq!(p.get_data("/index.html"), Some(&b"hello".to_vec()));
}

#[test]
fn other_methods_are_not_allowed() {
    let p = folder_with_site();
    assert!(matches!(respond(&p, Method::Other, "/"), Err(Status::MethodNotAllowed)));
}

#[test]
fn query_is_ignored_when_serving() {
    let p = folder_with_site();
    match respond(&p, Method::Get, "/style.css?v=3") {
        Ok(c) => assert_eq!(c.payload, b"body{}".to_vec()),
        Err(s) => panic!("unexpected status {:?}", s),
    }
}

#[test]
fn rewrite_falls_back_to_entry_page() {
    let mut m = StaticMap::new();
    m.insert_file("/index.html".to_string(), b"app".to_vec());
    m.insert_file("/app.js".to_string(), b"js".to_vec());
    let r = TryRewrite::new(m, "/index.html".to_string());
    assert_eq!(r.get_content("/app.js").unwrap().payload, b"js".to_vec());
    assert_eq!(r.get_content("/some/route").unwrap().payload, b"app".to_vec());
    assert_eq!(r.get_content("/some/route").unwrap().mime, "text/html");
}

#[test]
fn rewrite_without_fallback_content_finds_nothing() {
    let m = StaticMap::new();
    let r = TryRewrite::new(m, "/index.html".to_string());
    assert!(r.get_content("/x").is_none());
}

#[test]
fn archive_entries_build_the_store() {
    let mut t = TarProvider::new();
    t.add_entry(ArchiveEntry { size: 0, path: "./".to_string(), payload: Vec::new() });
    t.add_entry(ArchiveEntry { size: 0, path: "./css/".to_string(), payload: Vec::new() });
    t.add_entry(ArchiveEntry {
        size: 5,
        path: "./index.html".to_string(),
        payload: b"hello".to_vec(),
    });
    t.add_entry(ArchiveEntry {
        size: 6,
        path: "./css/site.css".to_string(),
        payload: b"body{}".to_vec(),
    });
    assert_eq!(t.get_data("/index.html"), Some(&b"hello".to_vec()));
    assert_eq!(t.get_data("/css/site.css"), Some(&b"body{}".to_vec()));
    assert!(t.get_data("/").is_none());
    assert!(t.get_data("/css/").is_none());
    assert!(t.get_data("./index.html").is_none());
    match respond(&t, Method::Get, "/") {
        Ok(c) => assert_eq!(c.mime, "text/html"),
        Err(s) => panic!("unexpected status {:?}", s),
    }
}
