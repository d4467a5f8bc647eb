use static_server::handler::{enqueue_status, stream_reply, ProviderLost, Status};
use static_server::registry::{InMsg, Registry};

#[test]
fn registered_source_is_served_once() {
    let mut r: Registry<u32> = Registry::new();
    r.register("/big".to_string(), 7);
    assert_eq!(r.find("/big"), Some(7));
    assert_eq!(r.find("/big"), None);
}

#[test]
fn many_finds_get_one_source() {
    let mut r: Registry<u32> = Registry::new();
    r.register("/p".to_string(), 1);
    let n = 16;
    let mut hits = 0;
    for _ in 0..n {
        if r.find("/p").is_some() {
            hits += 1;
        }
    }
    assert_eq!(hits, 1);
}

#[test]
fn registration_again_replaces_and_rearms() {
    let mut r: Registry<&str> = Registry::new();
    r.register("/f".to_string(), "first");
    r.register("/f".to_string(), "second");
    assert_eq!(r.find("/f"), Some("second"));
    assert_eq!(r.find("/f"), None);
    r.register("/f".to_string(), "third");
    assert_eq!(r.find("/f"), Some("third"));
}

#[test]
fn unknown_path_finds_nothing() {
    let mut r: Registry<u8> = Registry::new();
    r.register("/a".to_string(), 1);
    assert_eq!(r.find("/b"), None);
    assert_eq!(r.find("/a"), Some(1));
}

#[test]
fn messages_are_applied_in_order() {
    let mut r: Registry<u8> = Registry::new();
    assert!(r.handle(InMsg::<u8, char>::Register("/x".to_string(), 9)).is_none());
    assert_eq!(r.handle(InMsg::Find("/x".to_string(), 'a')), Some(('a', Some(9))));
    assert_eq!(r.handle(InMsg::Find("/x".to_string(), 'b')), Some(('b', None)));
}

#[test]
fn lookup_outcomes_become_statuses() {
    assert_eq!(stream_reply::<u8>(Ok(Some(4))), Ok(4));
    assert_eq!(stream_reply::<u8>(Ok(None)), Err(Status::NotFound));
    assert_eq!(stream_reply::<u8>(Err(ProviderLost)), Err(Status::InternalError));
}

#[test]
fn refused_job_is_an_internal_error() {
    assert_eq!(enqueue_status(true), Status::Success);
    assert_eq!(enqueue_status(false), Status::InternalError);
}
