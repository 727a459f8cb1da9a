//! Tests of the interests of filesystem watches.

use heph_rt::fs::watch::{directory_mask, file_mask, Interest, Recursive};

#[test]
fn interests_are_the_inotify_events() {
    assert_eq!(Interest::ALL().mask(), libc::IN_ALL_EVENTS);
    assert_eq!(Interest::ACCESS().mask(), libc::IN_ACCESS);
    assert_eq!(Interest::MODIFY().mask(), libc::IN_MODIFY);
    assert_eq!(Interest::METADATA().mask(), libc::IN_ATTRIB);
    assert_eq!(Interest::CLOSE_WRITE().mask(), libc::IN_CLOSE_WRITE);
    assert_eq!(Interest::CLOSE_NOWRITE().mask(), libc::IN_CLOSE_NOWRITE);
    assert_eq!(Interest::CLOSE().mask(), libc::IN_CLOSE);
    assert_eq!(Interest::OPEN().mask(), libc::IN_OPEN);
    assert_eq!(Interest::MOVE_FROM().mask(), libc::IN_MOVED_FROM);
    assert_eq!(Interest::MOVE_INTO().mask(), libc::IN_MOVED_TO);
    assert_eq!(Interest::MOVE().mask(), libc::IN_MOVE);
    assert_eq!(Interest::CREATE().mask(), libc::IN_CREATE);
    assert_eq!(Interest::DELETE().mask(), libc::IN_DELETE);
    assert_eq!(Interest::DELETE_SELF().mask(), libc::IN_DELETE_SELF);
    assert_eq!(Interest::MOVE_SELF().mask(), libc::IN_MOVE_SELF);
}

#[test]
fn adding_interests() {
    assert_eq!(Interest::CLOSE_WRITE().add(Interest::CLOSE_NOWRITE()), Interest::CLOSE());
    assert_eq!(Interest::MOVE_FROM().add(Interest::MOVE_INTO()), Interest::MOVE());
    assert_eq!(Interest::ACCESS().add(Interest::ACCESS()), Interest::ACCESS());
    assert_eq!(
        Interest::ACCESS().add(Interest::MODIFY()),
        Interest::MODIFY().add(Interest::ACCESS())
    );
}

#[test]
fn watch_masks() {
    let flags = libc::IN_DONT_FOLLOW | libc::IN_EXCL_UNLINK | libc::IN_MASK_ADD;
    assert_eq!(file_mask(Interest::MODIFY()), libc::IN_MODIFY | flags);
    assert_eq!(directory_mask(Interest::CREATE()), libc::IN_CREATE | libc::IN_ONLYDIR | flags);
    assert_ne!(Recursive::No, Recursive::All);
}

use heph_rt::fs::watch::{add_watched, new_watching, path_for, Events, PathFor};

fn record(wd: i32, mask: u32, cookie: u32, name: &[u8]) -> Vec<u8> {
    let mut bytes = Vec::new();
    bytes.extend_from_slice(&wd.to_le_bytes());
    bytes.extend_from_slice(&mask.to_le_bytes());
    bytes.extend_from_slice(&cookie.to_le_bytes());
    bytes.extend_from_slice(&(name.len() as u32).to_le_bytes());
    bytes.extend_from_slice(name);
    bytes
}

#[test]
fn reading_events() {
    let mut buf = record(1, libc::IN_CREATE, 0, b"file.txt\0\0\0\0\0\0\0\0");
    buf.extend(record(2, libc::IN_IGNORED, 0, b""));
    buf.extend(record(1, libc::IN_Q_OVERFLOW, 0, b""));
    buf.extend(record(1, libc::IN_MODIFY | libc::IN_ISDIR, 7, b""));
    let mut watching = new_watching();
    add_watched(&mut watching, 1, b"/dir".to_vec());
    add_watched(&mut watching, 2, b"/other".to_vec());

    let mut events = Events::new(buf, true);
    assert_eq!(events.len(), 2);

    let event = events.next(&mut watching).unwrap();
    assert_eq!(event.wd(), 1);
    assert!(event.file_created());
    assert!(!event.is_dir());
    assert_eq!(event.file_path(), b"file.txt");
    assert!(matches!(path_for(&watching, &event), PathFor::Joined(dir, file) if dir == b"/dir" && file == b"file.txt"));
    assert_eq!(events.len(), 1);

    // The ignored watch is forgotten, the overflow skipped.
    let event = events.next(&mut watching).unwrap();
    assert!(event.modified());
    assert!(event.is_dir());
    assert_eq!(event.cookie(), 7);
    assert_eq!(event.file_path(), b"");
    assert!(matches!(path_for(&watching, &event), PathFor::Watched(dir) if dir == b"/dir"));
    assert!(events.next(&mut watching).is_none());
    assert_eq!(events.len(), 0);

    let forgotten = record(2, libc::IN_DELETE_SELF, 0, b"");
    let mut events = Events::new(forgotten, true);
    let event = events.next(&mut watching).unwrap();
    assert!(event.deleted());
    assert!(matches!(path_for(&watching, &event), PathFor::File(file) if file.is_empty()));
}

#[test]
fn truncated_records_are_not_read() {
    let mut buf = record(1, libc::IN_OPEN, 0, b"name");
    buf.truncate(buf.len() - 1);
    let mut watching = new_watching();
    let mut events = Events::new(buf, true);
    assert_eq!(events.len(), 0);
    assert!(events.next(&mut watching).is_none());
    let mut events = Events::new(vec![0; 10], true);
    assert!(events.next(&mut watching).is_none());
}

#[test]
fn big_endian_records() {
    let mut buf = Vec::new();
    buf.extend_from_slice(&3i32.to_be_bytes());
    buf.extend_from_slice(&libc::IN_ACCESS.to_be_bytes());
    buf.extend_from_slice(&0u32.to_be_bytes());
    buf.extend_from_slice(&0u32.to_be_bytes());
    let mut watching = new_watching();
    let mut events = Events::new(buf, false);
    let event = events.next(&mut watching).unwrap();
    assert_eq!(event.wd(), 3);
    assert!(event.accessed());
    assert!(!event.opened());
}
