//! Tests of the coordinator's bitmap, waker data, thread bookkeeping and
//! errors.

use heph_rt::coordinator::bitmap::AtomicBitMap;
use heph_rt::coordinator::waker::{from_data, into_data, min_bitmap_size, MAX_WAKERS};
use a10::process::Signal;
use heph_rt::coordinator::{check_for, relay_for, relay_signal, Check, Error, SignalPoll, Threads};

fn setting_and_unsetting(entries: usize) {
    let mut map = AtomicBitMap::new(entries);
    assert_eq!(map.capacity(), entries);

    // Set all indices.
    for n in 0..entries {
        map.set(n);
    }

    // All bits should be set.
    assert!(map.to_binary().chars().all(|c| c == '1'));

    // Unset all indices again.
    for n in 0..entries {
        assert_eq!(map.next_set(), Some(n));
    }
    // Bitmap should be zeroed.
    assert!(map.to_binary().chars().all(|c| c == '0'));

    // Test unsetting an index not in order.
    map.set(63);
    map.set(0);
    assert!(matches!(map.next_set(), Some(i) if i == 0));
    assert!(matches!(map.next_set(), Some(i) if i == 63));

    // Next avaiable index should be 0 again.
    assert_eq!(map.next_set(), None);
}

#[test]
fn setting_and_unsetting_one() {
    setting_and_unsetting(64)
}

#[test]
fn setting_and_unsetting_two() {
    setting_and_unsetting(128)
}

#[test]
fn setting_and_unsetting_three() {
    setting_and_unsetting(192)
}

#[test]
fn setting_and_unsetting_four() {
    setting_and_unsetting(256)
}

#[test]
fn setting_and_unsetting_eight() {
    setting_and_unsetting(512)
}

#[test]
fn setting_and_unsetting_sixteen() {
    setting_and_unsetting(1024)
}

#[test]
fn waker_data_round_trip() {
    let address: u64 = 0x0000_7fff_dead_bee8;
    for id in [0u64, 1, 2, 100, MAX_WAKERS - 1] {
        let data = into_data(address, id);
        assert_eq!(from_data(data), (address, id));
    }
}

#[test]
fn waker_data_keeps_id_in_top_bits() {
    assert_eq!(into_data(0, 1), 1 << 48);
    assert_eq!(into_data(0x1234, 0), 0x1234);
    assert_eq!(into_data(0x1234, 0xffff), 0xffff_0000_0000_1234);
}

#[test]
fn bitmap_size_holds_the_id() {
    assert_eq!(min_bitmap_size(0), 1);
    assert_eq!(min_bitmap_size(63), 1);
    assert_eq!(min_bitmap_size(64), 2);
    assert_eq!(min_bitmap_size(200), 4);
}

#[test]
fn check_for_bits() {
    assert_eq!(check_for(0, 2), Check::RelaySignals);
    assert_eq!(check_for(1, 2), Check::JoinWorker(1));
    assert_eq!(check_for(2, 2), Check::JoinWorker(2));
    assert_eq!(check_for(3, 2), Check::JoinSyncWorker(3));
}

#[test]
fn threads_are_joined_once() {
    let mut threads = Threads::new(2, 1);
    assert_eq!(threads.threads_left(), 3);
    assert!(threads.join_worker(1));
    assert_eq!(threads.threads_left(), 2);
    // Joining the same worker again does nothing.
    assert!(!threads.join_worker(1));
    assert_eq!(threads.threads_left(), 2);
    // Unknown ids do nothing.
    assert!(!threads.join_worker(0));
    assert!(!threads.join_worker(3));
    assert!(!threads.join_sync_worker(2));
    assert_eq!(threads.threads_left(), 2);
    assert!(threads.join_sync_worker(1));
    assert!(threads.join_worker(2));
    assert_eq!(threads.threads_left(), 0);
}

#[test]
fn threads_check() {
    let mut threads = Threads::new(1, 1);
    assert_eq!(threads.check(0), (Check::RelaySignals, false));
    assert_eq!(threads.threads_left(), 2);
    assert_eq!(threads.check(1), (Check::JoinWorker(1), true));
    assert_eq!(threads.check(1), (Check::JoinWorker(1), false));
    assert_eq!(threads.threads_left(), 1);
}

#[test]
fn coordinator_error_messages() {
    assert_eq!(Error::SendingStartSignal.to_string(), "error sending start signal to worker");
    assert_eq!(Error::SendingFunc.to_string(), "error sending function to worker");
    let err = Error::Polling(std::io::Error::new(std::io::ErrorKind::Other, "oops"));
    assert_eq!(err.to_string(), "error polling for OS events: oops");
    let err = Error::SignalHandling(std::io::Error::new(std::io::ErrorKind::Other, "oops"));
    assert_eq!(err.to_string(), "error handling process signal: oops");
}

#[test]
fn signals_go_to_running_workers_and_actors() {
    let mut threads = Threads::new(3, 1);
    assert!(threads.join_worker(2));
    assert_eq!(threads.running_workers(), vec![1, 3]);

    let relay = relay_signal(&threads, &SignalPoll::Received(Signal::INTERRUPT)).unwrap().unwrap();
    assert!(!relay.log_metrics);
    assert!(relay.to_actors);
    assert_eq!(relay.to_workers, vec![1, 3]);

    let relay = relay_signal(&threads, &SignalPoll::Received(Signal::USER2)).unwrap().unwrap();
    assert!(relay.log_metrics);
    assert_eq!(relay.to_workers, vec![1, 3]);
}

#[test]
fn signal_relay_ends_on_failure_or_no_signal() {
    let threads = Threads::new(2, 0);
    assert!(relay_signal(&threads, &SignalPoll::Failed).is_err());
    assert!(relay_signal(&threads, &SignalPoll::Done).unwrap().is_none());
    let relay = relay_for(&threads, &SignalPoll::Received(Signal::HUP), true).unwrap().unwrap();
    assert!(relay.log_metrics);
    assert_eq!(relay.to_workers, vec![1, 2]);
}
