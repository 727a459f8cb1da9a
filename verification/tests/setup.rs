//! Tests of the runtime's setup builder.

use std::time::Duration;

use heph_rt::setup::{default_app_name, Setup};

fn no_timers() {}

#[test]
fn defaults() {
    let setup = Setup::new(no_timers as fn());
    assert_eq!(setup.name(), None);
    assert_eq!(setup.get_threads(), 1);
    assert!(!setup.get_auto_cpu_affinity());
    assert_eq!(setup.get_run_poll_ratio(), 32);
    assert_eq!(setup.get_max_run_time(), Duration::from_millis(5));
}

#[test]
fn builder() {
    let setup = Setup::new(no_timers as fn())
        .with_name("my_app".to_string())
        .num_threads(4)
        .auto_cpu_affinity()
        .with_run_poll_ratio(8)
        .with_max_run_time(Duration::from_millis(1));
    assert_eq!(setup.name(), Some("my_app"));
    assert_eq!(setup.get_threads(), 4);
    assert!(setup.get_auto_cpu_affinity());
    assert_eq!(setup.get_run_poll_ratio(), 8);
    assert_eq!(setup.get_max_run_time(), Duration::from_millis(1));
    let setup = setup.with_timers(7u8);
    assert_eq!(*setup.create_timers(), 7);
    assert_eq!(setup.name(), Some("my_app"));
    assert_eq!(setup.get_threads(), 4);
}

#[test]
fn use_all_cores() {
    assert_eq!(Setup::new(()).use_all_cores(Some(12)).get_threads(), 12);
    assert_eq!(Setup::new(()).use_all_cores(None).get_threads(), 1);
}

#[test]
fn app_names() {
    assert_eq!(default_app_name(Some("/usr/bin/my_app".to_string()), '/'), "my_app");
    assert_eq!(default_app_name(Some("my_app".to_string()), '/'), "my_app");
    assert_eq!(default_app_name(Some("dir/".to_string()), '/'), "");
    assert_eq!(default_app_name(None, '/'), "<unknown>");
}
