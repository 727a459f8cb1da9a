//! Tests of the bitmap of wake-ups.

use heph_rt::bitmap::AtomicBitMap;

fn all_bits(map: &AtomicBitMap, bit: char) -> bool {
    map.to_binary().chars().all(|c| c == bit)
}

fn setting_and_unsetting(entries: usize) {
    let mut map = AtomicBitMap::new(entries);
    assert_eq!(map.capacity(), entries);

    // All bits should be empty.
    assert!(all_bits(&map, '0'));
    assert_eq!(map.next_set(), None);

    // Set all bits.
    for n in 0..entries {
        map.set(n);
    }
    assert!(all_bits(&map, '1'));

    // Unset all bits again.
    for n in 0..entries {
        assert_eq!(map.next_set(), Some(n));
    }
    // Now the map should be empty.
    assert_eq!(map.next_set(), None);
    assert!(all_bits(&map, '0'));

    // Test setting an index not in order.
    map.set(63);
    map.set(0);
    assert_eq!(map.next_set(), Some(0));
    assert_eq!(map.next_set(), Some(63));

    // Bitmap should be zeroed again.
    assert_eq!(map.next_set(), None);
    assert!(all_bits(&map, '0'));
}

#[test]
fn bitmap_setting_and_unsetting_one() {
    setting_and_unsetting(64)
}

#[test]
fn bitmap_setting_and_unsetting_two() {
    setting_and_unsetting(128)
}

#[test]
fn bitmap_setting_and_unsetting_three() {
    setting_and_unsetting(192)
}

#[test]
fn bitmap_setting_and_unsetting_four() {
    setting_and_unsetting(256)
}

#[test]
fn bitmap_setting_and_unsetting_eight() {
    setting_and_unsetting(512)
}

#[test]
fn bitmap_setting_and_unsetting_sixteen() {
    setting_and_unsetting(1024)
}

#[test]
fn capacity_rounds_up_to_whole_words() {
    assert_eq!(AtomicBitMap::new(0).capacity(), 0);
    assert_eq!(AtomicBitMap::new(1).capacity(), 64);
    assert_eq!(AtomicBitMap::new(65).capacity(), 128);
}

#[test]
fn setting_out_of_range_is_ignored() {
    let mut map = AtomicBitMap::new(64);
    map.set(64);
    map.set(1000);
    assert_eq!(map.next_set(), None);
}

#[test]
fn set_then_claimed_once() {
    let mut map = AtomicBitMap::new(128);
    map.set(70);
    assert_eq!(map.next_set(), Some(70));
    assert_eq!(map.next_set(), None);
    // Setting twice before claiming claims once.
    map.set(5);
    map.set(5);
    assert_eq!(map.next_set(), Some(5));
    assert_eq!(map.next_set(), None);
}

#[test]
fn binary_prints_most_significant_bit_first() {
    let mut map = AtomicBitMap::new(128);
    map.set(0);
    map.set(65);
    let text = map.to_binary();
    assert_eq!(text.len(), 128);
    let mut expected = String::new();
    expected.push_str(&"0".repeat(63));
    expected.push('1');
    expected.push_str(&"0".repeat(62));
    expected.push_str("10");
    assert_eq!(text, expected);
}
