use hackstore::field_with_time::FieldWithTime;

fn at(value: u64, timestamp_set: u64) -> FieldWithTime<u64> {
    FieldWithTime { value, timestamp_set }
}

#[test]
fn new_and_update_keep_the_value() {
    let mut f = FieldWithTime::new(3u64);
    assert_eq!(*f.get(), 3);
    f.update(9);
    assert_eq!(*f.get(), 9);
}

#[test]
fn merge_keeps_the_later_value() {
    let mut older = at(1, 100);
    let newer = at(2, 200);
    older.merge(&newer);
    assert_eq!(older.value, 2);
    assert_eq!(older.timestamp_set, 200);

    let mut newest = at(5, 300);
    newest.merge(&at(6, 250));
    assert_eq!(newest.value, 5);
    assert_eq!(newest.timestamp_set, 300);
}

#[test]
fn equal_timestamps_prefer_the_other_operand() {
    // The documented tie-break, applied alike by merge, get_best_of_two
    // and get_best.
    let mut a = at(1, 100);
    a.merge(&at(2, 100));
    assert_eq!(a.value, 2);

    let best = at(1, 100).get_best_of_two(at(2, 100));
    assert_eq!(best.value, 2);

    let best = FieldWithTime::get_best(at(1, 100), vec![at(2, 100)]);
    assert_eq!(best.value, 2);
}

#[test]
fn get_best_of_two_picks_the_latest() {
    assert_eq!(at(1, 100).get_best_of_two(at(2, 50)).value, 1);
    assert_eq!(at(1, 100).get_best_of_two(at(2, 150)).value, 2);
}

#[test]
fn get_best_reduces_a_whole_list() {
    let best = FieldWithTime::get_best(
        at(1, 10),
        vec![at(2, 30), at(3, 20), at(4, 30), at(5, 5)],
    );
    // 30 is the highest timestamp; the later candidate with it wins.
    assert_eq!(best.value, 4);
    assert_eq!(best.timestamp_set, 30);
}
