use moving_min_max::{MovingMax, MovingMin};

#[test]
fn moving_min() {
    let mut moving_min = MovingMin::<i32>::new();
    moving_min.push(1);
    assert_eq!(moving_min.min(), Some(&1));
    moving_min.push(2);
    assert_eq!(moving_min.min(), Some(&1));
    moving_min.push(3);
    assert_eq!(moving_min.min(), Some(&1));
    assert_eq!(moving_min.pop(), Some(1));
    assert_eq!(moving_min.min(), Some(&2));
    assert_eq!(moving_min.pop(), Some(2));
    assert_eq!(moving_min.pop(), Some(3));
    assert_eq!(moving_min.pop(), None);

    moving_min.push(2);
    moving_min.push(1);
    moving_min.push(3);
    assert_eq!(moving_min.min(), Some(&1));
    assert_eq!(moving_min.pop(), Some(2));
    assert_eq!(moving_min.min(), Some(&1));
    assert_eq!(moving_min.pop(), Some(1));
    assert_eq!(moving_min.min(), Some(&3));
    assert_eq!(moving_min.pop(), Some(3));
    assert_eq!(moving_min.min(), None);
    assert_eq!(moving_min.pop(), None);
}

#[test]
fn moving_max() {
    let mut moving_max = MovingMax::<i32>::new();
    moving_max.push(3);
    assert_eq!(moving_max.max(), Some(&3));
    moving_max.push(2);
    assert_eq!(moving_max.max(), Some(&3));
    moving_max.push(1);
    assert_eq!(moving_max.max(), Some(&3));
    assert_eq!(moving_max.pop(), Some(3));
    assert_eq!(moving_max.max(), Some(&2));
    assert_eq!(moving_max.pop(), Some(2));
    assert_eq!(moving_max.pop(), Some(1));
    assert_eq!(moving_max.pop(), None);

    moving_max.push(2);
    moving_max.push(3);
    moving_max.push(1);
    assert_eq!(moving_max.max(), Some(&3));
    assert_eq!(moving_max.pop(), Some(2));
    assert_eq!(moving_max.max(), Some(&3));
    assert_eq!(moving_max.pop(), Some(3));
    assert_eq!(moving_max.max(), Some(&1));
    assert_eq!(moving_max.pop(), Some(1));
    assert_eq!(moving_max.max(), None);
    assert_eq!(moving_max.pop(), None);
}

#[test]
fn min_scenario_two_one_three() {
    let mut w = MovingMin::<i32>::new();
    w.push(2);
    w.push(1);
    w.push(3);
    assert_eq!(w.min(), Some(&1));
    assert_eq!(w.pop(), Some(2));
    assert_eq!(w.min(), Some(&1));
    assert_eq!(w.pop(), Some(1));
    assert_eq!(w.min(), Some(&3));
    assert_eq!(w.pop(), Some(3));
    assert_eq!(w.min(), None);
    assert_eq!(w.pop(), None);
}

#[test]
fn max_scenario_two_three_one() {
    let mut w = MovingMax::<i32>::new();
    w.push(2);
    w.push(3);
    w.push(1);
    assert_eq!(w.max(), Some(&3));
    assert_eq!(w.pop(), Some(2));
    assert_eq!(w.max(), Some(&3));
    assert_eq!(w.pop(), Some(3));
    assert_eq!(w.max(), Some(&1));
    assert_eq!(w.pop(), Some(1));
    assert_eq!(w.max(), None);
}

#[test]
fn min_scenario_ascending() {
    let mut w = MovingMin::<i32>::new();
    w.push(1);
    assert_eq!(w.min(), Some(&1));
    w.push(2);
    assert_eq!(w.min(), Some(&1));
    w.push(3);
    assert_eq!(w.min(), Some(&1));
    assert_eq!(w.pop(), Some(1));
    assert_eq!(w.min(), Some(&2));
    assert_eq!(w.pop(), Some(2));
    assert_eq!(w.min(), Some(&3));
    assert_eq!(w.pop(), Some(3));
    assert_eq!(w.min(), None);
}

#[test]
fn fresh_windows_are_empty() {
    let mut a = MovingMin::<i64>::new();
    assert_eq!(a.min(), None);
    assert_eq!(a.pop(), None);
    assert_eq!(a.len(), 0);
    let mut b = MovingMax::<u8>::new();
    assert_eq!(b.max(), None);
    assert_eq!(b.pop(), None);
    assert_eq!(b.len(), 0);
}

#[test]
fn push_then_pop_restores_empty() {
    let mut a = MovingMin::<i32>::new();
    a.push(-7);
    assert_eq!(a.min(), Some(&-7));
    assert_eq!(a.pop(), Some(-7));
    assert_eq!(a.min(), None);
    assert_eq!(a.pop(), None);
    assert_eq!(a.len(), 0);
    let mut b = MovingMax::<i32>::new();
    b.push(42);
    assert_eq!(b.pop(), Some(42));
    assert_eq!(b.max(), None);
    assert_eq!(b.pop(), None);
}

#[test]
fn pops_come_out_in_push_order() {
    let vals = [5, -3, 9, 9, 0, 12, -3, 7];
    let mut a = MovingMin::<i32>::new();
    let mut b = MovingMax::<i32>::new();
    for v in vals {
        a.push(v);
        b.push(v);
    }
    for v in vals {
        assert_eq!(a.pop(), Some(v));
        assert_eq!(b.pop(), Some(v));
    }
    assert_eq!(a.pop(), None);
    assert_eq!(b.pop(), None);
}

#[test]
fn len_counts_pushes_less_successful_pops() {
    let mut w = MovingMin::<i32>::with_capacity(4);
    assert_eq!(w.len(), 0);
    w.push(3);
    w.push(1);
    assert_eq!(w.len(), 2);
    assert_eq!(w.pop(), Some(3));
    assert_eq!(w.len(), 1);
    w.push(4);
    w.push(1);
    w.push(5);
    assert_eq!(w.len(), 4);
    assert_eq!(w.pop(), Some(1));
    assert_eq!(w.pop(), Some(4));
    assert_eq!(w.pop(), Some(1));
    assert_eq!(w.pop(), Some(5));
    assert_eq!(w.pop(), None);
    assert_eq!(w.len(), 0);
}

#[test]
fn with_capacity_behaves_like_new() {
    let mut a = MovingMax::<i32>::with_capacity(16);
    let mut b = MovingMax::<i32>::new();
    for v in [4, 8, 1, 8, 2] {
        a.push(v);
        b.push(v);
        assert_eq!(a.max(), b.max());
        assert_eq!(a.len(), b.len());
    }
    assert_eq!(a.max(), Some(&8));
    assert_eq!(a.pop(), b.pop());
    assert_eq!(a.max(), b.max());
}

#[test]
fn equal_values_are_tracked() {
    let mut w = MovingMin::<i32>::new();
    w.push(2);
    w.push(2);
    w.push(2);
    assert_eq!(w.min(), Some(&2));
    assert_eq!(w.pop(), Some(2));
    assert_eq!(w.min(), Some(&2));
    w.push(2);
    assert_eq!(w.min(), Some(&2));
    assert_eq!(w.len(), 3);
}

#[test]
fn extremes_of_the_value_range() {
    let mut a = MovingMin::<i32>::new();
    let mut b = MovingMax::<i32>::new();
    for v in [0, i32::MAX, i32::MIN, 1] {
        a.push(v);
        b.push(v);
    }
    assert_eq!(a.min(), Some(&i32::MIN));
    assert_eq!(b.max(), Some(&i32::MAX));
    assert_eq!(a.pop(), Some(0));
    assert_eq!(b.pop(), Some(0));
    assert_eq!(b.pop(), Some(i32::MAX));
    assert_eq!(b.max(), Some(&1));
    assert_eq!(a.pop(), Some(i32::MAX));
    assert_eq!(a.pop(), Some(i32::MIN));
    assert_eq!(a.min(), Some(&1));
}

/// Drives both trackers with a mixed run of pushes and pops and compares each
/// answer with a rescan of a plain queue.
#[test]
fn extremum_matches_a_rescan() {
    let mut seed: u64 = 0x2545_f491_4f6c_dd1d;
    let mut a = MovingMin::<i64>::new();
    let mut b = MovingMax::<i64>::new();
    let mut plain: std::collections::VecDeque<i64> = std::collections::VecDeque::new();
    for _ in 0..2000 {
        seed = seed.wrapping_mul(6364136223846793005).wrapping_add(1442695040888963407);
        let pick = (seed >> 33) % 5;
        let v = ((seed >> 17) % 100) as i64 - 50;
        if pick < 3 {
            a.push(v);
            b.push(v);
            plain.push_back(v);
        } else {
            let expect = plain.pop_front();
            assert_eq!(a.pop(), expect);
            assert_eq!(b.pop(), expect);
        }
        assert_eq!(a.min(), plain.iter().min());
        assert_eq!(b.max(), plain.iter().max());
        assert_eq!(a.len(), plain.len());
        assert_eq!(b.len(), plain.len());
    }
}
