use rand::{thread_rng, Rng};
use sliding_extrema::{
    sliding_max, sliding_min, ExtremumFunction, ExtremumOrdMax, ExtremumOrdMin, SlidingExtrema,
};

fn test_iter() {
    let mut rng = thread_rng();
    let num_initial_items = rng.gen_range(0i32..=20i32);
    let num_random_ops = rng.gen_range(0..=60);
    let mut a = sliding_min();
    let mut b = Vec::new();
    for _ in 0..num_initial_items {
        let value = rng.gen_range(0..=10);
        a.push(value);
        b.push(value);
        assert_eq!(a.get_extrema().unwrap(), b.iter().fold(10000, |a, b| a.min(*b)));
    }

    for _ in 0..num_random_ops {
        assert_eq!(a.len(), b.len());
        if rng.gen_range(0..=2) == 0 {
            //insert
            let value = rng.gen_range(0..=10);
            a.push(value);
            b.push(value);
            assert_eq!(a.get_extrema().unwrap(), b.iter().fold(10000, |a, b| a.min(*b)));
        } else {
            if b.len() > 0 {
                assert_eq!(a.get_extrema().unwrap(), b.iter().fold(10000, |a, b| a.min(*b)));
                let bpop = b.remove(0);
                assert_eq!(a.pop().unwrap(), bpop);
            } else {
                assert_eq!(None, a.pop());
                assert_eq!(None, a.get_extrema());
            }
        }
    }
}

#[test]
fn fuzz() {
    for _ in 0..10000 {
        test_iter();
    }
}

#[test]
fn min_and_max() {
    let mut t = SlidingExtrema::new_dynamic(|a: &(u32, u32), b: &(u32, u32)| {
        ((a.0).min(b.0), (a.1.max(b.1)))
    });
    t.push((1, 1));
    assert_eq!(t.get_extrema().unwrap(), (1, 1));
    t.push((3, 3));
    assert_eq!(t.get_extrema().unwrap(), (1, 3));
    t.push((2, 2));
    assert_eq!(t.get_extrema().unwrap(), (1, 3));
    t.pop();
    assert_eq!(t.get_extrema().unwrap(), (2, 3));
}

#[test]
fn it_works() {
    let mut t = SlidingExtrema::new_dynamic(|a: &u32, b: &u32| (*a).min(*b));
    assert_eq!(None, t.get_extrema());
    t.push(42);
    assert_eq!(Some(42), t.get_extrema());
    t.push(15);
    assert_eq!(Some(15), t.get_extrema());
    t.push(17);
    assert_eq!(Some(15), t.get_extrema());
    assert_eq!(42, t.pop().unwrap());
    assert_eq!(Some(15), t.get_extrema());
    assert_eq!(15, t.pop().unwrap());
    assert_eq!(Some(17), t.get_extrema());
    assert_eq!(17, t.pop().unwrap());
    assert_eq!(None, t.get_extrema());

    assert_eq!(None, t.pop());
}

#[test]
fn sliding_minimum_stays_while_the_least_item_is_present() {
    let mut q = sliding_min();
    q.push(42);
    q.push(15);
    q.push(8);
    assert_eq!(q.get_extrema(), Some(8));
    assert_eq!(q.pop(), Some(42));
    assert_eq!(q.get_extrema(), Some(8));
    assert_eq!(q.pop(), Some(15));
    assert_eq!(q.get_extrema(), Some(8));
    assert_eq!(q.pop(), Some(8));
    assert_eq!(q.get_extrema(), None);
}

#[test]
fn sliding_maximum_interleaved() {
    let mut q = sliding_max();
    q.push(42);
    assert_eq!(q.get_extrema(), Some(42));
    q.push(15);
    assert_eq!(q.get_extrema(), Some(42));
    q.push(17);
    assert_eq!(q.get_extrema(), Some(42));
    assert_eq!(q.pop(), Some(42));
    assert_eq!(q.get_extrema(), Some(17));
    assert_eq!(q.pop(), Some(15));
    assert_eq!(q.get_extrema(), Some(17));
    assert_eq!(q.pop(), Some(17));
    assert_eq!(q.get_extrema(), None);
    assert_eq!(q.pop(), None);
}

#[test]
fn sliding_maximum_drops_when_the_greatest_item_leaves() {
    let mut queue = sliding_max();
    queue.push(42);
    queue.push(15);
    queue.push(8);
    assert_eq!(queue.get_extrema().unwrap(), 42);
    queue.pop();
    assert_eq!(queue.get_extrema().unwrap(), 15);
}

#[test]
fn closure_maximum_drops_when_the_greatest_item_leaves() {
    let mut queue = SlidingExtrema::new_dynamic(|a: &u32, b: &u32| (*a).max(*b));
    queue.push(42);
    queue.push(15);
    queue.push(8);
    assert_eq!(queue.get_extrema().unwrap(), 42);
    queue.pop();
    assert_eq!(queue.get_extrema().unwrap(), 15);
}

#[test]
fn pops_come_in_push_order() {
    let values = [5u64, 3, 9, 3, 0, 12, 7];
    let mut q = sliding_min();
    for v in values.iter() {
        q.push(*v);
    }
    for v in values.iter() {
        assert_eq!(q.pop(), Some(*v));
    }
    assert_eq!(q.pop(), None);
}

#[test]
fn pops_come_in_push_order_across_a_refill() {
    let mut q = sliding_max();
    q.push(1);
    q.push(2);
    assert_eq!(q.pop(), Some(1));
    q.push(3);
    q.push(4);
    assert_eq!(q.pop(), Some(2));
    assert_eq!(q.pop(), Some(3));
    q.push(5);
    assert_eq!(q.pop(), Some(4));
    assert_eq!(q.pop(), Some(5));
    assert_eq!(q.pop(), None);
}

#[test]
fn len_counts_pushes_minus_successful_pops() {
    let mut q = sliding_min();
    assert_eq!(q.len(), 0);
    assert_eq!(q.pop(), None);
    assert_eq!(q.len(), 0);
    q.push(4);
    q.push(6);
    q.push(5);
    assert_eq!(q.len(), 3);
    q.pop();
    assert_eq!(q.len(), 2);
    q.push(1);
    assert_eq!(q.len(), 3);
    q.pop();
    q.pop();
    q.pop();
    assert_eq!(q.len(), 0);
    assert_eq!(q.pop(), None);
    assert_eq!(q.len(), 0);
}

#[test]
fn fresh_and_drained_queues_report_empty() {
    let mut q = sliding_max::<i64>();
    assert_eq!(q.get_extrema(), None);
    assert_eq!(q.pop(), None);
    q.push(-3);
    q.push(7);
    assert_eq!(q.pop(), Some(-3));
    assert_eq!(q.pop(), Some(7));
    assert_eq!(q.get_extrema(), None);
    assert_eq!(q.pop(), None);
}

#[test]
fn single_item_is_its_own_extremum() {
    let mut least = sliding_min();
    least.push(String::from("pear"));
    assert_eq!(least.get_extrema(), Some(String::from("pear")));

    let mut greatest = sliding_max();
    greatest.push(-11i8);
    assert_eq!(greatest.get_extrema(), Some(-11));

    let mut pairs = SlidingExtrema::new_dynamic(|a: &(u8, u8), b: &(u8, u8)| {
        (a.0.min(b.0), a.1.max(b.1))
    });
    pairs.push((4, 2));
    assert_eq!(pairs.get_extrema(), Some((4, 2)));
}

#[test]
fn extremum_spans_both_stacks() {
    let mut q = sliding_min();
    q.push(9);
    q.push(4);
    q.push(6);
    assert_eq!(q.pop(), Some(9));
    // The front now holds 4 and 6; what follows lands on the rear.
    q.push(5);
    assert_eq!(q.get_extrema(), Some(4));
    q.push(2);
    assert_eq!(q.get_extrema(), Some(2));
    assert_eq!(q.pop(), Some(4));
    assert_eq!(q.get_extrema(), Some(2));
    assert_eq!(q.pop(), Some(6));
    assert_eq!(q.get_extrema(), Some(2));
    assert_eq!(q.pop(), Some(5));
    assert_eq!(q.get_extrema(), Some(2));
    assert_eq!(q.pop(), Some(2));
    assert_eq!(q.get_extrema(), None);
}

#[test]
fn ordered_rules_pick_the_lesser_and_the_greater() {
    let least = ExtremumOrdMin::default();
    assert_eq!(least.extremum(&3, &8), 3);
    assert_eq!(least.extremum(&8, &3), 3);
    assert_eq!(least.extremum(&5, &5), 5);
    let greatest = ExtremumOrdMax::default();
    assert_eq!(greatest.extremum(&3, &8), 8);
    assert_eq!(greatest.extremum(&8, &3), 8);
    assert_eq!(greatest.extremum(&5, &5), 5);
}

/// Keeps the longer of two strings.
struct Longest;

impl ExtremumFunction<String> for Longest {
    fn extremum(&self, a: &String, b: &String) -> String {
        if a.len() >= b.len() {
            a.clone()
        } else {
            b.clone()
        }
    }
}

#[test]
fn a_rule_of_the_callers_own() {
    let mut q = SlidingExtrema::new(Longest);
    q.push(String::from("quince"));
    q.push(String::from("fig"));
    q.push(String::from("plum"));
    assert_eq!(q.get_extrema(), Some(String::from("quince")));
    assert_eq!(q.pop(), Some(String::from("quince")));
    assert_eq!(q.get_extrema(), Some(String::from("plum")));
    assert_eq!(q.len(), 2);
}

#[test]
fn the_front_is_combined_before_the_rear() {
    // A rule that keeps its first argument shows in which order the two
    // stacks' results are handed to it.
    let mut q = SlidingExtrema::new_dynamic(|a: &u32, _b: &u32| *a);
    q.push(1);
    q.push(2);
    q.push(3);
    assert_eq!(q.get_extrema(), Some(1));
    assert_eq!(q.pop(), Some(1));
    // The front holds 2 and 3, refilled newest first.
    assert_eq!(q.get_extrema(), Some(3));
    q.push(9);
    assert_eq!(q.get_extrema(), Some(3));
}

#[test]
fn to_vec_lists_items_oldest_first() {
    let mut q = sliding_min();
    assert_eq!(q.to_vec(), Vec::<i32>::new());
    q.push(7);
    q.push(3);
    q.push(5);
    assert_eq!(q.to_vec(), vec![7, 3, 5]);
    assert_eq!(q.pop(), Some(7));
    // 3 and 5 now sit on the front stack; 9 and 1 arrive on the rear.
    q.push(9);
    q.push(1);
    assert_eq!(q.to_vec(), vec![3, 5, 9, 1]);
    assert_eq!(q.pop(), Some(3));
    assert_eq!(q.to_vec(), vec![5, 9, 1]);
    assert_eq!(q.len(), 3);
}

#[test]
fn many_items_pass_through_in_order() {
    let mut q = sliding_max();
    let mut expected_next = 0u32;
    for v in 0..1000u32 {
        q.push(v);
        if v % 3 == 2 {
            assert_eq!(q.pop(), Some(expected_next));
            expected_next += 1;
        }
        assert_eq!(q.get_extrema(), Some(v));
        assert_eq!(q.len(), (v + 1 - expected_next) as usize);
    }
    while let Some(v) = q.pop() {
        assert_eq!(v, expected_next);
        expected_next += 1;
    }
    assert_eq!(expected_next, 1000);
    assert_eq!(q.get_extrema(), None);
}
