use yule_log::pool::{next_power_of_two, VecU8Pool, MAX_TIER_SIZE};

#[test]
fn pooled_vec_rc_basic() {
    let mut pool = VecU8Pool::new();
    {
        // Allocate three buffers in two different tiers.
        let mut a16 = pool.allocate(10); // rounds to 16
        let mut b32 = pool.allocate(20); // rounds to 32
        let mut c16 = pool.allocate(10); // rounds to 16
        assert_eq!(a16.tier_capacity(), 16);
        assert_eq!(b32.tier_capacity(), 32);
        assert_eq!(c16.tier_capacity(), 16);

        // At this point, nothing has been returned to the pool yet
        assert_eq!(pool.tier_sizes().get(&16), Some(&0));
        assert_eq!(pool.tier_sizes().get(&32), Some(&0));

        a16.as_mut_vec().push(1);
        b32.as_mut_vec().push(2);
        c16.as_mut_vec().push(3);

        // Give back `a16` and `b32`.
        pool.return_to_pool(a16);
        pool.return_to_pool(b32);

        // The pool now has one buffer of capacity 16 (from `a16`) and one of capacity 32.
        let sizes = pool.tier_sizes();
        assert_eq!(sizes.get(&16), Some(&1));
        assert_eq!(sizes.get(&32), Some(&1));

        // A buffer of size 15 rounds to 16 and reuses the one given back from `a16`.
        let d16 = pool.allocate(15);
        assert_eq!(d16.as_vec().capacity(), 16);

        // After allocating `d16`, the pool's 16-capacity tier is empty again.
        let sizes_after = pool.tier_sizes();
        assert_eq!(sizes_after.get(&16), Some(&0));
        assert_eq!(sizes_after.get(&32), Some(&1));

        // `c16` goes back to the pool.
        pool.return_to_pool(c16);

        let sizes_after_c = pool.tier_sizes();
        assert_eq!(sizes_after_c.get(&16), Some(&1));
        assert_eq!(sizes_after_c.get(&32), Some(&1));

        pool.return_to_pool(d16);
    }

    // With `d16` back, the pool has two buffers of capacity 16.
    let final_sizes = pool.tier_sizes();
    assert_eq!(final_sizes.get(&16), Some(&2));
    assert_eq!(final_sizes.get(&32), Some(&1));
}

#[test]
fn next_power_of_two_rounds_up() {
    assert_eq!(next_power_of_two(0), 1);
    assert_eq!(next_power_of_two(1), 1);
    assert_eq!(next_power_of_two(2), 2);
    assert_eq!(next_power_of_two(5), 8);
    assert_eq!(next_power_of_two(16), 16);
    assert_eq!(next_power_of_two(17), 32);
    assert_eq!(next_power_of_two(MAX_TIER_SIZE), MAX_TIER_SIZE);
    assert_eq!(MAX_TIER_SIZE, usize::MAX / 2 + 1);
    for size in 0..5000usize {
        assert_eq!(next_power_of_two(size), size.next_power_of_two());
    }
}

#[test]
fn pool_buffers_come_back_empty_and_oldest_first() {
    let mut pool = VecU8Pool::new();
    let mut first = pool.allocate(3);
    assert_eq!(first.tier_capacity(), 4);
    assert!(first.as_vec().is_empty());
    first.as_mut_vec().extend_from_slice(&[1, 2, 3, 4, 5, 6, 7, 8, 9]);
    let grown = first.as_vec().capacity();
    assert!(grown >= 9);
    let second = pool.allocate(4);
    let second_cap = second.as_vec().capacity();
    pool.return_to_pool(first);
    pool.return_to_pool(second);
    assert_eq!(pool.tier_sizes().get(&4), Some(&2));

    let again = pool.allocate(3);
    assert_eq!(again.tier_capacity(), 4);
    assert!(again.as_vec().is_empty());
    assert_eq!(again.as_vec().capacity(), grown);
    let then = pool.allocate(4);
    assert!(then.as_vec().is_empty());
    assert_eq!(then.as_vec().capacity(), second_cap);
    let fresh = pool.allocate(4);
    assert!(fresh.as_vec().is_empty());
    assert_eq!(pool.tier_sizes().get(&4), Some(&0));
    assert_eq!(pool.tier_sizes().len(), 1);
}

#[test]
fn pool_starts_empty() {
    let pool = VecU8Pool::new();
    assert!(pool.tier_sizes().is_empty());
}

#[test]
fn pool_fills_buffers_from_slices_and_vectors() {
    let mut pool = VecU8Pool::new();
    let a = pool.from_slice(&[1, 2, 3, 4, 5]);
    assert_eq!(a.as_vec(), &vec![1, 2, 3, 4, 5]);
    assert_eq!(a.tier_capacity(), 8);
    let b = pool.from_vec(vec![9; 33]);
    assert_eq!(b.as_vec(), &vec![9; 33]);
    assert_eq!(b.tier_capacity(), 64);
    let empty = pool.from_slice(&[]);
    assert!(empty.as_vec().is_empty());
    assert_eq!(empty.tier_capacity(), 1);
    pool.return_to_pool(a);
    let reused = pool.from_slice(&[7]);
    assert_eq!(reused.as_vec(), &vec![7]);
    assert_eq!(reused.tier_capacity(), 1);
    assert_eq!(pool.tier_sizes().get(&8), Some(&1));
    assert_eq!(pool.tier_sizes().get(&64), Some(&0));
}
