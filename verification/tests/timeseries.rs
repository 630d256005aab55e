use chartacritty::timeseries::{TimeSeries, UpsertType, ValueCollisionPolicy};

type Arith = fn(f64, f64) -> f64;
type Series = TimeSeries<f64, Arith, Arith>;

fn plus(a: f64, b: f64) -> f64 {
    a + b
}

fn minus(a: f64, b: f64) -> f64 {
    a - b
}

fn series(capacity: usize) -> Series {
    TimeSeries::new(plus as Arith, minus as Arith).with_capacity(capacity)
}

fn with_entries(
    metrics: Vec<(u64, Option<f64>)>,
    active_items: usize,
    metrics_capacity: usize,
    collision_policy: ValueCollisionPolicy,
    first_idx: usize,
    prev_value: (u64, Option<f64>),
    upsert_type: UpsertType,
) -> Series {
    TimeSeries {
        metrics,
        metrics_capacity,
        collision_policy,
        first_idx,
        active_items,
        prev_snapshot: Vec::with_capacity(metrics_capacity),
        prev_value,
        upsert_type,
        stats_dirty: false,
        increment: plus as Arith,
        decrement: minus as Arith,
    }
}

#[test]
fn it_pushes_circular_buffer() {
    let mut test = series(4);
    test.circular_push((10, Some(0f64)));
    assert_eq!(test.first_idx, 0);
    assert_eq!(test.active_items, 1);
    test.circular_push((11, Some(1f64)));
    test.circular_push((12, None));
    test.circular_push((13, Some(3f64)));
    assert_eq!(test.first_idx, 0);
    assert_eq!(test.active_items, 4);
    assert_eq!(test.metrics, vec![(10, Some(0f64)), (11, Some(1f64)), (12, None), (13, Some(3f64))]);
    test.circular_push((14, Some(4f64)));
    assert_eq!(test.metrics, vec![(14, Some(4f64)), (11, Some(1f64)), (12, None), (13, Some(3f64))]);
    assert_eq!(test.first_idx, 1);
    assert_eq!(test.active_items, 4);
    test.circular_push((15, Some(5f64)));
    assert_eq!(test.metrics, vec![(14, Some(4f64)), (15, Some(5f64)), (12, None), (13, Some(3f64))]);
}

#[test]
fn it_upserts() {
    let mut test = series(4);
    test.upsert((13, Some(3f64)));
    test.upsert((10, Some(0f64)));
    test.upsert((11, Some(1f64)));
    test.upsert((12, None));
    assert_eq!(test.metrics, vec![(10, Some(0f64)), (11, Some(1f64)), (12, None), (13, Some(3f64))]);
    assert_eq!(test.first_idx, 0);
    test.upsert((15, Some(5f64)));
    assert_eq!(test.metrics, vec![(14, None), (15, Some(5f64)), (12, None), (13, Some(3f64))]);
    assert_eq!(test.first_idx, 2);
    let input = (11, Some(11f64));
    let last_idx = test.get_last_idx();
    assert_eq!(last_idx, 1);
    let last_input_epoch = test.metrics[last_idx].0;
    assert_eq!(last_input_epoch, 15);
    let inactive_time = input.0 as i64 - last_input_epoch as i64;
    assert_eq!(inactive_time, -4);
    let target_idx = test.get_tail_backwards_offset_idx(inactive_time);
    assert_eq!(test.metrics.len(), 4);
    assert_eq!(target_idx, 1);
    assert!((last_input_epoch as i64 - input.0 as i64) >= test.metrics_capacity as i64);
    test.upsert(input);
    test.upsert((14, Some(4f64)));
    test.upsert((12, Some(20f64)));
    assert_eq!(
        test.metrics,
        vec![(14, Some(4f64)), (15, Some(5f64)), (12, Some(20f64)), (13, Some(3f64))]
    );
    assert_eq!(test.first_idx, 2);
    assert_eq!(test.active_items, 4);
    test.upsert((20, None));
    assert_eq!(test.metrics, vec![(20, None), (15, Some(5f64)), (12, Some(20f64)), (13, Some(3f64))]);
    test.upsert((20, Some(200f64)));
    assert_eq!(
        test.metrics,
        vec![(20, Some(200f64)), (15, Some(5f64)), (12, Some(20f64)), (13, Some(3f64))]
    );
    test.upsert((19, Some(190f64)));
    assert_eq!(
        test.metrics,
        vec![(20, Some(200f64)), (15, Some(5f64)), (12, Some(20f64)), (19, Some(190f64))]
    );
    assert_eq!(test.first_idx, 3);
    assert_eq!(test.get_last_idx(), 0);
    assert_eq!(test.active_items, 2);
    assert_eq!(test.as_vec(), vec![(19, Some(190f64)), (20, Some(200f64))]);
    test.upsert((21, Some(210f64)));
    assert_eq!(
        test.metrics,
        vec![(20, Some(200f64)), (21, Some(210f64)), (12, Some(20f64)), (19, Some(190f64))]
    );
    assert_eq!(test.first_idx, 3);
    assert_eq!(test.get_last_idx(), 1);
    assert_eq!(test.active_items, 3);
    test.upsert((22, Some(220f64)));
    assert_eq!(
        test.metrics,
        vec![(20, Some(200f64)), (21, Some(210f64)), (22, Some(220f64)), (19, Some(190f64))]
    );
    assert_eq!(test.first_idx, 3);
    assert_eq!(test.get_last_idx(), 2);
    assert_eq!(test.active_items, 4);
    test.upsert((24, Some(240f64)));
    assert_eq!(
        test.metrics,
        vec![(24, Some(240f64)), (21, Some(210f64)), (22, Some(220f64)), (23, None),]
    );
    assert_eq!(test.first_idx, 1);
    assert_eq!(test.get_last_idx(), 0);
    test.upsert((84, Some(840f64)));
    test.upsert((81, Some(810f64)));
    test.upsert((82, Some(820f64)));
    assert_eq!(
        test.metrics,
        vec![(84, Some(840f64)), (81, Some(810f64)), (82, Some(820f64)), (83, None),]
    );
    assert_eq!(test.first_idx, 1);
    assert_eq!(test.active_items, 4);
    let mut test = series(10);
    for epoch in 1..11u64 {
        test.upsert((epoch, Some(epoch as f64)));
    }
    assert_eq!(test.first_idx, 0);
    assert_eq!(test.get_last_idx(), 9);
    assert_eq!(
        test.metrics,
        vec![
            (1, Some(1f64)),
            (2, Some(2f64)),
            (3, Some(3f64)),
            (4, Some(4f64)),
            (5, Some(5f64)),
            (6, Some(6f64)),
            (7, Some(7f64)),
            (8, Some(8f64)),
            (9, Some(9f64)),
            (10, Some(10f64)),
        ]
    );
    test.upsert((11, Some(11f64)));
    assert_eq!(test.first_idx, 1);
    assert_eq!(test.get_last_idx(), 0);
    assert_eq!(
        test.metrics,
        vec![
            (11, Some(11f64)),
            (2, Some(2f64)),
            (3, Some(3f64)),
            (4, Some(4f64)),
            (5, Some(5f64)),
            (6, Some(6f64)),
            (7, Some(7f64)),
            (8, Some(8f64)),
            (9, Some(9f64)),
            (10, Some(10f64)),
        ]
    );
    test.upsert((84, Some(840f64)));
    test.upsert((80, Some(800f64)));
    assert_eq!(
        test.metrics,
        vec![
            (84, Some(840f64)),
            (2, Some(2f64)),
            (3, Some(3f64)),
            (4, Some(4f64)),
            (5, Some(5f64)),
            (6, Some(6f64)),
            (80, Some(800f64)),
            (81, None),
            (82, None),
            (83, None),
        ]
    );
    test.upsert((79, Some(790f64)));
    test.upsert((81, Some(810f64)));
    test.upsert((85, Some(850f64)));
    test.upsert((81, Some(811f64)));
    assert_eq!(
        test.metrics,
        vec![
            (84, Some(840f64)),
            (85, Some(850f64)),
            (3, Some(3f64)),
            (4, Some(4f64)),
            (5, Some(5f64)),
            (79, Some(790f64)),
            (80, Some(800f64)),
            (81, Some(1621f64)),
            (82, None),
            (83, None),
        ]
    );
}

#[test]
fn it_uses_last_idx() {
    let mut test = series(5);
    test.upsert((0, Some(0f64)));
    assert_eq!(test.get_last_idx(), 0);
    test.upsert((1, Some(1f64)));
    assert_eq!(test.get_last_idx(), 1);
    test.upsert((2, Some(2f64)));
    assert_eq!(test.get_last_idx(), 2);
    test.upsert((3, Some(3f64)));
    assert_eq!(test.get_last_idx(), 3);
    test.upsert((4, Some(4f64)));
    assert_eq!(test.get_last_idx(), 4);
    assert_eq!(
        test.metrics,
        vec![(0, Some(0f64)), (1, Some(1f64)), (2, Some(2f64)), (3, Some(3f64)), (4, Some(4f64))]
    );
    test.upsert((5, Some(5f64)));
    assert_eq!(test.get_last_idx(), 0);
    assert_eq!(
        test.metrics,
        vec![(5, Some(5f64)), (1, Some(1f64)), (2, Some(2f64)), (3, Some(3f64)), (4, Some(4f64))]
    );
    test.upsert((6, Some(6f64)));
    assert_eq!(test.get_last_idx(), 1);
    test.upsert((7, Some(7f64)));
    assert_eq!(test.get_last_idx(), 2);
    assert_eq!(test.metrics_capacity, 5);
    let last_input = test.metrics[test.get_last_idx()];
    let old_input = (2, Some(20f64));
    assert_eq!(last_input.0 as i64 - old_input.0 as i64, 5i64);
    test.upsert((2, Some(20f64)));
    assert_eq!(
        test.metrics,
        vec![(5, Some(5f64)), (6, Some(6f64)), (7, Some(7f64)), (3, Some(3f64)), (4, Some(4f64))]
    );
    assert_eq!(test.active_items, 5);
    let input = (4, Some(40f64));
    let last_idx = test.get_last_idx();
    let inactive_time = input.0 as i64 - test.metrics[last_idx].0 as i64;
    assert_eq!(inactive_time, -3);
    let target_idx = test.get_tail_backwards_offset_idx(inactive_time);
    assert_eq!(target_idx, 4);
    assert_eq!(test.metrics[target_idx].0, 4);
}

#[test]
fn it_gets_last_filled_value() {
    let mut test = series(4);
    test.upsert((10, Some(0f64)));
    test.upsert((11, None));
    test.upsert((12, None));
    test.upsert((13, None));
    assert!((test.get_last_filled().unwrap_or(0f64) - 0f64).abs() < f64::EPSILON);
    let mut test = series(4);
    test.upsert((11, None));
    test.upsert((12, Some(2f64)));
    assert!((test.get_last_filled().unwrap_or(0f64) - 2f64).abs() < f64::EPSILON);
}

#[test]
fn it_transforms_to_flat_vec() {
    let mut test = series(4);
    assert_eq!(test.first_idx, 0);
    assert_eq!(test.active_items, 0);
    test.upsert((10, Some(0f64)));
    assert_eq!(test.first_idx, 0);
    assert_eq!(test.active_items, 1);
    test.upsert((13, Some(3f64)));
    assert_eq!(test.first_idx, 0);
    assert_eq!(test.active_items, 4);
    assert_eq!(test.as_vec(), vec![(10, Some(0f64)), (11, None), (12, None), (13, Some(3f64))]);
    test.upsert((14, Some(4f64)));
    test.first_idx = 1;
    assert_eq!(test.as_vec(), vec![(11, None), (12, None), (13, Some(3f64)), (14, Some(4f64))]);
    test.active_items = 1;
    test.first_idx = 1;
    assert_eq!(test.as_vec(), vec![(11, None)]);
    test.first_idx = 3;
    test.active_items = 1;
    assert_eq!(test.as_vec(), vec![(13, Some(3f64))]);
    test.first_idx = 3;
    test.active_items = 2;
    assert_eq!(test.as_vec(), vec![(13, Some(3f64)), (14, Some(4f64))]);
}

#[test]
fn it_fills_empty_epochs() {
    let mut test = series(4);
    test.upsert((10, Some(0f64)));
    test.upsert((13, Some(3f64)));
    assert_eq!(test.metrics, vec![(10, Some(0f64)), (11, None), (12, None), (13, Some(3f64))]);
    assert_eq!(test.active_items, 4);
    test.upsert((18, Some(8f64)));
    assert_eq!(test.active_items, 1);
    assert_eq!(test.metrics, vec![(18, Some(8f64)), (11, None), (12, None), (13, Some(3f64))]);
    assert_eq!(test.first_idx, 0);
    assert_eq!(test.active_items, 1);
    assert_eq!(test.as_vec(), vec![(18, Some(8f64))]);
    test.upsert((20, Some(0f64)));
    assert_eq!(test.metrics, vec![(18, Some(8f64)), (19, None), (20, Some(0f64)), (13, Some(3f64))]);
    assert_eq!(test.first_idx, 0);
    assert_eq!(test.active_items, 3);
    assert_eq!(test.as_vec(), vec![(18, Some(8f64)), (19, None), (20, Some(0f64))]);
    test.upsert((50, Some(5f64)));
    assert_eq!(test.metrics, vec![(50, Some(5f64)), (19, None), (20, Some(0f64)), (13, Some(3f64))]);
    assert_eq!(test.as_vec(), vec![(50, Some(5f64))]);
    test.upsert((53, Some(3f64)));
    assert_eq!(test.metrics, vec![(50, Some(5f64)), (51, None), (52, None), (53, Some(3f64))]);
    test.upsert((50, Some(3f64)));
    test.upsert((51, Some(3f64)));
    test.upsert((52, Some(3f64)));
    assert_eq!(
        test.metrics,
        vec![(50, Some(8f64)), (51, Some(3f64)), (52, Some(3f64)), (53, Some(3f64))]
    );
}

#[test]
fn it_adds_old_items() {
    let mut test0 = series(10);
    assert_eq!(test0.upsert((22, Some(22.))), 1usize);
    assert_eq!(test0.metrics[0], (22, Some(22.)));
    assert_eq!(test0.as_vec(), vec![(22, Some(22.))]);
    assert_eq!(test0.first_idx, 0usize);
    assert_eq!(test0.upsert((21, Some(21.))), 1usize);
    assert_eq!(test0.metrics[0], (21, Some(21.)));
    assert_eq!(test0.metrics[1], (22, Some(22.)));
    assert_eq!(test0.first_idx, 0usize);
    assert_eq!(test0.as_vec(), vec![(21, Some(21.)), (22, Some(22.))]);
    assert_eq!(test0.upsert((11, None)), 0usize);
    assert_eq!(test0.as_vec(), vec![(21, Some(21.)), (22, Some(22.))]);
    assert_eq!(test0.upsert((13, Some(13.))), 8usize);
    assert_eq!(test0.first_idx, 0usize);
    assert_eq!(test0.metrics[0], (13, Some(13.)));
    assert_eq!(test0.metrics[1], (14, None));
    assert_eq!(
        test0.as_vec(),
        vec![
            (13, Some(13.)),
            (14, None),
            (15, None),
            (16, None),
            (17, None),
            (18, None),
            (19, None),
            (20, None),
            (21, Some(21.)),
            (22, Some(22.)),
        ]
    );
}

#[test]
fn it_iterates_trait() {
    let test0 = series(4);
    let mut iter_test0 = test0.iter();
    assert_eq!(iter_test0.pos, 0);
    assert!(iter_test0.next().is_none());
    assert!(iter_test0.next().is_none());
    assert_eq!(iter_test0.pos, 0);
    let mut test1 = series(4);
    test1.upsert((10, Some(0f64)));
    let mut iter_test1 = test1.iter();
    assert_eq!(iter_test1.next(), Some(&(10, Some(0f64))));
    assert_eq!(iter_test1.pos, 1);
    assert!(iter_test1.next().is_none());
    assert!(iter_test1.next().is_none());
    assert_eq!(iter_test1.pos, 1);
    let mut test2 = series(4);
    test2.upsert((10, Some(0f64)));
    test2.upsert((11, Some(1f64)));
    test2.upsert((12, Some(2f64)));
    test2.upsert((13, Some(3f64)));
    test2.first_idx = 1;
    assert_eq!(
        test2.metrics,
        vec![(10, Some(0f64)), (11, Some(1f64)), (12, Some(2f64)), (13, Some(3f64))]
    );
    let mut iter_test2 = test2.iter();
    assert_eq!(iter_test2.pos, 1);
    assert_eq!(iter_test2.next(), Some(&(11, Some(1f64))));
    assert_eq!(iter_test2.next(), Some(&(12, Some(2f64))));
    assert_eq!(iter_test2.pos, 3);
    let mut test3 = series(4);
    test3.upsert((10, Some(0f64)));
    test3.upsert((11, Some(1f64)));
    test3.upsert((12, Some(2f64)));
    test3.upsert((13, Some(3f64)));
    {
        let mut iter_test3 = test3.iter();
        assert_eq!(iter_test3.next(), Some(&(10, Some(0f64))));
        assert_eq!(iter_test3.next(), Some(&(11, Some(1f64))));
        assert_eq!(iter_test3.next(), Some(&(12, Some(2f64))));
        assert_eq!(iter_test3.next(), Some(&(13, Some(3f64))));
        assert!(iter_test3.next().is_none());
        assert!(iter_test3.next().is_none());
        assert_eq!(iter_test2.pos, 3);
    }
    test3.upsert((14, Some(4f64)));
    let mut iter_test3 = test3.iter();
    assert_eq!(iter_test3.next(), Some(&(11, Some(1f64))));
}

#[test]
fn it_does_sanity_check() {
    let bad = with_entries(
        vec![(1, Some(0f64)), (0, Some(1f64)), (1, Some(2f64)), (0, Some(3f64))],
        4,
        4,
        ValueCollisionPolicy::Overwrite,
        0,
        (0, None),
        UpsertType::default(),
    );
    assert!(!bad.sanity_check());
    let good = with_entries(
        vec![(0, Some(0f64)), (1, Some(1f64)), (2, Some(2f64)), (3, Some(3f64))],
        4,
        4,
        ValueCollisionPolicy::Overwrite,
        0,
        (0, None),
        UpsertType::default(),
    );
    assert!(good.sanity_check());
}

#[test]
fn sync_loss_replication() {
    let mut metrics: Vec<(u64, Option<f64>)> = (65916..65921u64).map(|e| (e, None)).collect();
    metrics.extend((20425..20445u64).map(|e| (e, Some(9.0))));
    let mut corrupt =
        with_entries(metrics, 5, 25, ValueCollisionPolicy::Overwrite, 0, (0, None), UpsertType::default());
    let previous_min_epoch = corrupt.metrics[corrupt.first_idx].0;
    assert_eq!(previous_min_epoch, 65916);
    let input = (65899, Some(8.0));
    let last_idx = corrupt.get_last_idx();
    assert_eq!(last_idx, 4);
    let inactive_time = input.0 as i64 - corrupt.metrics[last_idx].0 as i64;
    assert_eq!(inactive_time, -21);
    let target_idx = corrupt.get_tail_backwards_offset_idx(inactive_time);
    assert_eq!(target_idx, 8);
    corrupt.upsert(input);
    assert!(corrupt.sanity_check());
    let mut expected: Vec<(u64, Option<f64>)> = (65916..65921u64).map(|e| (e, None)).collect();
    expected.extend((20425..20428u64).map(|e| (e, Some(9.0))));
    expected.push((65899, Some(8.0)));
    expected.extend((65900..65916u64).map(|e| (e, None)));
    assert_eq!(corrupt.metrics, expected);
    let mut date_20201106 = with_entries(
        vec![
            (1604568598, Some(3.0)),
            (1604568599, Some(3.0)),
            (1604568600, None),
            (1604568601, Some(9.0)),
            (1604568602, Some(6.0)),
        ],
        5,
        300,
        ValueCollisionPolicy::Increment,
        0,
        (1604568602, Some(6.0)),
        UpsertType::NewEpoch,
    );
    assert!(date_20201106.sanity_check());
    date_20201106.upsert((1604645848, Some(2.0)));
    assert_eq!(date_20201106.metrics[0], (1604645848, Some(2.0)));
    assert_eq!(date_20201106.first_idx, 0);
    assert_eq!(date_20201106.upsert_type, UpsertType::VectorDiscarded);
    assert_eq!(date_20201106.active_items, 1);
    assert_eq!(date_20201106.get_last_idx(), 0);
    assert_eq!(date_20201106.metrics.len(), 5);
    assert_eq!((date_20201106.get_last_idx() + 1) % date_20201106.metrics_capacity, 1);
    date_20201106.upsert((1604645851, Some(1.0)));
    assert_eq!(date_20201106.metrics[0], (1604645848, Some(2.0)));
    assert_eq!(date_20201106.metrics[1], (1604645849, None));
    assert_eq!(date_20201106.metrics[2], (1604645850, None));
    assert_eq!(date_20201106.metrics[3], (1604645851, Some(1.0)));
}
