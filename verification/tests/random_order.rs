use coio::runtime::random_order::{gcd, RandomProcessorOrder};

#[test]
fn random_processor_order() {
    let mut order = RandomProcessorOrder::new();
    order.reset(5);

    assert_eq!(order.iter(0).collect(), vec![0, 1, 2, 3, 4]);
    assert_eq!(order.iter(1).collect(), vec![1, 3, 0, 2, 4]);
    assert_eq!(order.iter(2).collect(), vec![2, 0, 3, 1, 4]);
    assert_eq!(order.iter(3).collect(), vec![3, 2, 1, 0, 4]);
    assert_eq!(order.iter(4).collect(), vec![4, 0, 1, 2, 3]);
    assert_eq!(order.iter(5).collect(), vec![0, 2, 4, 1, 3]);
}

#[test]
fn every_order_visits_everyone_once() {
    for count in 1..40 {
        let mut order = RandomProcessorOrder::new();
        order.reset(count);
        for start in 0..100 {
            let mut visited = order.iter(start).collect();
            assert_eq!(visited[0], start % count);
            visited.sort();
            assert_eq!(visited, (0..count).collect::<Vec<usize>>());
        }
    }
}

#[test]
fn order_iterator_steps() {
    let mut order = RandomProcessorOrder::new();
    order.reset(3);
    let mut iter = order.iter(1);
    assert_eq!(iter.len(), 3);
    assert_eq!(iter.next(), Some(1));
    assert_eq!(iter.next(), Some(0));
    assert_eq!(iter.next(), Some(2));
    assert_eq!(iter.next(), None);
    assert_eq!(iter.next(), None);
}

#[test]
fn gcd_values() {
    assert_eq!(gcd(12, 18), 6);
    assert_eq!(gcd(5, 7), 1);
    assert_eq!(gcd(0, 9), 9);
    assert_eq!(gcd(9, 0), 9);
}
