use coio::runtime::stack_pool::{StackPool, StackUnavailable};
use context::stack::{ProtectedFixedSizeStack, StackError};

#[test]
fn stack_pool_basic() {
    let mut pool = StackPool::new(None, None);
    let stack = pool.allocate(1024).unwrap();
    pool.deallocate(stack);
}

#[test]
fn stack_pool_strink() {
    let mut pool = StackPool::new(Some(1024), Some(2048));
    let stack1 = pool.allocate(1024).unwrap();
    let stack2 = pool.allocate(1024).unwrap();
    let stack3 = pool.allocate(1024).unwrap();

    assert_eq!(pool.total_size(), 0);

    pool.deallocate(stack1);
    assert_eq!(pool.total_size(), 1024);

    pool.deallocate(stack2);
    assert_eq!(pool.total_size(), 2048);

    pool.deallocate(stack3);
    assert_eq!(pool.total_size(), 1024);
}

#[test]
fn stack_pool_strink_without_lwm() {
    let mut pool = StackPool::new(None, Some(2048));
    let stack1 = pool.allocate(1024).unwrap();
    let stack2 = pool.allocate(1024).unwrap();
    let stack3 = pool.allocate(1024).unwrap();

    assert_eq!(pool.total_size(), 0);

    pool.deallocate(stack1);
    assert_eq!(pool.total_size(), 1024);

    pool.deallocate(stack2);
    assert_eq!(pool.total_size(), 2048);

    pool.deallocate(stack3);
    assert_eq!(pool.total_size(), 2048);
}

#[test]
fn pool_hands_out_what_came_back_last() {
    let mut pool = StackPool::new(None, None);
    let first = pool.allocate(4096).unwrap();
    let second = pool.allocate(4096).unwrap();
    let top = second.inner().top();
    pool.deallocate(first);
    pool.deallocate(second);
    assert_eq!(pool.total_size(), 8192);
    let again = pool.allocate(4096).unwrap();
    assert_eq!(again.size(), 4096);
    assert_eq!(again.inner().top(), top);
    assert_eq!(pool.total_size(), 4096);
}

#[test]
fn pool_drops_the_least_recently_used_size() {
    let mut pool = StackPool::new(Some(4096), Some(8192));
    let old = pool.allocate(4096).unwrap();
    let new = pool.allocate(8192).unwrap();
    let new_top = new.inner().top();
    pool.deallocate(old);
    assert_eq!(pool.total_size(), 4096);
    // 12288 bytes are too many: first the older stack goes, and as 8192 bytes are still above the
    // low water mark, so does the other one.
    pool.deallocate(new);
    assert_eq!(pool.total_size(), 0);

    let mut pool = StackPool::new(Some(8192), Some(8192));
    let old = pool.allocate(4096).unwrap();
    let new = pool.allocate(8192).unwrap();
    pool.deallocate(old);
    pool.deallocate(new);
    assert_eq!(pool.total_size(), 8192);
    let kept = pool.allocate(8192).unwrap();
    assert_eq!(pool.total_size(), 0);
    assert_eq!(kept.size(), 8192);
    let _ = new_top;
}

#[test]
fn pool_reports_stacks_that_cannot_be_made() {
    let mut pool = StackPool::new(None, None);
    match pool.allocate(1 << 62) {
        Ok(_) => panic!("no machine has that much memory"),
        Err(unavailable) => assert_eq!(unavailable.size, 1 << 62),
    }
    assert_eq!(pool.total_size(), 0);
}

#[test]
fn shrinking_releases_no_more_than_needed() {
    let mut pool = StackPool::new(Some(3 * 1024), Some(4 * 1024));
    let stacks: Vec<_> = (0..5).map(|_| pool.allocate(1024).unwrap()).collect();
    let mut sizes = Vec::new();
    for stack in stacks {
        pool.deallocate(stack);
        sizes.push(pool.total_size());
        pool.try_shrink();
        assert_eq!(pool.total_size(), *sizes.last().unwrap());
    }
    assert_eq!(sizes, vec![1024, 2048, 3072, 4096, 3072]);
}

#[test]
fn stacks_are_as_large_as_asked_for() {
    for size in [1, 4096, 10_000, 128 * 1024] {
        let stack = StackPool::raw_allocate(size).unwrap();
        assert_eq!(stack.size(), size);
        assert!(stack.len() >= size);
        assert_eq!(stack.len(), stack.inner().len());
    }
    let mut pool = StackPool::new(None, None);
    let stack = pool.allocate(5000).unwrap();
    pool.deallocate(stack);
    assert!(pool.allocate(5000).unwrap().len() >= 5000);
}

#[test]
fn answer_of_the_system_decides() {
    let memory = ProtectedFixedSizeStack::new(4096).unwrap();
    let (top, len) = (memory.top(), memory.len());
    let stack = StackPool::from_system(4096, Ok((memory, len))).unwrap();
    assert_eq!((stack.inner().top(), stack.len(), stack.size()), (top, len, 4096));
    let refused = StackPool::from_system(7, Err(StackError::ExceedsMaximumSize(5)));
    assert_eq!(refused.err(), Some(StackUnavailable { size: 7 }));
}
