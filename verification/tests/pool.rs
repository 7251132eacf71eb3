use lodtree::pool::ResourcePool;
use lodtree::rect::{Rect, Vec2i};

fn unit_rect() -> Rect {
    Rect::from_center_size(Vec2i { x: 0, y: 0 }, Vec2i { x: 1000, y: 1000 })
}

#[test]
fn fresh_handles_count_up() {
    let mut pool = ResourcePool::new();
    assert_eq!(pool.acquire(unit_rect()), 0);
    assert_eq!(pool.acquire(unit_rect()), 1);
    assert_eq!(pool.acquire(unit_rect()), 2);
    assert_eq!(pool.next_id, 3);
    assert_eq!(pool.free.len(), 0);
}

#[test]
fn released_handles_are_reused_oldest_first() {
    let mut pool = ResourcePool::new();
    let a = pool.acquire(unit_rect());
    let b = pool.acquire(unit_rect());
    let c = pool.acquire(unit_rect());
    pool.release(b);
    pool.release(a);
    pool.release(c);
    // FIFO: the longest-idle renderable comes back first
    assert_eq!(pool.acquire(unit_rect()), b);
    assert_eq!(pool.acquire(unit_rect()), a);
    assert_eq!(pool.acquire(unit_rect()), c);
    assert_eq!(pool.next_id, 3, "nothing was allocated beyond the first three");
}

#[test]
fn live_count_is_acquires_minus_releases() {
    let mut pool = ResourcePool::new();
    let live = |p: &ResourcePool| p.next_id as usize - p.free.len();
    assert_eq!(live(&pool), 0);
    let a = pool.acquire(unit_rect());
    let b = pool.acquire(unit_rect());
    assert_eq!(live(&pool), 2);
    pool.release(a);
    assert_eq!(live(&pool), 1);
    let c = pool.acquire(unit_rect());
    let d = pool.acquire(unit_rect());
    assert_eq!(live(&pool), 3);
    pool.release(b);
    pool.release(c);
    pool.release(d);
    assert_eq!(live(&pool), 0);
}

#[test]
fn two_acquires_never_share_a_handle() {
    let mut pool = ResourcePool::new();
    let a = pool.acquire(unit_rect());
    let b = pool.acquire(unit_rect());
    assert_ne!(a, b);
    pool.release(a);
    let c = pool.acquire(unit_rect());
    let d = pool.acquire(unit_rect());
    assert_ne!(c, d);
    assert_eq!(c, a, "the released handle may come back");
}
