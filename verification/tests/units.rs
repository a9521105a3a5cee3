use kiro_audio_engine::controller::UpdateContext;
use kiro_audio_engine::graph::GraphTopology;
use kiro_audio_engine::registry::Registry;

#[test]
fn registry_keys_are_stable_across_removal() {
    let mut r: Registry<u32> = Registry::new();
    let a = r.add(10);
    let b = r.add(20);
    let c = r.add(30);
    assert_eq!((a, b, c), (0, 1, 2));
    assert_eq!(r.len(), 3);
    assert_eq!(r.keys(), vec![0, 1, 2]);

    assert!(r.remove(b));
    assert!(!r.remove(b));
    assert_eq!(r.len(), 2);
    assert_eq!(r.keys(), vec![0, 2]);
    assert!(r.get(b).is_none());
    assert_eq!(r.get(c).copied(), Some(30));

    // a removed slot is never reused: the next key is fresh
    let d = r.add(40);
    assert_eq!(d, 3);
    assert_eq!(r.get(a).copied(), Some(10));
}

#[test]
fn registry_set_overwrites_live_slots_only() {
    let mut r: Registry<u32> = Registry::new();
    let a = r.add(1);
    assert!(r.set(a, 2));
    assert_eq!(r.get(a).copied(), Some(2));
    assert!(!r.set(9, 5));
    assert_eq!(r.len(), 1);
}

#[test]
fn free_pool_union_and_difference() {
    let topology = GraphTopology { nodes: Vec::new(), destination_counts: vec![7, 7] };
    let mut ctx = UpdateContext::new(&topology, vec![1, 2, 3]);
    assert_eq!(ctx.destination_counts, vec![7, 7]);

    ctx.add_to_free_buffers(&vec![3, 4]);
    let mut pool = ctx.free_buffers.clone();
    pool.sort();
    assert_eq!(pool, vec![1, 2, 3, 4]);

    ctx.remove_from_free_buffers(&vec![2, 9]);
    let mut pool2 = ctx.free_buffers.clone();
    pool2.sort();
    assert_eq!(pool2, vec![1, 3, 4]);
}
