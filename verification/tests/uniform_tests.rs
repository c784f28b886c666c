use tiled_life::uniform::SimpleUniformHelper;

#[test]
fn fresh_helper_owes_no_upload() {
    let mut h = SimpleUniformHelper::from_inner(5u32);
    assert_eq!(*h.inner(), 5);
    assert!(!h.update_buffer());
}

#[test]
fn mutation_then_upload_then_idle() {
    let mut h = SimpleUniformHelper::from_inner(5u32);
    h.update_inner(7);
    assert_eq!(*h.inner(), 7);
    // The first upload call after a mutation performs the write...
    assert!(h.update_buffer());
    // ...and a second consecutive call performs none.
    assert!(!h.update_buffer());
    assert_eq!(*h.inner(), 7);
}

#[test]
fn combined_update_always_uploads() {
    let mut h = SimpleUniformHelper::from_inner([1u32, 2, 3]);
    assert!(h.update([4, 5, 6]));
    assert_eq!(*h.inner(), [4, 5, 6]);
    assert!(!h.update_buffer());
}

#[test]
fn repeated_mutations_need_one_upload() {
    let mut h = SimpleUniformHelper::from_inner(0u64);
    h.update_inner(1);
    h.update_inner(2);
    h.update_inner(3);
    assert!(h.update_buffer());
    assert_eq!(*h.inner(), 3);
    assert!(!h.update_buffer());
}
