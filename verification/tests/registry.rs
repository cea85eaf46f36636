use rds::backend::compute_backend::ArrayRegistry;

#[test]
fn registry_gives_numbers_in_turn() {
    let mut registry = ArrayRegistry::<u64>::new();
    assert!(!registry.contains(0));
    assert_eq!(registry.register_array(100, 16), 0);
    assert_eq!(registry.register_array(200, 32), 1);
    assert!(registry.contains(1));
    assert!(!registry.contains(2));
    assert_eq!(registry.get_array(0), 100);
    assert_eq!(registry.get_array(1), 200);
    assert_eq!(registry.get_array_size(0), 16);
    assert_eq!(registry.get_array_size(1), 32);
}

#[test]
fn registry_gives_freed_numbers_again() {
    let mut registry = ArrayRegistry::<u64>::new();
    registry.register_array(100, 16);
    registry.register_array(200, 32);
    registry.register_array(300, 48);
    registry.unregister_array(0);
    registry.unregister_array(2);
    assert_eq!(registry.get_array_size(0), 0);
    assert_eq!(registry.get_array_size(2), 0);
    assert_eq!(registry.get_array_size(1), 32);
    assert_eq!(registry.register_array(400, 64), 2);
    assert_eq!(registry.register_array(500, 64), 0);
    assert_eq!(registry.get_array_size(2), 0);
    assert_eq!(registry.register_array(600, 8), 3);
    assert_eq!(registry.get_array(3), 600);
    assert_eq!(registry.get_array_size(3), 8);
}
