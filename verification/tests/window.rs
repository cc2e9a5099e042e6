use wow_recorder::window::client_size;

#[test]
fn client_size_of_rect() {
    assert_eq!(client_size(0, 0, 1920, 1080), Some((1920, 1080)));
    assert_eq!(client_size(0, 0, 0, 1080), None);
    assert_eq!(client_size(0, 0, 800, 0), None);
    assert_eq!(client_size(10, 0, 5, 100), Some((u32::MAX - 4, 100)));
}
