use nunitius::ids::{IdGenerator, SenderId, ViewerId};

#[test]
fn it_works() {
    let mut id_generator = IdGenerator::default();

    assert_eq!(id_generator.next_sender_id(), SenderId(0));
    assert_eq!(id_generator.next_sender_id(), SenderId(1));

    assert_eq!(id_generator.next_viewer_id(), ViewerId(0));
    assert_eq!(id_generator.next_viewer_id(), ViewerId(1));

    assert_eq!(id_generator.next_viewer_id(), ViewerId(2));
    assert_eq!(id_generator.next_sender_id(), SenderId(2));
    assert_eq!(id_generator.next_viewer_id(), ViewerId(3));
    assert_eq!(id_generator.next_sender_id(), SenderId(3));
    assert_eq!(id_generator.next_viewer_id(), ViewerId(4));
}
