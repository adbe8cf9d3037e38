use wwwvm::device::{GuestDevice, MTU};

#[test]
fn frames_keep_their_order_in_both_directions() {
    let mut d = GuestDevice::default();
    assert!(!d.has_egress());
    d.push_guest_frame(vec![1]);
    d.push_guest_frame(vec![2, 2]);
    d.push_egress(vec![3]);
    d.push_egress(vec![4]);
    assert!(d.has_egress());
    assert_eq!(d.pop_guest_frame(), Some(vec![1]));
    assert_eq!(d.pop_guest_frame(), Some(vec![2, 2]));
    assert_eq!(d.pop_guest_frame(), None);
    let f = d.pop_egress().unwrap();
    d.requeue_egress_front(f);
    assert_eq!(d.pop_egress(), Some(vec![3]));
    assert_eq!(d.pop_egress(), Some(vec![4]));
    assert_eq!(d.pop_egress(), None);
    assert_eq!(MTU, 1500);
}
