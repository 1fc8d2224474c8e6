use tcp_rust::channel::channel;

#[test]
fn test_channel() {
    let (sender, mut receiver) = channel();
    sender.send(42);
    assert_eq!(receiver.recv(), Some(42));
}

#[test]
fn test_channel_closed() {
    let (tx, mut rx) = channel::<()>();
    drop(tx);
    assert_eq!(rx.recv(), None);
}

#[test]
fn channel_keeps_order_across_buffer() {
    let (tx, mut rx) = channel();
    tx.send(1);
    tx.send(2);
    tx.send(3);
    assert_eq!(rx.recv(), Some(1));
    tx.send(4);
    assert_eq!(rx.recv(), Some(2));
    assert_eq!(rx.recv(), Some(3));
    assert_eq!(rx.recv(), Some(4));
    assert_eq!(rx.recv(), None);
}

#[test]
fn channel_try_recv_and_cloned_sender() {
    let (tx, rx) = channel();
    let tx2 = tx.clone_sender();
    assert_eq!(rx.try_recv(), None);
    tx2.send(7u8);
    tx.send(8u8);
    assert_eq!(rx.try_recv(), Some(7));
    assert_eq!(rx.try_recv(), Some(8));
    drop(tx2);
    drop(tx);
    assert_eq!(rx.try_recv(), None);
}
