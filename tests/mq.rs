use rust_image_fiddler::message::Message;
use rust_image_fiddler::mq::{mq, send_step, take_oldest, TryRecvError};
use std::collections::VecDeque;

#[test]
fn queue_is_fifo() {
    let (tx, rx) = mq::<i32>();
    assert!(tx.is_empty().ok().unwrap());
    tx.send(1).ok().unwrap();
    tx.send(2).ok().unwrap();
    tx.send(3).ok().unwrap();
    assert!(!tx.is_empty().ok().unwrap());
    assert_eq!(rx.recv().ok().unwrap(), 1);
    assert_eq!(rx.recv().ok().unwrap(), 2);
    assert_eq!(rx.try_recv().ok().unwrap(), 3);
    assert!(matches!(rx.try_recv(), Err(TryRecvError::Empty)));
}

#[test]
fn replace_if_never_true_acts_as_send() {
    let (tx, rx) = mq::<i32>();
    for i in 0..5 {
        tx.send_or_replace_if(|_| false, i).ok().unwrap();
    }
    let all = rx.drain().ok().unwrap();
    assert_eq!(&*all, &[0, 1, 2, 3, 4]);
}

#[test]
fn replace_if_always_true_keeps_length() {
    let (tx, rx) = mq::<i32>();
    tx.send(10).ok().unwrap();
    tx.send(20).ok().unwrap();
    tx.send_or_replace_if(|_| true, 30).ok().unwrap();
    tx.send_or_replace_if(|_| true, 40).ok().unwrap();
    let all = rx.drain().ok().unwrap();
    assert_eq!(&*all, &[10, 40]);
}

#[test]
fn replace_if_on_empty_queue_appends() {
    let (tx, rx) = mq::<i32>();
    tx.send_or_replace_if(|_| true, 5).ok().unwrap();
    assert_eq!(rx.recv().ok().unwrap(), 5);
}

#[test]
fn send_or_replace_overwrites_last() {
    let (tx, rx) = mq::<i32>();
    tx.send_or_replace(1).ok().unwrap();
    tx.send_or_replace(2).ok().unwrap();
    tx.send(3).ok().unwrap();
    tx.send_or_replace(4).ok().unwrap();
    assert_eq!(&*rx.drain().ok().unwrap(), &[2, 4]);
}

#[test]
fn updates_coalesce_but_others_stay() {
    let (tx, rx) = mq::<Message>();
    tx.send(Message::Clear).ok().unwrap();
    tx.send_or_replace_if(Message::is_update, Message::Update(1)).ok().unwrap();
    tx.send_or_replace_if(Message::is_update, Message::Update(2)).ok().unwrap();
    tx.send_or_replace_if(Message::is_update, Message::Update(3)).ok().unwrap();
    tx.send_or_replace_if(Message::is_update, Message::Stop).ok().unwrap();
    tx.send_or_replace_if(Message::is_update, Message::Update(4)).ok().unwrap();
    // A pending update is replaced by whatever comes next; the new message
    // itself is always kept.
    let got = rx.drain().ok().unwrap();
    assert_eq!(&*got, &[Message::Clear, Message::Stop, Message::Update(4)]);
}

#[test]
fn received_element_is_not_replaced_afterwards() {
    let (tx, rx) = mq::<Message>();
    tx.send_or_replace_if(Message::is_update, Message::Update(1)).ok().unwrap();
    assert_eq!(rx.recv().ok().unwrap(), Message::Update(1));
    tx.send_or_replace_if(Message::is_update, Message::Update(2)).ok().unwrap();
    assert_eq!(rx.recv().ok().unwrap(), Message::Update(2));
}

#[test]
fn cloned_sender_feeds_same_queue() {
    let (tx, rx) = mq::<i32>();
    let tx2 = tx.clone();
    tx.send(1).ok().unwrap();
    tx2.send(2).ok().unwrap();
    assert_eq!(&*rx.drain().ok().unwrap(), &[1, 2]);
}

#[test]
fn message_is_update() {
    assert!(Message::Update(3).is_update());
    assert!(!Message::Clear.is_update());
    assert!(!Message::Stop.is_update());
}

#[test]
fn queue_steps() {
    let mut q: VecDeque<i32> = VecDeque::new();
    assert!(send_step(&mut q, true, 1));
    assert!(!send_step(&mut q, true, 2));
    assert!(send_step(&mut q, false, 3));
    assert_eq!(take_oldest(&mut q), Some(2));
    assert_eq!(take_oldest(&mut q), Some(3));
    assert_eq!(take_oldest(&mut q), None);
}
