//! Sessions are wired to tokio's broadcast channel as their hub; these tests
//! check the delivery that the relay relies on.
use tokio::sync::broadcast;

#[test]
fn hub_fans_out_every_message_in_order() {
    let (tx, _keep) = broadcast::channel::<String>(100);
    let mut receivers: Vec<_> = (0..3).map(|_| tx.subscribe()).collect();
    let sent: Vec<String> = (0..5).map(|i| format!("m{}", i)).collect();
    for m in &sent {
        tx.send(m.clone()).unwrap();
    }
    for rx in receivers.iter_mut() {
        let got: Vec<String> = (0..5).map(|_| rx.try_recv().unwrap()).collect();
        assert_eq!(got, sent);
        assert!(rx.try_recv().is_err());
    }
}

#[test]
fn slow_receiver_loses_its_oldest_messages_only() {
    // tokio rounds the capacity of 100 up to 128 buffered messages.
    let (tx, mut fast) = broadcast::channel::<String>(100);
    let mut slow = tx.subscribe();
    for i in 0..129 {
        tx.send(format!("m{}", i)).unwrap();
        assert_eq!(fast.try_recv().unwrap(), format!("m{}", i));
    }
    assert!(matches!(slow.try_recv(), Err(broadcast::error::TryRecvError::Lagged(1))));
    assert_eq!(slow.try_recv().unwrap(), "m1");
}

#[test]
fn publishing_without_receivers_is_no_failure_of_the_hub() {
    let (tx, rx) = broadcast::channel::<String>(100);
    drop(rx);
    assert!(tx.send("nobody".to_string()).is_err());
    let mut late = tx.subscribe();
    tx.send("seen".to_string()).unwrap();
    assert_eq!(late.try_recv().unwrap(), "seen");
}
