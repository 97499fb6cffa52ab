use http_core::admission::{AdmissionController, MAX_CONNECTIONS};

#[test]
fn capacity_bounds_admissions() {
    let c = AdmissionController::new(2);
    assert_eq!(c.capacity(), 2);
    let a = c.try_admit().unwrap();
    let _b = c.try_admit().unwrap();
    assert!(c.try_admit().is_none());
    drop(a);
    let _c = c.try_admit().unwrap();
    assert!(c.try_admit().is_none());
}

#[test]
fn one_release_wakes_exactly_one_waiter() {
    let rt = tokio::runtime::Builder::new_current_thread()
        .enable_all()
        .build()
        .unwrap();
    rt.block_on(async {
        let c = AdmissionController::new(1);
        let held = c.try_admit().unwrap();
        let first = c.pool();
        let second = c.pool();
        let w1 = tokio::spawn(async move { first.acquire_owned().await.unwrap() });
        let w2 = tokio::spawn(async move { second.acquire_owned().await.unwrap() });
        for _ in 0..4 {
            tokio::task::yield_now().await;
        }
        assert!(!w1.is_finished());
        assert!(!w2.is_finished());
        drop(held);
        for _ in 0..4 {
            tokio::task::yield_now().await;
        }
        let done = [w1.is_finished(), w2.is_finished()];
        assert_eq!(done.iter().filter(|d| **d).count(), 1);
        w1.abort();
        w2.abort();
    });
}

#[test]
fn default_capacity() {
    assert_eq!(MAX_CONNECTIONS, 10000);
    assert_eq!(AdmissionController::new(MAX_CONNECTIONS).capacity(), 10000);
}
