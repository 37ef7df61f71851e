use http_replay_bench::hud::{
    HudLine, RunCounter, RunCounterLayer, DRIVER_SPAN, REFRESH_MS, TEMPLATE,
};

#[test]
fn only_driver_spans_are_counted() {
    let mut layer = RunCounterLayer::new(RunCounter::default());
    assert_eq!((layer.counter().active(), layer.counter().finished()), (0, 0));
    layer.on_new_span("driver.run");
    layer.on_new_span(DRIVER_SPAN);
    layer.on_new_span("worker");
    assert_eq!((layer.counter().active(), layer.counter().finished()), (2, 0));
    layer.on_close(Some("driver.run"));
    layer.on_close(Some("worker"));
    layer.on_close(None);
    assert_eq!((layer.counter().active(), layer.counter().finished()), (1, 1));
    layer.on_close(Some("driver.run"));
    assert_eq!((layer.counter().active(), layer.counter().finished()), (0, 2));
}

#[test]
fn layer_counts_on_in_its_counter() {
    let mut first = RunCounterLayer::new(RunCounter::default());
    first.on_new_span("driver.run");
    assert_eq!(first.counter().active(), 1);
    first.on_close(Some("driver.run"));
    let counter = first.counter();
    assert_eq!((counter.active(), counter.finished()), (0, 1));
}

#[test]
fn finished_runs_stay_finished() {
    let mut layer = RunCounterLayer::default();
    let mut before = 0;
    for name in ["driver.run", "worker", "driver.run", "run"] {
        layer.on_new_span(name);
        assert_eq!(layer.counter().finished(), before);
        layer.on_close(Some(name));
        assert!(layer.counter().finished() >= before);
        before = layer.counter().finished();
    }
    assert_eq!(before, 2);
}

#[test]
fn tallies_wrap() {
    let mut layer = RunCounterLayer::default();
    layer.on_close(Some("driver.run"));
    assert_eq!(layer.counter().active(), usize::MAX);
    layer.on_new_span("driver.run");
    assert_eq!(layer.counter().active(), 0);
}

#[test]
fn filter_picks_the_driver_span() {
    assert!(RunCounterLayer::filter(true, "driver.run"));
    assert!(!RunCounterLayer::filter(false, "driver.run"));
    assert!(!RunCounterLayer::filter(true, "driver.runs"));
}

#[test]
fn columns_are_right_aligned() {
    let mut layer = RunCounterLayer::new(RunCounter::default());
    assert_eq!(layer.counter().active_column(), "     0");
    for _ in 0..12 {
        layer.on_new_span("driver.run");
        layer.on_close(Some("driver.run"));
    }
    layer.on_new_span("driver.run");
    assert_eq!(layer.counter().active_column(), format!("{:>6}", 1));
    assert_eq!(layer.counter().finished_column(), format!("{:>7}", 12));
    layer.on_close(Some("driver.run"));
    layer.on_close(Some("driver.run"));
    assert_eq!(layer.counter().active_column(), usize::MAX.to_string());
}

#[test]
fn constants() {
    assert_eq!(DRIVER_SPAN, "driver.run");
    assert_eq!(REFRESH_MS, 250);
    assert_eq!(
        TEMPLATE,
        "{spinner} [{elapsed_precise}] active clients: {active}  finished: {finished} ({rate})"
    );
}

#[test]
fn line_is_emitted_once() {
    let mut line = HudLine::new();
    assert_eq!(line.emit(), None);
    assert_eq!(line.write(b"INFO "), 5);
    assert_eq!(line.write(b""), 0);
    assert_eq!(line.write(b"hello\n"), 6);
    assert_eq!(line.emit(), Some(b"INFO hello\n".to_vec()));
    assert_eq!(line.emit(), None);
    line.write(b"again");
    assert_eq!(line.emit(), Some(b"again".to_vec()));
}
