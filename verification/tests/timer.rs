use coop_executor::timer::Ticker;

#[test]
fn the_ticker_gives_the_next_tick_at_every_reading() {
    let mut ticker = Ticker::new();
    assert!(ticker.has_next());
    assert_eq!(ticker.get_ticks(), 0);
    assert_eq!(ticker.get_ticks(), 1);
    assert_eq!(ticker.get_ticks(), 2);
    assert!(ticker.has_next());
}
