use ground_station::saved_config::SavedConfig;

#[test]
fn pairs_are_kept_in_order_up_to_the_capacity() {
    let saved: SavedConfig<2> = SavedConfig::new();
    assert_eq!(saved.as_slice(), &[]);
    let saved = saved.with(("rate", 1)).with(("gain", 2));
    assert_eq!(saved.as_slice(), &[("rate", 1), ("gain", 2)]);
    let saved = saved.with(("mode", 3));
    assert_eq!(saved.as_slice(), &[("rate", 1), ("gain", 2)]);
}
