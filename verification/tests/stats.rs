use floresta_peers::stats::NetworkStats;

#[test]
fn total_adds_new_and_tried() {
    let stats = NetworkStats { new: 3, tried: 4 };
    assert_eq!(stats.total(), 7);
}
