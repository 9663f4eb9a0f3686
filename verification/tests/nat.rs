use peeroxide::hyperdht_messages::{
    FIREWALL_CONSISTENT, FIREWALL_OPEN, FIREWALL_RANDOM, FIREWALL_UNKNOWN,
};
use peeroxide::messages::Ipv4Peer;
use peeroxide::nat_analysis::{add_sample, AutoSample, Nat, NAT_MIN_SAMPLES};

fn peer(host: &str, port: u16) -> Ipv4Peer {
    Ipv4Peer { host: host.into(), port }
}

#[test]
fn new_firewalled_starts_unknown() {
    let nat = Nat::new(true);
    assert_eq!(nat.firewall, FIREWALL_UNKNOWN);
    assert!(nat.addresses.is_none());
    assert_eq!(nat.sampled, 0);
}

#[test]
fn new_not_firewalled_starts_open() {
    let nat = Nat::new(false);
    assert_eq!(nat.firewall, FIREWALL_OPEN);
}

#[test]
fn add_sample_sorting() {
    let mut samples = Vec::new();
    add_sample(&mut samples, "1.2.3.4", 1000);
    add_sample(&mut samples, "5.6.7.8", 2000);
    add_sample(&mut samples, "1.2.3.4", 1000);
    assert_eq!(samples[0].host, "1.2.3.4");
    assert_eq!(samples[0].hits, 2);
    assert_eq!(samples[1].host, "5.6.7.8");
    assert_eq!(samples[1].hits, 1);
}

#[test]
fn add_sample_triple_hit_stays_sorted() {
    let mut samples = Vec::new();
    add_sample(&mut samples, "a", 1);
    add_sample(&mut samples, "b", 2);
    add_sample(&mut samples, "c", 3);
    add_sample(&mut samples, "b", 2);
    add_sample(&mut samples, "b", 2);
    assert_eq!(samples[0].host, "b");
    assert_eq!(samples[0].hits, 3);
}

#[test]
fn samples_of_equal_hits_keep_their_order() {
    let mut samples = Vec::new();
    for host in ["a", "b", "c", "a", "c"] {
        add_sample(&mut samples, host, 1);
    }
    let hosts: Vec<&str> = samples.iter().map(|s| s.host.as_str()).collect();
    assert_eq!(hosts, vec!["a", "c", "b"]);
    add_sample(&mut samples, "a", 2);
    assert_eq!(samples.len(), 4);
}

#[test]
fn consistent_nat_three_same_port() {
    let mut nat = Nat::new(true);
    nat.add(&peer("1.2.3.4", 5000), &peer("10.0.0.1", 1));
    nat.add(&peer("1.2.3.4", 5000), &peer("10.0.0.2", 2));
    nat.add(&peer("1.2.3.4", 5000), &peer("10.0.0.3", 3));
    assert_eq!(nat.firewall, FIREWALL_CONSISTENT);
    assert!(nat.addresses.is_some());
    let addrs = nat.addresses.as_ref().unwrap();
    assert_eq!(addrs[0].host, "1.2.3.4");
    assert_eq!(addrs[0].port, 5000);
}

#[test]
fn random_nat_all_different_ports() {
    let mut nat = Nat::new(true);
    nat.add(&peer("1.2.3.4", 5000), &peer("10.0.0.1", 1));
    nat.add(&peer("1.2.3.4", 5001), &peer("10.0.0.2", 2));
    nat.add(&peer("1.2.3.4", 5002), &peer("10.0.0.3", 3));
    assert_eq!(nat.firewall, FIREWALL_RANDOM);
    let addrs = nat.addresses.as_ref().unwrap();
    assert_eq!(addrs.len(), 1);
    assert_eq!(addrs[0].host, "1.2.3.4");
    assert_eq!(addrs[0].port, 0);
}

#[test]
fn duplicate_from_ignored() {
    let mut nat = Nat::new(true);
    let from = peer("10.0.0.1", 1);
    nat.add(&peer("1.2.3.4", 5000), &from);
    nat.add(&peer("1.2.3.4", 5000), &from);
    assert_eq!(nat.sampled, 1);
}

#[test]
fn freeze_prevents_update() {
    let mut nat = Nat::new(true);
    nat.freeze();
    nat.add(&peer("1.2.3.4", 5000), &peer("10.0.0.1", 1));
    nat.add(&peer("1.2.3.4", 5000), &peer("10.0.0.2", 2));
    nat.add(&peer("1.2.3.4", 5000), &peer("10.0.0.3", 3));
    assert_eq!(nat.firewall, FIREWALL_UNKNOWN);
    assert!(nat.addresses.is_none());

    nat.unfreeze();
    assert_eq!(nat.firewall, FIREWALL_CONSISTENT);
    assert!(nat.addresses.is_some());
}

#[test]
fn not_firewalled_always_open() {
    let mut nat = Nat::new(false);
    nat.add(&peer("1.2.3.4", 5000), &peer("10.0.0.1", 1));
    assert_eq!(nat.firewall, FIREWALL_OPEN);
}

#[test]
fn mark_visited_dedup() {
    let mut nat = Nat::new(true);
    assert!(nat.mark_visited("1.2.3.4", 1000));
    assert!(!nat.mark_visited("1.2.3.4", 1000));
}

#[test]
fn a_node_that_was_asked_can_still_report() {
    let mut nat = Nat::new(true);
    assert!(nat.mark_visited("10.0.0.1", 1));
    nat.add(&peer("1.2.3.4", 5000), &peer("10.0.0.1", 1));
    assert_eq!(nat.sampled, 1);
    assert!(!nat.mark_visited("10.0.0.1", 1));
}

#[test]
fn two_hits_multi_host_consistent() {
    let mut nat = Nat::new(true);
    nat.add(&peer("1.2.3.4", 5000), &peer("10.0.0.1", 1));
    nat.add(&peer("1.2.3.4", 5000), &peer("10.0.0.2", 2));
    nat.add(&peer("5.6.7.8", 5000), &peer("10.0.0.3", 3));
    assert_eq!(nat.firewall, FIREWALL_UNKNOWN);

    nat.add(&peer("5.6.7.8", 5000), &peer("10.0.0.4", 4));
    assert_eq!(nat.firewall, FIREWALL_CONSISTENT);
}

#[test]
fn two_hits_single_host_over_three_random() {
    let mut nat = Nat::new(true);
    nat.add(&peer("1.2.3.4", 5000), &peer("10.0.0.1", 1));
    nat.add(&peer("1.2.3.4", 5000), &peer("10.0.0.2", 2));
    nat.add(&peer("1.2.3.4", 5001), &peer("10.0.0.3", 3));
    assert_eq!(nat.firewall, FIREWALL_UNKNOWN);

    nat.add(&peer("1.2.3.4", 5002), &peer("10.0.0.4", 4));
    assert_eq!(nat.firewall, FIREWALL_RANDOM);
}

#[test]
fn over_four_samples_no_decision_random() {
    let mut nat = Nat::new(true);
    nat.add(&peer("1.2.3.4", 5000), &peer("10.0.0.1", 1));
    nat.add(&peer("5.6.7.8", 6000), &peer("10.0.0.2", 2));
    nat.add(&peer("1.2.3.4", 5000), &peer("10.0.0.3", 3));
    assert_eq!(nat.firewall, FIREWALL_UNKNOWN);

    nat.add(&peer("9.9.9.9", 7000), &peer("10.0.0.4", 4));
    assert_eq!(nat.firewall, FIREWALL_UNKNOWN);

    nat.add(&peer("8.8.8.8", 8000), &peer("10.0.0.5", 5));
    assert_eq!(nat.firewall, FIREWALL_RANDOM);
}

#[test]
fn update_resets_open_if_firewalled() {
    let mut nat = Nat::new(false);
    assert_eq!(nat.firewall, FIREWALL_OPEN);

    nat.firewalled = true;
    nat.update();
    assert_eq!(nat.firewall, FIREWALL_UNKNOWN);
}

#[test]
fn consistent_addresses_include_high_hit_entries() {
    let mut nat = Nat::new(true);
    nat.add(&peer("1.2.3.4", 5000), &peer("10.0.0.1", 1));
    nat.add(&peer("1.2.3.4", 5000), &peer("10.0.0.2", 2));
    nat.add(&peer("1.2.3.4", 5000), &peer("10.0.0.3", 3));
    assert_eq!(nat.firewall, FIREWALL_CONSISTENT);

    let addrs = nat.addresses.as_ref().unwrap();
    assert_eq!(addrs.len(), 1);
    assert_eq!(addrs[0].port, 5000);

    nat.add(&peer("1.2.3.4", 6000), &peer("10.0.0.4", 4));
    let addrs = nat.addresses.as_ref().unwrap();
    assert!(addrs.len() >= 2);
}

#[test]
fn analyzing_resolves_on_consistent() {
    let mut nat = Nat::new(true);
    assert!(!nat.analyzing_settled());

    nat.add(&peer("1.2.3.4", 5000), &peer("100.0.0.1", 1));
    nat.add(&peer("1.2.3.4", 5000), &peer("100.0.0.2", 1));
    assert!(!nat.analyzing_settled());
    nat.add(&peer("1.2.3.4", 5000), &peer("100.0.0.3", 1));

    assert_eq!(nat.firewall, FIREWALL_CONSISTENT);
    assert!(nat.is_settled());
    assert!(nat.analyzing_settled());
}

#[test]
fn analyzing_resolves_on_min_samples_exhaustion() {
    let mut nat = Nat::new(true);

    nat.add(&peer("1.2.3.4", 1), &peer("100.0.0.1", 1));
    nat.add(&peer("1.2.3.4", 2), &peer("100.0.0.2", 1));
    nat.add(&peer("1.2.3.4", 3), &peer("100.0.0.3", 1));
    assert!(!nat.analyzing_settled());
    nat.add(&peer("1.2.3.4", 4), &peer("100.0.0.4", 1));

    assert!(nat.sampled >= NAT_MIN_SAMPLES);
    assert!(!nat.is_settled());
    assert!(nat.analyzing_settled());
}

#[test]
fn analyzing_resolves_on_destroy() {
    let mut nat = Nat::new(true);
    nat.destroy();
    assert!(nat.analyzing_settled());
}

#[test]
fn settled_state_after_three_consistent_samples() {
    let mut nat = Nat::new(true);
    nat.add(&peer("1.2.3.4", 5000), &peer("10.0.0.1", 1));
    nat.add(&peer("1.2.3.4", 5000), &peer("10.0.0.2", 2));
    nat.add(&peer("1.2.3.4", 5000), &peer("10.0.0.3", 3));
    assert_eq!(nat.firewall, FIREWALL_CONSISTENT);
    assert!(nat.firewall != FIREWALL_UNKNOWN);
    assert!(AutoSample::plan(&nat, vec![peer("10.0.0.9", 9)], 4).is_none());
}

#[test]
fn auto_sample_takes_answers_until_the_nat_is_classified() {
    let mut nat = Nat::new(true);
    assert!(AutoSample::plan(&nat, vec![], 4).is_none());
    let candidates: Vec<Ipv4Peer> = (0..9).map(|i| peer("127.0.0.1", 9000 + i)).collect();
    let (run, nodes) = AutoSample::plan(&nat, candidates, 4).unwrap();
    assert_eq!(nodes.len(), 4);

    assert!(!run.on_reply(&mut nat, None, &nodes[0]));
    assert_eq!(run.added(&nat), 0);
    let to = peer("127.0.0.1", 5000);
    assert!(!run.on_reply(&mut nat, Some(&to), &nodes[0]));
    assert!(!run.on_reply(&mut nat, Some(&to), &nodes[1]));
    assert!(run.on_reply(&mut nat, Some(&to), &nodes[2]));
    assert_eq!(run.added(&nat), 3);
    assert_eq!(nat.firewall, FIREWALL_CONSISTENT);
}

#[test]
fn a_consistent_verdict_is_never_taken_back() {
    let mut nat = Nat::new(true);
    for (i, port) in [(1, 1000), (2, 1000), (3, 2000), (4, 2000)] {
        let host = if port == 1000 { "1.1.1.1" } else { "2.2.2.2" };
        nat.add(&peer(host, port), &peer("9.9.9.9", i));
    }
    assert_eq!(nat.firewall, FIREWALL_CONSISTENT);
    for i in 10..40 {
        nat.add(&peer("3.3.3.3", i), &peer("9.9.9.9", i));
        assert_eq!(nat.firewall, FIREWALL_CONSISTENT);
    }
    nat.freeze();
    nat.unfreeze();
    nat.update();
    assert_eq!(nat.firewall, FIREWALL_CONSISTENT);
    assert!(nat.has_heard(&peer("9.9.9.9", 39)));
    assert!(!nat.has_heard(&peer("9.9.9.9", 40)));
}
