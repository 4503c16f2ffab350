use pingwatch::resolve::{
    get_host_ipaddr, get_multiple_host_ipaddr, resolve_host_ips, ResolveError, ResolvedAddr,
};
use pingwatch::session::{dedup_targets, interval_millis, ip_count, pair_targets, worker_threads};

fn addr(text: &str, is_ipv6: bool) -> ResolvedAddr {
    ResolvedAddr { text: text.to_string(), is_ipv6 }
}

fn found() -> Vec<ResolvedAddr> {
    vec![
        addr("2001:db8::1", true),
        addr("10.0.0.1", false),
        addr("10.0.0.2", false),
        addr("2001:db8::2", true),
        addr("10.0.0.3", false),
    ]
}

fn strings(list: &[&str]) -> Vec<String> {
    list.iter().map(|s| s.to_string()).collect()
}

#[test]
fn resolve_keeps_the_wanted_family_in_order() {
    assert_eq!(
        resolve_host_ips("host", &found(), false).unwrap(),
        strings(&["10.0.0.1", "10.0.0.2", "10.0.0.3"])
    );
    assert_eq!(
        resolve_host_ips("host", &found(), true).unwrap(),
        strings(&["2001:db8::1", "2001:db8::2"])
    );
}

#[test]
fn resolve_without_a_wanted_address_fails() {
    let only_v4 = vec![addr("10.0.0.1", false)];
    match resolve_host_ips("example.org", &only_v4, true) {
        Err(ResolveError::NotFound { host }) => assert_eq!(host, "example.org"),
        other => panic!("unexpected result {:?}", other),
    }
    assert!(resolve_host_ips("example.org", &Vec::new(), false).is_err());
}

#[test]
fn resolve_error_names_the_host() {
    let error = ResolveError::NotFound { host: "example.org".to_string() };
    assert_eq!(error.message(), "Could not resolve host: example.org");
}

#[test]
fn host_address_is_the_first_of_the_family() {
    assert_eq!(get_host_ipaddr("host", &found(), false).unwrap(), "10.0.0.1");
    assert_eq!(get_host_ipaddr("host", &found(), true).unwrap(), "2001:db8::1");
    assert!(get_host_ipaddr("host", &vec![addr("10.0.0.1", false)], true).is_err());
}

#[test]
fn multiple_addresses_are_the_first_of_the_family() {
    assert_eq!(
        get_multiple_host_ipaddr("host", &found(), false, 2).unwrap(),
        strings(&["10.0.0.1", "10.0.0.2"])
    );
    assert_eq!(
        get_multiple_host_ipaddr("host", &found(), false, 9).unwrap(),
        strings(&["10.0.0.1", "10.0.0.2", "10.0.0.3"])
    );
    assert_eq!(get_multiple_host_ipaddr("host", &found(), true, 0).unwrap(), strings(&[]));
    assert!(get_multiple_host_ipaddr("host", &Vec::new(), true, 3).is_err());
}

#[test]
fn dedup_keeps_first_occurrences_in_order() {
    assert_eq!(
        dedup_targets(strings(&["b", "a", "b", "c", "a", "b"])),
        strings(&["b", "a", "c"])
    );
    assert_eq!(dedup_targets(strings(&[])), strings(&[]));
    assert_eq!(dedup_targets(strings(&["x", "x", "x"])), strings(&["x"]));
    assert_eq!(dedup_targets(strings(&["x", "X"])), strings(&["x", "X"]));
}

#[test]
fn address_count_follows_multiple_for_a_single_target() {
    assert_eq!(ip_count(1, 4), 4);
    assert_eq!(ip_count(1, 0), 1);
    assert_eq!(ip_count(1, -2), 1);
    assert_eq!(ip_count(3, 4), 3);
    assert_eq!(ip_count(0, 4), 0);
}

#[test]
fn one_worker_thread_more_than_addresses() {
    assert_eq!(worker_threads(0), 1);
    assert_eq!(worker_threads(4), 5);
}

#[test]
fn zero_interval_is_the_default() {
    assert_eq!(interval_millis(0), 500);
    assert_eq!(interval_millis(1), 1000);
    assert_eq!(interval_millis(3), 3000);
    assert_eq!(interval_millis(i32::MAX), 2_147_483_647_000);
}

#[test]
fn addresses_pair_with_their_targets() {
    let pairs = pair_targets(&strings(&["a", "b"]), &strings(&["1.1.1.1", "2.2.2.2"]));
    assert_eq!(
        pairs,
        vec![("a".to_string(), "1.1.1.1".to_string()), ("b".to_string(), "2.2.2.2".to_string())]
    );
}

#[test]
fn addresses_of_a_single_target_all_carry_its_name() {
    let pairs = pair_targets(&strings(&["a"]), &strings(&["1.1.1.1", "1.1.1.2", "1.1.1.3"]));
    assert_eq!(
        pairs,
        vec![
            ("a".to_string(), "1.1.1.1".to_string()),
            ("a".to_string(), "1.1.1.2".to_string()),
            ("a".to_string(), "1.1.1.3".to_string())
        ]
    );
    assert_eq!(pair_targets(&strings(&[]), &strings(&[])), Vec::new());
}
