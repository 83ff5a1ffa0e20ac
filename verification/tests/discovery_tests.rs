use gateway_core::nacos::NacosNamingAndConfigData;
use gateway_core::svc_discover::{
    endpoint_of, is_valid_ipv4, DiscoverError, DiscoveryView, RawInstance,
};

fn raw(ip: &str, port: i32, weight: u32) -> RawInstance {
    RawInstance { ip: ip.to_string(), port, weight }
}

#[test]
fn test_ipv4_validity() {
    assert!(is_valid_ipv4("0.0.0.0"));
    assert!(is_valid_ipv4("1.2.3.4"));
    assert!(is_valid_ipv4("255.255.255.255"));
    assert!(is_valid_ipv4("192.168.0.1"));
    assert!(!is_valid_ipv4(""));
    assert!(!is_valid_ipv4("1.2.3"));
    assert!(!is_valid_ipv4("1.2.3.4.5"));
    assert!(!is_valid_ipv4("256.1.1.1"));
    assert!(!is_valid_ipv4("01.2.3.4"));
    assert!(!is_valid_ipv4("1.2.3.04"));
    assert!(!is_valid_ipv4("1..2.3"));
    assert!(!is_valid_ipv4("a.b.c.d"));
    assert!(!is_valid_ipv4("1.2.3.4 "));
}

#[test]
fn test_endpoint_of_checks_port() {
    assert!(endpoint_of(&raw("1.2.3.4", 80, 1)).is_some());
    assert!(endpoint_of(&raw("1.2.3.4", 0, 1)).is_some());
    assert!(endpoint_of(&raw("1.2.3.4", 65535, 1)).is_some());
    assert!(endpoint_of(&raw("1.2.3.4", 65536, 1)).is_none());
    assert!(endpoint_of(&raw("1.2.3.4", -1, 1)).is_none());
    assert!(endpoint_of(&raw("nope", 80, 1)).is_none());
    let e = endpoint_of(&raw("1.2.3.4", 8080, 7)).unwrap();
    assert_eq!(e.host, "1.2.3.4");
    assert_eq!(e.port, 8080);
    assert_eq!(e.weight, 7);
}

#[test]
fn test_event_then_lookup_in_arrival_order() {
    // the cached set is exactly the well-formed instances, in event order
    let mut view = DiscoveryView::new();
    let svc = "user".to_string();
    let ev = view.apply_event(
        &svc,
        &vec![
            raw("1.1.1.1", 80, 1),
            raw("bad-host", 80, 9),
            raw("2.2.2.2", 80, 3),
            raw("3.3.3.3", -5, 9),
        ],
    );
    assert_eq!(ev.service, "user");
    assert_eq!(ev.all.len(), 2);
    assert_eq!(ev.added.len(), 2);
    assert_eq!(ev.removed.len(), 0);
    assert_eq!(ev.updated.len(), 0);
    let cached = view.lookup(&svc).unwrap();
    assert_eq!(cached.len(), 2);
    assert_eq!(cached[0].host, "1.1.1.1");
    assert_eq!(cached[1].host, "2.2.2.2");
    assert!(view.lookup(&"order".to_string()).is_none());
}

#[test]
fn test_event_diff() {
    let mut view = DiscoveryView::new();
    let svc = "user".to_string();
    view.apply_event(&svc, &vec![raw("1.1.1.1", 80, 1), raw("2.2.2.2", 80, 3)]);
    // 1.1.1.1 changes weight, 2.2.2.2 disappears, 3.3.3.3 appears
    let ev = view.apply_event(&svc, &vec![raw("1.1.1.1", 80, 5), raw("3.3.3.3", 80, 1)]);
    assert_eq!(ev.added.len(), 1);
    assert_eq!(ev.added[0].host, "3.3.3.3");
    assert_eq!(ev.updated.len(), 1);
    assert_eq!(ev.updated[0].host, "1.1.1.1");
    assert_eq!(ev.updated[0].weight, 5);
    assert_eq!(ev.removed.len(), 1);
    assert_eq!(ev.removed[0].host, "2.2.2.2");
    let cached = view.lookup(&svc).unwrap();
    assert_eq!(cached.len(), 2);
    assert_eq!(cached[0].host, "1.1.1.1");
    assert_eq!(cached[0].weight, 5);
}

#[test]
fn test_unchanged_event_is_still_published() {
    let mut view = DiscoveryView::new();
    let svc = "user".to_string();
    view.apply_event(&svc, &vec![raw("1.1.1.1", 80, 1)]);
    // the same set again: an empty diff, but an event nonetheless
    let ev = view.apply_event(&svc, &vec![raw("1.1.1.1", 80, 1)]);
    assert_eq!(ev.all.len(), 1);
    assert_eq!(ev.added.len(), 0);
    assert_eq!(ev.updated.len(), 0);
    assert_eq!(ev.removed.len(), 0);
}

#[test]
fn test_discover_from_subscription_table() {
    let mut data = NacosNamingAndConfigData::new();
    let mut view = DiscoveryView::new();
    let svc = "user".to_string();
    // nothing subscribed yet
    assert_eq!(
        view.discover(&data.sub_svc_map, &svc).unwrap_err(),
        DiscoverError::NoInstances
    );
    data.event(&svc, vec![raw("1.1.1.1", 80, 1), raw("junk", 80, 1)]);
    let eps = view.discover(&data.sub_svc_map, &svc).unwrap();
    assert_eq!(eps.len(), 1);
    assert_eq!(eps[0].host, "1.1.1.1");
    // the parsed set is now cached for synchronous lookups
    assert_eq!(view.lookup(&svc).unwrap().len(), 1);
}

#[test]
fn test_adapter_state_and_config_cache() {
    let mut data = NacosNamingAndConfigData::new();
    assert_eq!(data.get_state().service_name, "");
    data.update_state("gw".to_string(), Some("DEFAULT_GROUP".to_string()), vec![raw(
        "1.2.3.4", 80, 1,
    )]);
    assert_eq!(data.get_state().service_name, "gw");
    assert_eq!(data.get_state().group_name.as_deref(), Some("DEFAULT_GROUP"));
    assert_eq!(data.get_state().service_instance.len(), 1);

    assert!(data.config_of(&"gw".to_string()).is_none());
    data.notify(&"gw".to_string(), "url_rate: []".to_string());
    assert_eq!(data.config_of(&"gw".to_string()).unwrap(), "url_rate: []");
    data.notify(&"gw".to_string(), "other".to_string());
    assert_eq!(data.config_of(&"gw".to_string()).unwrap(), "other");
    assert_eq!(data.config_data_map.len(), 1);
}
