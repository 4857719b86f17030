use xds_cache::type_url::{
    priority, shorten, CLUSTER, ENDPOINT, EXTENSION_CONFIG, LISTENER, ROUTE, RUNTIME,
    SCOPED_ROUTE, SECRET, VIRTUAL_HOST,
};

#[test]
fn prefix_concatinates_valid_type() {
    assert_eq!(
        CLUSTER,
        "type.googleapis.com/envoy.config.cluster.v3.Cluster"
    )
}

#[test]
fn shorten_empty_is_ads() {
    assert_eq!(shorten(""), "ADS");
}

#[test]
fn shorten_takes_last_segment() {
    assert_eq!(shorten(CLUSTER), "Cluster");
    assert_eq!(shorten(ENDPOINT), "ClusterLoadAssignment");
    assert_eq!(shorten("no-dots"), "no-dots");
    assert_eq!(shorten("trailing."), "");
}

#[test]
fn priority_orders_known_types() {
    assert_eq!(priority(CLUSTER), 0);
    assert_eq!(priority(ENDPOINT), 1);
    assert_eq!(priority(LISTENER), 2);
    assert_eq!(priority(ROUTE), 3);
    assert_eq!(priority(VIRTUAL_HOST), 4);
    assert_eq!(priority(SECRET), 5);
    assert_eq!(priority(RUNTIME), 6);
    assert_eq!(priority(SCOPED_ROUTE), 7);
    assert_eq!(priority(EXTENSION_CONFIG), 8);
    assert_eq!(priority("type.googleapis.com/other"), 9);
    assert_eq!(priority(""), 9);
}
