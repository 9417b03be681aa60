use brew_server::config::{
    delete_route, reconnect_seconds, upsert_route, BtsLocationConfig, Config, RouteEndpoint,
    SipExtensionConfig, SipTrunkConfig, TrunkDirection, VoiceRouteConfig,
};
use brew_server::dashboard::pages::{
    calls_page, connections_page, index, map_page, registrations_page, replace, sds_page,
    settings_page, sip_config_page, sip_page, telemetry_sds_page,
};
use brew_server::dashboard::rows::{
    bts_locations_snapshot, client_rows, counts, describe_endpoint, extension_rows, route_rows,
    station_link, station_rows, trunk_rows,
};
use brew_server::protocol::ConnVersion;
use brew_server::state::{Client, ClientMode, Inner, Subscriber};
use brew_server::table::{KeySet, Table};
use brew_server::telemetry::Place;

#[test]
fn index_has_style_and_navlinks_no_removed_tables() {
    let page = index("1.2");
    let h = page.as_str();
    assert!(!h.contains("__STYLE__"), "style placeholder must be substituted");
    assert!(h.contains("<style>"), "style present");
    assert!(h.contains("href=\"/calls\""));
    assert!(h.contains("href=\"/sds\""));
    assert!(h.contains("href=\"/telemetry-sds\""));
    assert!(h.contains("href=\"/registrations\""));
    assert!(!h.contains("id=sdstable"), "recent SDS table removed from index");
    assert!(!h.contains("id=history"), "recent calls table removed from index");
    assert!(!h.contains("id=telemetry-sds"), "telemetry SDS table removed from index");
}

#[test]
fn subpages_build_and_contain_expected_bits() {
    for (name, html, endpoint) in [
        ("calls", calls_page("1.2"), "/api/status"),
        ("sds", sds_page("1.2"), "/api/status"),
        ("telemetry", telemetry_sds_page("1.2"), "/api/telemetry"),
        ("registrations", registrations_page("1.2"), "/api/registrations"),
    ] {
        assert!(!html.contains("__STYLE__"), "{name}: style substituted");
        assert!(html.contains("id=log"), "{name}: log table body present");
        assert!(html.contains("id=log-pager"), "{name}: pager present");
        assert!(html.contains(endpoint), "{name}: polls {endpoint}");
        assert!(html.contains("Back to dashboard"), "{name}: back link present");
        let script = html.split("<script>").nth(1).unwrap().split("</script>").next().unwrap();
        assert!(!script.is_empty());
    }
}

#[test]
fn map_page_builds() {
    let page = map_page("1.2");
    let h = page.as_str();
    assert!(!h.contains("__STYLE__"), "style substituted");
    assert!(h.contains("/api/positions"), "map polls positions api");
    assert!(h.contains("leaflet"), "leaflet loaded");
    assert!(h.contains("Back to dashboard"), "back link present");
    assert!(h.contains("{s}.tile.openstreetmap.org/{z}/{x}/{y}"), "tile template intact");
    let script = h.rsplit("<script>").next().unwrap().split("</script>").next().unwrap();
    assert!(!script.is_empty());
}

#[test]
fn index_links_to_map() {
    assert!(index("1.2").contains("href=\"/map\""), "dashboard links to /map");
}

#[test]
fn bts_locations_snapshot_omits_unconfigured_zero_entries() {
    let mut config = Config::default();
    config.bts_locations.insert("1000001".into(), BtsLocationConfig {
        name: "Athens HQ".into(),
        place: Place { lat: 37.9917f64.to_bits(), lon: 23.7640f64.to_bits() },
    });
    config.bts_locations.insert("1000002".into(), BtsLocationConfig {
        name: "Unconfigured".into(),
        place: Place { lat: 0.0f64.to_bits(), lon: 0.0f64.to_bits() },
    });
    let out = bts_locations_snapshot(&Inner::default(), &config.bts_locations);
    assert_eq!(out.len(), 1, "the (0,0) entry must not be plotted");
    assert_eq!(out[0].username, "1000001");
    assert_eq!(f64::from_bits(out[0].place.lat), 37.9917);
    assert!(!out[0].connected);
}

#[test]
fn negative_zeros_are_no_place_either() {
    let mut config = Config::default();
    for (key, lat, lon) in [("1", 0.0, -0.0), ("2", -0.0, 0.0), ("3", -0.0, -0.0), ("4", 0.0, 1.0)] {
        let place = Place { lat: f64::to_bits(lat), lon: f64::to_bits(lon) };
        config.bts_locations.insert(key.into(), BtsLocationConfig { name: key.into(), place });
    }
    let out = bts_locations_snapshot(&Inner::default(), &config.bts_locations);
    assert_eq!(out.len(), 1);
    assert_eq!(out[0].username, "4");
}

#[test]
fn other_pages_have_their_style() {
    for page in [sip_page("1.2"), sip_config_page("1.2"), connections_page("1.2"), settings_page("1.2")] {
        assert!(page.contains("<style>"));
        assert!(!page.contains("__STYLE__"));
    }
}

#[test]
fn marks_are_replaced() {
    assert_eq!(replace("a__X__b__X__", "__X__", "-"), "a-b-");
    assert_eq!(replace("abc", "__X__", "-"), "abc");
}

#[test]
fn endpoints_are_described() {
    let e = |t: &str, n: &str| RouteEndpoint::SipTrunk { trunk: t.into(), number: n.into() };
    assert_eq!(describe_endpoint(&RouteEndpoint::SipExtension { user: "1001".into() }), "ext:1001");
    assert_eq!(describe_endpoint(&e("pbx", "")), "trunk:pbx");
    assert_eq!(describe_endpoint(&e("pbx", "42")), "trunk:pbx/42");
    assert_eq!(describe_endpoint(&RouteEndpoint::BrewPrivate { issi: 90 }), "issi:90");
    assert_eq!(describe_endpoint(&RouteEndpoint::BrewGroup { gssi: 7 }), "group:7");
}

fn client(mode: ClientMode, username: &str) -> Client {
    Client {
        mode,
        version: ConnVersion::V1,
        remote_addr: Some("10.0.0.1:9".into()),
        connected_at_ms: 5,
        username: Some(username.into()),
    }
}

#[test]
fn connections_are_listed() {
    let mut inner = Inner::default();
    inner.clients.insert(1, client(ClientMode::Basestation, "1000001"));
    let mut groups = KeySet::new();
    groups.insert(7u32);
    inner.subscribers.insert(90, Subscriber { client_id: 1, groups, mode: ClientMode::Basestation });
    inner.subscribers.insert(
        91,
        Subscriber { client_id: 2, groups: KeySet::new(), mode: ClientMode::Terminal },
    );
    let rows = client_rows(&inner);
    assert_eq!(rows.len(), 1);
    assert_eq!((rows[0].id, rows[0].version, rows[0].registered_issis), (1, 1, 1));
    let rows = station_rows(&inner);
    assert_eq!(rows.len(), 2);
    let r = rows.iter().find(|r| r.issi == 90).unwrap();
    assert_eq!(r.basestation_addr.as_deref(), Some("10.0.0.1:9"));
    assert_eq!(r.groups, vec![7]);
    assert_eq!(rows.iter().find(|r| r.issi == 91).unwrap().basestation_addr, None);
    assert_eq!(station_link(&inner, "1000001"), Some(Some("10.0.0.1:9".to_string())));
    assert_eq!(station_link(&inner, "9"), None);
    assert_eq!(counts(&inner), (1, 1, 0));
}

#[test]
fn passwords_are_not_shown() {
    let mut ext: Table<String, SipExtensionConfig> = Table::new();
    ext.insert("1001".into(), SipExtensionConfig {
        password: "secret".into(),
        display_name: "Front Desk".into(),
        issi: 42,
        allow_outbound: true,
    });
    let rows = extension_rows(&ext);
    assert_eq!(rows[0].user, "1001");
    assert!(rows[0].has_password);
    let mut trunks: Table<String, SipTrunkConfig> = Table::new();
    trunks.insert("pbx".into(), SipTrunkConfig {
        direction: TrunkDirection::Outbound,
        remote_host: "h".into(),
        username: String::new(),
        password: String::new(),
        realm: "r".into(),
        register_interval_seconds: 9,
        enabled: true,
    });
    let rows = trunk_rows(&trunks);
    assert_eq!(rows[0].username, "pbx", "the name stands in for a missing user name");
    assert!(!rows[0].has_password);
}

fn route(name: &str, pattern: &str) -> VoiceRouteConfig {
    VoiceRouteConfig {
        name: name.into(),
        match_pattern: pattern.into(),
        to: Some(RouteEndpoint::BrewGroup { gssi: 1 }),
        from: None,
        strip_prefix: String::new(),
        enabled: true,
    }
}

#[test]
fn routes_keep_their_place() {
    let mut routes = vec![route("a", "1"), route("b", "2"), route("c", "3")];
    upsert_route(&mut routes, route("b", "9"));
    upsert_route(&mut routes, route("d", "4"));
    let rows = route_rows(&routes);
    let names: Vec<(&str, &str)> =
        rows.iter().map(|r| (r.name.as_str(), r.match_pattern.as_str())).collect();
    assert_eq!(names, vec![("a", "1"), ("b", "9"), ("c", "3"), ("d", "4")]);
    assert_eq!(rows[0].to.as_deref(), Some("group:1"));
    delete_route(&mut routes, "c");
    assert_eq!(routes.len(), 3);
    assert_eq!(routes[2].name, "d");
}

#[test]
fn defaults_are_as_documented() {
    let c = Config::default();
    assert_eq!(c.listen, "0.0.0.0:9000");
    assert_eq!(c.websocket_subprotocol, "brew");
    assert!(c.storage.enabled);
    assert_eq!(c.storage.path, "brew-history.bin");
    assert_eq!(c.max_call_duration_seconds, 14400);
    assert!(!c.aprs.enabled);
    assert!(!c.federation.enabled);
    assert_eq!(reconnect_seconds(1), 5);
    assert_eq!(reconnect_seconds(30), 30);
}
