//! Tests of the feature flags, the debrid configuration, the playlist
//! helpers, and the archive path helper.

use archivist_lib::debrid::DebridService;
use archivist_lib::features::Features;
use archivist_lib::iptv::{collect_groups, extract_attribute, IptvChannel, IptvPlaylist};
use archivist_lib::web_archive::compute_relative_path;

#[test]
fn test_basic_functionality() {
    // Basic smoke test
    assert_eq!(2 + 2, 4);
}

#[test]
fn test_features_defaults() {
    let features = Features::new();
    assert!(features.marketplace);
    assert!(!features.zk_proofs);
    assert!(features.torrent);
    assert!(features.has_v2_features());
}

#[test]
fn test_debrid_service_not_configured() {
    let service = DebridService::new();
    let status = service.get_status();
    assert!(!status.configured);
    assert!(status.provider_type.is_none());
}

#[test]
fn test_debrid_service_configure_real_debrid() {
    let mut service = DebridService::new();
    service.configure_real_debrid("test_token");
    let status = service.get_status();
    assert!(status.configured);
    assert_eq!(status.provider_type, Some("real_debrid".to_string()));
}

#[test]
fn test_debrid_service_configure_premiumize() {
    let mut service = DebridService::new();
    service.configure_premiumize("test_key");
    let status = service.get_status();
    assert!(status.configured);
    assert_eq!(status.provider_type, Some("premiumize".to_string()));
}

#[test]
fn test_debrid_service_configure_switch() {
    let mut service = DebridService::new();
    service.configure_real_debrid("rd_token");
    assert_eq!(service.get_status().provider_type, Some("real_debrid".to_string()));

    service.configure_premiumize("pm_key");
    assert_eq!(service.get_status().provider_type, Some("premiumize".to_string()));
}

#[test]
fn test_debrid_service_clear() {
    let mut service = DebridService::new();
    service.configure_real_debrid("test_token");
    assert!(service.get_status().configured);

    service.clear_provider();
    assert!(!service.get_status().configured);
}

fn channel(id: &str, name: &str, url: &str, group: Option<&str>) -> IptvChannel {
    IptvChannel {
        id: id.to_string(),
        name: name.to_string(),
        url: url.to_string(),
        logo: None,
        group: group.map(|g| g.to_string()),
        country: None,
        language: None,
        tvg_id: None,
        tvg_name: None,
    }
}

#[test]
fn test_groups_collected() {
    let channels = vec![
        channel("1", "Ch1", "http://a", Some("News")),
        channel("2", "Ch2", "http://b", Some("Sports")),
        channel("3", "Ch3", "http://c", Some("News")),
    ];
    let groups = collect_groups(&channels);
    assert_eq!(groups.len(), 2);
    assert!(groups.contains(&"News".to_string()));
    assert!(groups.contains(&"Sports".to_string()));
}

#[test]
fn test_extract_attribute() {
    let line = "-1 tvg-id=\"test.id\" tvg-name=\"Test\" tvg-logo=\"http://logo.png\" group-title=\"News\",Channel Name";
    assert_eq!(extract_attribute(line, "tvg-id"), Some("test.id".to_string()));
    assert_eq!(extract_attribute(line, "tvg-name"), Some("Test".to_string()));
    assert_eq!(extract_attribute(line, "tvg-logo"), Some("http://logo.png".to_string()));
    assert_eq!(extract_attribute(line, "group-title"), Some("News".to_string()));
    assert_eq!(extract_attribute(line, "nonexistent"), None);
}

#[test]
fn test_playlist_summary() {
    let playlist = IptvPlaylist {
        id: "p1".to_string(),
        name: "Test".to_string(),
        url: None,
        channels: vec![channel("1", "Ch1", "http://a", Some("News"))],
        groups: vec!["News".to_string()],
        last_updated: None,
    };
    let summary = playlist.to_summary();
    assert_eq!(summary.name, "Test");
    assert_eq!(summary.channel_count, 1);
    assert_eq!(summary.group_count, 1);
}

#[test]
fn test_compute_relative_path() {
    assert_eq!(compute_relative_path("index.html", "about/index.html"), "about/index.html");
    assert_eq!(compute_relative_path("docs/intro.html", "index.html"), "../index.html");
    assert_eq!(
        compute_relative_path("docs/guide/page.html", "css/style.css"),
        "../../css/style.css"
    );
}
