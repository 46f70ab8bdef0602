use soorat::drm::{
    driver_version, list_cards, list_connectors, list_render_nodes, supports_prime, CardInfo,
    ConnectorSummary, DriverVersion,
};
use soorat::error::RenderError;
use std::path::PathBuf;

#[test]
fn list_cards_returns_vec() {
    // May be empty (no GPU, CI, or non-Linux) — just verify no panic
    let cards = list_cards();
    let _ = cards;
}

#[test]
fn list_render_nodes_returns_vec() {
    let nodes = list_render_nodes();
    let _ = nodes;
}

#[test]
fn driver_version_nonexistent_path() {
    let result = driver_version(std::path::Path::new("/dev/dri/card999"));
    assert!(result.is_err());
}

#[test]
fn list_connectors_nonexistent_path() {
    let result = list_connectors(std::path::Path::new("/dev/dri/card999"));
    assert!(result.is_err());
}

#[test]
fn supports_prime_nonexistent_path() {
    assert!(!supports_prime(std::path::Path::new("/dev/dri/card999")));
}

#[test]
fn card_info_debug() {
    let info = CardInfo {
        path: PathBuf::from("/dev/dri/card0"),
        driver: Some(DriverVersion {
            major: 1,
            minor: 2,
            patchlevel: 3,
            name: "test".into(),
            date: "20260324".into(),
            description: "Test driver".into(),
        }),
    };
    let dbg = format!("{:?}", info);
    assert!(dbg.contains("card0"));
    assert!(dbg.contains("test"));
}

#[test]
fn card_info_no_driver() {
    let info = CardInfo {
        path: PathBuf::from("/dev/dri/card0"),
        driver: None,
    };
    assert!(info.driver.is_none());
}

#[test]
fn connector_summary_debug() {
    let conn = ConnectorSummary {
        id: 42,
        connector_type: "HDMIA".into(),
        connected: true,
        mm_width: 530,
        mm_height: 300,
    };
    let dbg = format!("{:?}", conn);
    assert!(dbg.contains("HDMIA"));
    assert!(dbg.contains("42"));
}

#[test]
fn driver_version_clone() {
    let v = DriverVersion {
        major: 5,
        minor: 15,
        patchlevel: 0,
        name: "amdgpu".into(),
        date: "20260101".into(),
        description: "AMD GPU driver".into(),
    };
    let cloned = v.clone();
    assert_eq!(cloned.name, "amdgpu");
    assert_eq!(cloned.major, 5);
}

#[test]
fn drm_queries_without_support() {
    assert!(list_cards().is_empty());
    assert!(list_render_nodes().is_empty());
    match driver_version(std::path::Path::new("/dev/dri/card0")) {
        Err(RenderError::DeviceRequest(m)) => {
            assert_eq!(m, "DRM support requires the 'drm' feature")
        }
        other => panic!("unexpected {other:?}"),
    }
    match list_connectors(std::path::Path::new("/dev/dri/card0")) {
        Err(e) => assert_eq!(
            e.to_string(),
            "GPU device request failed: DRM support requires the 'drm' feature"
        ),
        Ok(_) => panic!("connectors listed without DRM support"),
    }
}
