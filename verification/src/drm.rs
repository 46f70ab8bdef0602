//! DRM device information — kernel-level GPU details.
//!
//! This build carries no kernel DRM support (the `drm` feature of the
//! rendering engine): every query reports that nothing is available, as the
//! documentation of each function says.

use vstd::prelude::*;
use std::path::{Path, PathBuf};
use crate::error::{RenderError, Result};

verus! {

#[verifier::external_type_specification]
#[verifier::external_body]
pub struct ExPathBuf(PathBuf);

#[verifier::external_type_specification]
#[verifier::external_body]
pub struct ExPath(Path);

/// Copying a path (`<PathBuf as Clone>::clone`, which the derived `Clone` of
/// `CardInfo` calls): trusted to give a value equal to the one copied, as
/// std documents a clone to be.
pub assume_specification[ <PathBuf as Clone>::clone ](p: &PathBuf) -> (r: PathBuf)
    ensures
        r == *p,
;

/// DRM driver version.
#[derive(Debug, Clone)]
pub struct DriverVersion {
    pub major: i32,
    pub minor: i32,
    pub patchlevel: i32,
    pub name: String,
    pub date: String,
    pub description: String,
}

/// Summary of a DRM card device.
#[derive(Debug, Clone)]
pub struct CardInfo {
    /// Device path (e.g., `/dev/dri/card0`).
    pub path: PathBuf,
    /// Driver version (if queryable).
    pub driver: Option<DriverVersion>,
}

/// Display connector summary.
#[derive(Debug, Clone)]
pub struct ConnectorSummary {
    pub id: u32,
    pub connector_type: String,
    pub connected: bool,
    pub mm_width: u32,
    pub mm_height: u32,
}

/// Message of the queries that need kernel DRM support.
pub open spec fn drm_unsupported_text() -> Seq<char> {
    "DRM support requires the 'drm' feature"@
}

/// List DRM card devices with driver info: without DRM support, none.
pub fn list_cards() -> (cards: Vec<CardInfo>)
    ensures
        cards@.len() == 0,
{
    Vec::new()
}

/// List render node paths (e.g., `/dev/dri/renderD128`): without DRM
/// support, none.
pub fn list_render_nodes() -> (nodes: Vec<PathBuf>)
    ensures
        nodes@.len() == 0,
{
    Vec::new()
}

/// Query driver version for a specific card path: without DRM support,
/// always an error.
pub fn driver_version(card_path: &Path) -> (r: Result<DriverVersion>)
    ensures
        r matches Err(RenderError::DeviceRequest(m)) && m@ == drm_unsupported_text(),
{
    Err(RenderError::DeviceRequest(String::from_str("DRM support requires the 'drm' feature")))
}

/// Query display connectors for a card: without DRM support, always an
/// error.
pub fn list_connectors(card_path: &Path) -> (r: Result<Vec<ConnectorSummary>>)
    ensures
        r matches Err(RenderError::DeviceRequest(m)) && m@ == drm_unsupported_text(),
{
    Err(RenderError::DeviceRequest(String::from_str("DRM support requires the 'drm' feature")))
}

/// Check if PRIME (GPU buffer sharing) is supported on a card: without DRM
/// support, never.
pub fn supports_prime(card_path: &Path) -> (r: bool)
    ensures
        !r,
{
    false
}

} // verus!
