//! Upload and rendering adapters to external services. Both are
//! placeholders: construction succeeds, every operation reports that it
//! is not implemented.

use vstd::prelude::*;

verus! {

/// Failure of the video-publishing adapter.
#[derive(Debug)]
pub enum VpError {
    NotImplemented,
}

/// Renders a project directory and packages the result for publishing.
pub struct Publisher;

impl Publisher {
    /// A publisher handle. Construction always succeeds.
    pub fn new() -> (r: Result<Self, VpError>)
        ensures
            r is Ok,
    {
        Ok(Publisher)
    }

    /// Render and package the project under `project_dir`. Not yet
    /// implemented: always reports `NotImplemented`.
    pub fn render_and_package(&self, project_dir: &str) -> (r: Result<String, VpError>)
        ensures
            r matches Err(VpError::NotImplemented),
    {
        Err(VpError::NotImplemented)
    }
}

/// Failure of the video-upload adapter.
#[derive(Debug)]
pub enum YtError {
    NotImplemented,
}

/// Uploads videos to an external hosting service.
pub struct YtClient;

impl YtClient {
    /// A client handle. Construction always succeeds.
    pub fn new() -> (r: Result<Self, YtError>)
        ensures
            r is Ok,
    {
        Ok(YtClient)
    }

    /// Upload the video at `path` with the given title and description.
    /// Not yet implemented: always reports `NotImplemented`.
    pub fn upload_video(&self, path: &str, title: &str, desc: &str) -> (r: Result<String, YtError>)
        ensures
            r matches Err(YtError::NotImplemented),
    {
        Err(YtError::NotImplemented)
    }
}

} // verus!
