//! The parsed description of one scene.
//!
//! A descriptor is immutable once loaded: metadata, the settings schema, the
//! settings panel layout, the declared resources, and the ordered pass list.
//! The loader (outside this library) produces it from the scene's manifest
//! file; this library validates and compiles it.

use crate::pass::RenderPass;
use crate::resource::Resource;
use crate::setting::Setting;
use crate::util::DeserializableMap;
use vstd::prelude::*;

verus! {

/// A whole scene description.
#[derive(Debug)]
pub struct Descriptor {
    pub meta: Metadata,
    pub settings: DeserializableMap<Setting>,
    pub ui: Vec<Ui>,
    pub resources: DeserializableMap<Resource>,
    pub render_passes: Vec<RenderPass>,
}

impl Descriptor {
    /// The descriptor's own tables are well formed.
    pub open spec fn wf(&self) -> bool {
        &&& self.settings.wf()
        &&& self.resources.wf()
    }
}

/// Name, version, description and author of a scene.
#[derive(Clone, Debug)]
pub struct Metadata {
    pub name: String,
    pub version: String,
    pub description: String,
    pub author: String,
}

/// One element of the scene's settings panel: a reference to a setting by
/// key, a separator, or a line of text. Consecutive setting references
/// group into one panel grid.
#[derive(Clone, Debug)]
pub enum Ui {
    Setting { setting: String },
    Separator,
    Text { text: String },
}

} // verus!
