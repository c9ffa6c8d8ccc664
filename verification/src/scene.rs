//! A loaded scene: its descriptor, live settings, and shader sources.
//!
//! The loader outside this library reads the scene's manifest and files and
//! hands them over as plain values; `load_from_memory` checks that every
//! declared shader has its source and derives the default settings.

use crate::descriptor::Descriptor;
use crate::resource::Resource;
use crate::setting::SettingParseError;
use crate::settings::{spec_defaults, Settings};
use crate::util::DeserializableMap;
use vstd::prelude::*;

verus! {

/// Failure to assemble a scene from its files.
#[derive(Debug)]
pub enum SceneError {
    /// The scene manifest could not be read or parsed; holds the reader's
    /// description of the fault.
    SceneTomlError(String),
    InvalidResource { kind: String, id: String, error: String },
    SettingsError(SettingParseError),
    ArchiveError(String),
}

/// The id of a resource that needs a source file, with the path it names.
pub open spec fn spec_shader_src(r: Resource) -> Option<String> {
    match r {
        Resource::Shader { src, .. } => Some(src),
        Resource::ShaderToy { src, .. } => Some(src),
        _ => None,
    }
}

/// A scene ready to compile.
#[derive(Debug)]
pub struct Scene {
    pub descriptor: Descriptor,
    pub settings: Settings,
    pub files: DeserializableMap<Vec<u8>>,
}

impl Scene {
    /// A scene's tables are well formed, its settings were derived from its
    /// schema, and every declared shader's source is on hand.
    pub open spec fn wf(&self) -> bool {
        &&& self.descriptor.wf()
        &&& self.settings.wf()
        &&& self.files.wf()
        &&& forall|j: int|
            0 <= j < self.descriptor.resources.pairs().len() && spec_shader_src(
                (#[trigger] self.descriptor.resources.pairs()[j]).1,
            ) is Some ==> self.files@.contains_key(self.descriptor.resources.pairs()[j].0@)
    }

    /// Assembles a scene from an already-parsed descriptor and the files of
    /// its package: every `Shader` or `ShaderToy` resource must find its
    /// source in `virtual_folder` under the path it declares, keyed in the
    /// result by resource id; settings start at their schema defaults.
    pub fn load_from_memory(descriptor: Descriptor, virtual_folder: DeserializableMap<Vec<u8>>) -> (r:
        Result<Scene, SceneError>)
        requires
            descriptor.wf(),
            virtual_folder.wf(),
        ensures
            r is Ok ==> r->Ok_0.wf(),
            r is Ok ==> r->Ok_0.descriptor == descriptor,
            r is Ok ==> r->Ok_0.settings.pairs() == spec_defaults(descriptor.settings.pairs())->Ok_0,
            r is Ok ==> forall|j: int|
                0 <= j < descriptor.resources.pairs().len() && spec_shader_src(
                    (#[trigger] descriptor.resources.pairs()[j]).1,
                ) is Some ==> r->Ok_0.files@[descriptor.resources.pairs()[j].0@]@
                    == virtual_folder@[spec_shader_src(descriptor.resources.pairs()[j].1)->Some_0@]@,
            r is Err ==> {
                ||| exists|j: int|
                    0 <= j < descriptor.resources.pairs().len() && spec_shader_src(
                        (#[trigger] descriptor.resources.pairs()[j]).1,
                    ) is Some && !virtual_folder@.contains_key(
                        spec_shader_src(descriptor.resources.pairs()[j].1)->Some_0@,
                    )
                ||| spec_defaults(descriptor.settings.pairs()) is Err
            },
    {
        let ghost decls = descriptor.resources.pairs();
        let mut files = DeserializableMap::<Vec<u8>>::empty();
        let resources = descriptor.resources.iter();
        let n = resources.len();
        let mut i: usize = 0;
        while i < n
            invariant
                descriptor.wf(),
                virtual_folder.wf(),
                decls == descriptor.resources.pairs(),
                resources@ == decls,
                n == decls.len(),
                i <= n,
                files.wf(),
                forall|j: int|
                    0 <= j < i && spec_shader_src((#[trigger] decls[j]).1) is Some
                        ==> files@.contains_key(decls[j].0@) && files@[decls[j].0@]@
                        == virtual_folder@[spec_shader_src(decls[j].1)->Some_0@]@,
                forall|j: int|
                    0 <= j < i && spec_shader_src((#[trigger] decls[j]).1) is Some
                        ==> virtual_folder@.contains_key(spec_shader_src(decls[j].1)->Some_0@),
            decreases n - i,
        {
            let id = &resources[i].0;
            let src_opt: Option<&String> = match &resources[i].1 {
                Resource::Shader { src, .. } => Some(src),
                Resource::ShaderToy { src, .. } => Some(src),
                _ => None,
            };
            if let Some(src) = src_opt {
                match virtual_folder.get(src) {
                    Some(content) => {
                        files.insert(id.clone(), vstd::slice::slice_to_vec(content.as_slice()));
                        proof {
                            assert forall|j: int|
                                0 <= j < i + 1 && spec_shader_src((#[trigger] decls[j]).1) is Some
                                    implies files@.contains_key(decls[j].0@) && files@[decls[j].0@]@
                                == virtual_folder@[spec_shader_src(decls[j].1)->Some_0@]@ by {
                                if j < i {
                                    assert(decls[j].0@ != decls[i as int].0@);
                                }
                            }
                        }
                    },
                    None => {
                        return Err(
                            SceneError::InvalidResource {
                                kind: shader_kind_name(),
                                id: id.clone(),
                                error: file_missing_text(),
                            },
                        );
                    },
                }
            }
            i = i + 1;
        }
        let settings = match Settings::new(&descriptor) {
            Ok(settings) => settings,
            Err(error) => {
                return Err(SceneError::SettingsError(error));
            },
        };
        Ok(Scene { descriptor, settings, files })
    }
}

/// The resource kind named in a missing-shader-source error.
fn shader_kind_name() -> String {
    String::from_str("Shader")
}

/// The message of a missing-shader-source error.
fn file_missing_text() -> String {
    String::from_str("file not provided")
}

} // verus!
