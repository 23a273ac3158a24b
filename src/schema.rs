//! The schema model: what a shader program declares about its resources.
use vstd::prelude::*;
use vstd::string::*;

verus! {

/// Shader stages that may access a binding (a visibility mask).
#[derive(Clone, Copy, Debug, PartialEq, Eq, Structural)]
pub struct Stages {
    pub vertex: bool,
    pub fragment: bool,
}

impl Stages {
    /// The union of two visibility masks.
    pub fn union(self, other: Stages) -> (r: Stages)
        ensures
            r.vertex == (self.vertex || other.vertex),
            r.fragment == (self.fragment || other.fragment),
    {
        Stages { vertex: self.vertex || other.vertex, fragment: self.fragment || other.fragment }
    }
}

/// The resource kind of one declared entry, with its declared shape.
#[derive(Clone, Copy, Debug, PartialEq, Eq, Structural)]
pub enum EntryVariant {
    Texture2D { width: u32, height: u32 },
    Uniform { size: u64 },
}

/// One declared binding of a group: the declaring field, its type and its kind.
#[derive(Debug)]
pub struct Entry {
    pub ident: String,
    pub ty: String,
    pub variant: EntryVariant,
}

/// A bind group as declared: its name, visibility and entries in binding order.
#[derive(Debug)]
pub struct Group {
    pub ident: String,
    pub vertex: bool,
    pub fragment: bool,
    pub entries: Vec<Entry>,
}

/// A vertex-buffer slot; its position in the list is its slot index.
#[derive(Clone, Copy, Debug, PartialEq, Eq, Structural)]
pub struct Vertex {}

/// An index-buffer slot.
#[derive(Clone, Copy, Debug, PartialEq, Eq, Structural)]
pub struct Index {}

/// A render-target output slot; its position in the list is its slot index.
#[derive(Clone, Copy, Debug, PartialEq, Eq, Structural)]
pub struct Output {}

/// A fully extracted shader declaration.
#[derive(Debug)]
pub struct Shader {
    pub path: String,
    pub vertex_buffers: Vec<Vertex>,
    pub index_buffers: Vec<Index>,
    pub bind_groups: Vec<Group>,
    pub outputs: Vec<Output>,
}

/// The kind of one binding in a bind-group schema. `Storage` and `Sampler`
/// are declared kinds without resource providers.
#[derive(Clone, Copy, Debug, PartialEq, Eq, Structural)]
pub enum ShaderInputSchema {
    Texture { width: u32, height: u32 },
    Uniform { size: u64 },
    Storage {},
    Sampler {},
}

/// A bind-group schema: bindings in binding order and the group's visibility.
#[derive(Debug)]
pub struct ShaderInputGroupSchema {
    pub input_schemas: Vec<ShaderInputSchema>,
    pub shader_stages: Stages,
}

/// Everything needed to build a render pipeline, with groups in group-index order.
#[derive(Debug)]
pub struct PipelineSchema {
    pub source: String,
    pub vertex_entry: String,
    pub fragment_entry: Option<String>,
    pub input_group_schemas: Vec<ShaderInputGroupSchema>,
    pub buffer_layouts: Vec<Vertex>,
    pub targets: Vec<Output>,
}

/// What an [`Entry`] declares, as plain values.
pub struct EntryModel {
    pub ident: Seq<char>,
    pub ty: Seq<char>,
    pub variant: EntryVariant,
}

/// What a [`Group`] declares, as plain values.
pub struct GroupModel {
    pub ident: Seq<char>,
    pub vertex: bool,
    pub fragment: bool,
    pub entries: Seq<EntryModel>,
}

impl View for Entry {
    type V = EntryModel;

    open spec fn view(&self) -> EntryModel {
        EntryModel { ident: self.ident@, ty: self.ty@, variant: self.variant }
    }
}

impl View for Group {
    type V = GroupModel;

    open spec fn view(&self) -> GroupModel {
        GroupModel {
            ident: self.ident@,
            vertex: self.vertex,
            fragment: self.fragment,
            entries: self.entries@.map_values(|e: Entry| e@),
        }
    }
}

/// The view of a list of groups.
pub open spec fn groups_view(v: Seq<Group>) -> Seq<GroupModel> {
    v.map_values(|g: Group| g@)
}

/// The binding schema a declared entry stands for.
pub open spec fn schema_of_variant(v: EntryVariant) -> ShaderInputSchema {
    match v {
        EntryVariant::Texture2D { width, height } => ShaderInputSchema::Texture { width, height },
        EntryVariant::Uniform { size } => ShaderInputSchema::Uniform { size },
    }
}

impl EntryVariant {
    pub fn input_schema(&self) -> (r: ShaderInputSchema)
        ensures
            r == schema_of_variant(*self),
    {
        match *self {
            EntryVariant::Texture2D { width, height } => ShaderInputSchema::Texture { width, height },
            EntryVariant::Uniform { size } => ShaderInputSchema::Uniform { size },
        }
    }
}

impl Group {
    /// The group's visibility mask.
    pub open spec fn stages(&self) -> Stages {
        Stages { vertex: self.vertex, fragment: self.fragment }
    }

    /// The bind-group schema of this declared group: one binding per entry, in order.
    pub fn input_group_schema(&self) -> (r: ShaderInputGroupSchema)
        ensures
            r.shader_stages == self.stages(),
            r.input_schemas@.len() == self.entries@.len(),
            forall|i: int|
                0 <= i < self.entries@.len() ==> r.input_schemas@[i] == schema_of_variant(
                    #[trigger] self.entries@[i].variant,
                ),
    {
        let mut input_schemas: Vec<ShaderInputSchema> = Vec::new();
        let mut i: usize = 0;
        while i < self.entries.len()
            invariant
                i <= self.entries@.len(),
                input_schemas@.len() == i,
                forall|j: int|
                    0 <= j < i ==> input_schemas@[j] == schema_of_variant(
                        #[trigger] self.entries@[j].variant,
                    ),
            decreases self.entries@.len() - i,
        {
            input_schemas.push(self.entries[i].variant.input_schema());
            i = i + 1;
        }
        ShaderInputGroupSchema {
            input_schemas,
            shader_stages: Stages { vertex: self.vertex, fragment: self.fragment },
        }
    }
}

/// The vertex entry point of the shader programs this crate builds.
pub const VERTEX_ENTRY: &'static str = "vs_main";

/// The fragment entry point of the shader programs this crate builds.
pub const FRAGMENT_ENTRY: &'static str = "fs_main";

impl Shader {
    /// The pipeline schema of this shader: its source, the standard entry
    /// points, one bind-group schema per declared group in order, and its
    /// vertex-buffer and output slots.
    pub fn pipeline_schema(&self) -> (r: PipelineSchema)
        ensures
            r.source == self.path,
            r.vertex_entry@ == VERTEX_ENTRY@,
            r.fragment_entry matches Some(f) && f@ == FRAGMENT_ENTRY@,
            r.input_group_schemas@.len() == self.bind_groups@.len(),
            forall|g: int|
                0 <= g < self.bind_groups@.len() ==> {
                    let s = #[trigger] r.input_group_schemas@[g];
                    let d = self.bind_groups@[g];
                    &&& s.shader_stages == d.stages()
                    &&& s.input_schemas@.len() == d.entries@.len()
                    &&& forall|i: int|
                        0 <= i < d.entries@.len() ==> s.input_schemas@[i] == schema_of_variant(
                            #[trigger] d.entries@[i].variant,
                        )
                },
            r.buffer_layouts@.len() == self.vertex_buffers@.len(),
            r.targets@.len() == self.outputs@.len(),
    {
        let mut groups: Vec<ShaderInputGroupSchema> = Vec::new();
        let mut g: usize = 0;
        while g < self.bind_groups.len()
            invariant
                g <= self.bind_groups@.len(),
                groups@.len() == g,
                forall|k: int|
                    0 <= k < g ==> {
                        let s = #[trigger] groups@[k];
                        let d = self.bind_groups@[k];
                        &&& s.shader_stages == d.stages()
                        &&& s.input_schemas@.len() == d.entries@.len()
                        &&& forall|i: int|
                            0 <= i < d.entries@.len() ==> s.input_schemas@[i] == schema_of_variant(
                                #[trigger] d.entries@[i].variant,
                            )
                    },
            decreases self.bind_groups@.len() - g,
        {
            groups.push(self.bind_groups[g].input_group_schema());
            g = g + 1;
        }
        let mut buffer_layouts: Vec<Vertex> = Vec::new();
        let mut i: usize = 0;
        while i < self.vertex_buffers.len()
            invariant
                i <= self.vertex_buffers@.len(),
                buffer_layouts@.len() == i,
            decreases self.vertex_buffers@.len() - i,
        {
            buffer_layouts.push(Vertex {});
            i = i + 1;
        }
        let mut targets: Vec<Output> = Vec::new();
        let mut j: usize = 0;
        while j < self.outputs.len()
            invariant
                j <= self.outputs@.len(),
                targets@.len() == j,
            decreases self.outputs@.len() - j,
        {
            targets.push(Output {});
            j = j + 1;
        }
        PipelineSchema {
            source: self.path.clone(),
            vertex_entry: String::from_str(VERTEX_ENTRY),
            fragment_entry: Some(String::from_str(FRAGMENT_ENTRY)),
            input_group_schemas: groups,
            buffer_layouts,
            targets,
        }
    }
}

} // verus!
