//! The draw encoder's plan: what one frame's render pass binds and draws.
//!
//! The pass draws over the given output views, keeping their contents and
//! storing the result, binds the pipeline, binds the `i`th bind group given
//! at group index `i`, and issues one draw over the given ranges.
use vstd::prelude::*;
use crate::layout::BuildError;
use crate::schema::PipelineSchema;

verus! {

/// How one output view takes part in the render pass.
#[derive(Clone, Copy, Debug, PartialEq, Eq, Structural)]
pub struct ColorAttachment {
    /// The position of the view among the outputs given.
    pub output: usize,
    /// Whether the pass starts from the view's existing contents.
    pub load_existing: bool,
    /// Whether the pass stores what it renders.
    pub store_result: bool,
}

/// The commands of one frame's render pass.
#[derive(Debug)]
pub struct DrawPlan {
    pub vertices: core::ops::Range<u32>,
    pub instances: core::ops::Range<u32>,
    /// For the `i`th bind group given, the group index it is bound at.
    pub bind_groups: Vec<u32>,
    /// One attachment per output view given, in order.
    pub attachments: Vec<ColorAttachment>,
}

/// The attachment of output `i`: loaded, drawn over and stored.
pub open spec fn attachment_at(i: int) -> ColorAttachment {
    ColorAttachment { output: i as usize, load_existing: true, store_result: true }
}

/// The plan of one frame drawn with the pipeline of `schema` from `groups`
/// bind groups and `outputs` output views; each must number exactly as the
/// schema declares.
pub fn draw_plan(
    schema: &PipelineSchema,
    vertices: core::ops::Range<u32>,
    instances: core::ops::Range<u32>,
    groups: usize,
    outputs: usize,
) -> (r: Result<DrawPlan, BuildError>)
    requires
        schema.input_group_schemas@.len() <= u32::MAX,
    ensures
        groups != schema.input_group_schemas@.len() ==> r == Err::<DrawPlan, BuildError>(
            BuildError::GroupCount { expected: schema.input_group_schemas@.len() as usize, given: groups },
        ),
        groups == schema.input_group_schemas@.len() && outputs != schema.targets@.len() ==> r
            == Err::<DrawPlan, BuildError>(
            BuildError::OutputCount { expected: schema.targets@.len() as usize, given: outputs },
        ),
        groups == schema.input_group_schemas@.len() && outputs == schema.targets@.len() ==> r is Ok,
        r matches Ok(p) ==> {
            &&& p.vertices == vertices
            &&& p.instances == instances
            &&& p.bind_groups@.len() == groups
            &&& forall|i: int| 0 <= i < groups ==> #[trigger] p.bind_groups@[i] == i
            &&& p.attachments@.len() == outputs
            &&& forall|i: int| 0 <= i < outputs ==> #[trigger] p.attachments@[i] == attachment_at(i)
        },
{
    let n = schema.input_group_schemas.len();
    if groups != n {
        return Err(BuildError::GroupCount { expected: n, given: groups });
    }
    if outputs != schema.targets.len() {
        return Err(BuildError::OutputCount { expected: schema.targets.len(), given: outputs });
    }
    let mut bind_groups: Vec<u32> = Vec::new();
    let mut i: usize = 0;
    while i < groups
        invariant
            groups == n,
            n <= u32::MAX,
            i <= groups,
            bind_groups@.len() == i,
            forall|k: int| 0 <= k < i ==> #[trigger] bind_groups@[k] == k,
        decreases groups - i,
    {
        bind_groups.push(i as u32);
        i = i + 1;
    }
    let mut attachments: Vec<ColorAttachment> = Vec::new();
    let mut j: usize = 0;
    while j < outputs
        invariant
            j <= outputs,
            attachments@.len() == j,
            forall|k: int| 0 <= k < j ==> #[trigger] attachments@[k] == attachment_at(k),
        decreases outputs - j,
    {
        attachments.push(ColorAttachment { output: j, load_existing: true, store_result: true });
        j = j + 1;
    }
    Ok(DrawPlan { vertices, instances, bind_groups, attachments })
}

} // verus!
