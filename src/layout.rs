//! The layout compiler: bind-group layout entries derived from a group schema.
//!
//! The binding index of an entry is its position in the group's list; this is
//! a stability contract, since shader text binds by the same index.
use vstd::prelude::*;
use crate::schema::{ShaderInputGroupSchema, ShaderInputSchema, Stages};

verus! {

/// The resource type of a layout entry.
#[derive(Clone, Copy, Debug, PartialEq, Eq, Structural)]
pub enum BindingType {
    /// A filterless 2-D float texture.
    Texture,
    /// A uniform buffer without dynamic offset.
    Uniform,
}

/// One entry of a bind-group layout.
#[derive(Clone, Copy, Debug, PartialEq, Eq, Structural)]
pub struct LayoutEntry {
    pub binding: u32,
    pub visibility: Stages,
    pub ty: BindingType,
}

/// Why a schema could not be compiled or bound.
#[derive(Clone, Copy, Debug, PartialEq, Eq, Structural)]
pub enum BuildError {
    /// The binding at this position is of a kind without a provider.
    UnsupportedKind { binding: usize },
    /// The number of resources given differs from the number of bindings.
    ArgumentCount { expected: usize, given: usize },
    /// The resource given for this binding is of another kind.
    ArgumentKind { binding: usize },
    /// The group index is not one of the schema's groups.
    NoSuchGroup { group: usize },
    /// The number of bind groups given to a draw differs from the schema's.
    GroupCount { expected: usize, given: usize },
    /// The number of output views given to a draw differs from the schema's.
    OutputCount { expected: usize, given: usize },
}

/// The layout resource type of a binding kind; none for kinds without a provider.
pub open spec fn binding_type_of(s: ShaderInputSchema) -> Option<BindingType> {
    match s {
        ShaderInputSchema::Texture { .. } => Some(BindingType::Texture),
        ShaderInputSchema::Uniform { .. } => Some(BindingType::Uniform),
        _ => None,
    }
}

/// The position of the first binding from `i` on whose kind has no provider,
/// or the length of `s` where there is none.
pub open spec fn first_unsupported(s: Seq<ShaderInputSchema>, i: int) -> int
    decreases s.len() - i,
{
    if i < 0 || i >= s.len() {
        s.len() as int
    } else if binding_type_of(s[i]) is None {
        i
    } else {
        first_unsupported(s, i + 1)
    }
}

/// Whether every binding kind in `s` has a provider.
pub open spec fn all_supported(s: Seq<ShaderInputSchema>) -> bool {
    forall|i: int| 0 <= i < s.len() ==> (#[trigger] binding_type_of(s[i])) is Some
}

/// The layout entry of the binding at position `i` of a group with visibility `v`.
pub open spec fn layout_entry_at(s: Seq<ShaderInputSchema>, v: Stages, i: int) -> LayoutEntry {
    LayoutEntry { binding: i as u32, visibility: v, ty: binding_type_of(s[i])->0 }
}

/// The layout of a group schema: one entry per binding, in order, with binding
/// index equal to position and the group's visibility; or the first binding
/// whose kind has no provider.
pub open spec fn group_layout(g: ShaderInputGroupSchema) -> Result<Seq<LayoutEntry>, BuildError> {
    let s = g.input_schemas@;
    if all_supported(s) {
        Ok(Seq::new(s.len(), |i: int| layout_entry_at(s, g.shader_stages, i)))
    } else {
        Err(BuildError::UnsupportedKind { binding: first_unsupported(s, 0) as usize })
    }
}

proof fn lemma_first_unsupported(s: Seq<ShaderInputSchema>, i: int)
    requires
        0 <= i <= s.len(),
    ensures
        i <= first_unsupported(s, i) <= s.len(),
        forall|k: int| i <= k < first_unsupported(s, i) ==> (#[trigger] binding_type_of(s[k])) is Some,
        first_unsupported(s, i) < s.len() ==> binding_type_of(s[first_unsupported(s, i)]) is None,
    decreases s.len() - i,
{
    if i < s.len() && binding_type_of(s[i]) is Some {
        lemma_first_unsupported(s, i + 1);
    }
}

/// Once a binding at or after `i` has no provider, the first such one is
/// found from `i` on.
proof fn lemma_first_unsupported_from_zero(s: Seq<ShaderInputSchema>, i: int)
    requires
        0 <= i <= s.len(),
        forall|k: int| 0 <= k < i ==> (#[trigger] binding_type_of(s[k])) is Some,
    ensures
        first_unsupported(s, 0) == first_unsupported(s, i),
    decreases i,
{
    if i > 0 {
        lemma_first_unsupported_from_zero(s, i - 1);
    }
}

/// The layout resource type of one binding kind.
pub fn binding_type(s: &ShaderInputSchema) -> (r: Option<BindingType>)
    ensures
        r == binding_type_of(*s),
{
    match s {
        ShaderInputSchema::Texture { .. } => Some(BindingType::Texture),
        ShaderInputSchema::Uniform { .. } => Some(BindingType::Uniform),
        _ => None,
    }
}

impl ShaderInputGroupSchema {
    /// The layout entries of this group: entry `i` has binding `i`, the
    /// group's visibility and the resource type of binding `i`.
    pub fn layout_entries(&self) -> (r: Result<Vec<LayoutEntry>, BuildError>)
        requires
            self.input_schemas@.len() <= u32::MAX,
        ensures
            r matches Ok(v) ==> group_layout(*self) == Ok::<Seq<LayoutEntry>, BuildError>(v@),
            r matches Err(e) ==> group_layout(*self) == Err::<Seq<LayoutEntry>, BuildError>(e),
    {
        let ghost s = self.input_schemas@;
        let mut v: Vec<LayoutEntry> = Vec::new();
        let mut i: usize = 0;
        while i < self.input_schemas.len()
            invariant
                s == self.input_schemas@,
                s.len() <= u32::MAX,
                i <= s.len(),
                v@.len() == i,
                forall|k: int| 0 <= k < i ==> (#[trigger] binding_type_of(s[k])) is Some,
                forall|k: int| 0 <= k < i ==> #[trigger] v@[k] == layout_entry_at(s, self.shader_stages, k),
            decreases s.len() - i,
        {
            match binding_type(&self.input_schemas[i]) {
                None => {
                    proof {
                        lemma_first_unsupported_from_zero(s, i as int);
                        assert(first_unsupported(s, i as int) == i);
                    }
                    return Err(BuildError::UnsupportedKind { binding: i });
                },
                Some(ty) => {
                    v.push(LayoutEntry { binding: i as u32, visibility: self.shader_stages, ty });
                },
            }
            i = i + 1;
        }
        assert(v@ =~= Seq::new(s.len(), |k: int| layout_entry_at(s, self.shader_stages, k)));
        Ok(v)
    }
}

/// Binding indices are positions: the `n`th entry of a compiled group
/// layout, whatever its kind, has binding `n`, and every entry carries the
/// group's visibility.
pub proof fn lemma_binding_is_position(g: ShaderInputGroupSchema, n: int)
    requires
        g.input_schemas@.len() <= u32::MAX,
        group_layout(g) is Ok,
        0 <= n < g.input_schemas@.len(),
    ensures
        group_layout(g)->Ok_0.len() == g.input_schemas@.len(),
        group_layout(g)->Ok_0[n].binding == n,
        group_layout(g)->Ok_0[n].visibility == g.shader_stages,
{
}

} // verus!
