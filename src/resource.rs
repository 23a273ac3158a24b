//! Resource providers and the bind-group builder.
//!
//! A provider turns a binding schema into the exact shape of the resource to
//! allocate; binding those resources into a group is a separate, checked step.
use vstd::prelude::*;
use vstd::arithmetic::div_mod::{lemma_fundamental_div_mod, lemma_mod_multiples_basic};
use crate::layout::{
    BuildError, LayoutEntry, all_supported, binding_type, binding_type_of, group_layout,
};
use crate::schema::{ShaderInputGroupSchema, ShaderInputSchema};

verus! {

/// Bytes per texel of the render formats in use.
pub const TEXEL_BYTES: u64 = 4;

/// The alignment, in bytes, of a row of texels staged into a texture.
pub const ROW_ALIGNMENT: u64 = 256;

/// A resource to allocate, sized exactly as its binding declares.
#[derive(Clone, Copy, Debug, PartialEq, Eq, Structural)]
pub enum ShaderInput {
    /// A 2-D texture of `width` by `height` texels, one layer, one mip level.
    Texture { width: u32, height: u32 },
    /// A uniform buffer of `size` bytes.
    Uniform { size: u64 },
}

/// The error for a binding kind that has no provider.
#[derive(Clone, Copy, Debug, PartialEq, Eq, Structural)]
pub struct UnsupportedKind {}

/// One entry of a bind group: the binding index and the position, among the
/// resources given, of the resource bound there.
#[derive(Clone, Copy, Debug, PartialEq, Eq, Structural)]
pub struct BindEntry {
    pub binding: u32,
    pub resource: usize,
}

/// A group ready to be created: its resources and its layout, both in binding order.
#[derive(Debug)]
pub struct ShaderInputGroup {
    pub inputs: Vec<ShaderInput>,
    pub layout: Vec<LayoutEntry>,
}

/// The resource a binding kind asks for; none for kinds without a provider.
pub open spec fn input_of(s: ShaderInputSchema) -> Option<ShaderInput> {
    match s {
        ShaderInputSchema::Texture { width, height } => Some(ShaderInput::Texture { width, height }),
        ShaderInputSchema::Uniform { size } => Some(ShaderInput::Uniform { size }),
        _ => None,
    }
}

/// `n` rounded up to the next multiple of `a`.
pub open spec fn round_up(n: nat, a: nat) -> nat {
    if n % a == 0 {
        n
    } else {
        (n / a + 1) * a
    }
}

/// The bytes of one staged row of a texture `width` texels wide.
pub open spec fn row_bytes(width: nat) -> nat {
    round_up(width * TEXEL_BYTES as nat, ROW_ALIGNMENT as nat)
}

/// Rounding up gives the least multiple of `a` that is at least `n`.
pub proof fn lemma_round_up(n: nat, a: nat)
    requires
        a > 0,
    ensures
        round_up(n, a) % a == 0,
        n <= round_up(n, a) < n + a,
{
    if n % a != 0 {
        lemma_fundamental_div_mod(n as int, a as int);
        lemma_mod_multiples_basic((n / a + 1) as int, a as int);
        assert((n / a + 1) * a == a * (n / a) + a) by (nonlinear_arith);
    }
}

/// `n` rounded up to a multiple of `align`, where that fits in 64 bits.
pub fn align_up(n: u64, align: u64) -> (r: Option<u64>)
    requires
        align > 0,
    ensures
        r matches Some(v) ==> v == round_up(n as nat, align as nat),
        r is None <==> round_up(n as nat, align as nat) > u64::MAX,
        r matches Some(v) ==> v % align == 0 && n <= v < n + align,
{
    proof {
        lemma_round_up(n as nat, align as nat);
    }
    let rem = n % align;
    if rem == 0 {
        Some(n)
    } else {
        let q = n / align;
        match q.checked_add(1) {
            None => None,
            Some(q1) => {
                proof {
                    assert(q1 as nat * align as nat >= q1 as nat) by (nonlinear_arith)
                        requires
                            align > 0,
                    ;
                }
                q1.checked_mul(align)
            },
        }
    }
}

/// The bytes of one staged row of a texture `width` texels wide: four bytes a
/// texel, rounded up to a multiple of 256.
pub fn padded_row_size(width: u32) -> (r: u64)
    ensures
        r == row_bytes(width as nat),
        r % ROW_ALIGNMENT == 0,
        width as nat * TEXEL_BYTES <= r < width as nat * TEXEL_BYTES + ROW_ALIGNMENT,
{
    proof {
        lemma_round_up(width as nat * 4, 256);
    }
    match align_up(width as u64 * TEXEL_BYTES, ROW_ALIGNMENT) {
        Some(v) => v,
        None => 0,
    }
}

/// The bytes needed to stage a whole texture of `width` by `height` texels,
/// rows padded; none where that does not fit in 64 bits.
pub fn staging_size(width: u32, height: u32) -> (r: Option<u64>)
    ensures
        r matches Some(v) ==> v == row_bytes(width as nat) * height as nat,
        r is None <==> row_bytes(width as nat) * height as nat > u64::MAX,
{
    padded_row_size(width).checked_mul(height as u64)
}

impl ShaderInputSchema {
    /// The resource this binding asks for, of exactly the declared size.
    pub fn build(&self) -> (r: Result<ShaderInput, UnsupportedKind>)
        ensures
            r matches Ok(i) ==> input_of(*self) == Some(i),
            r is Err <==> input_of(*self) is None,
    {
        match *self {
            ShaderInputSchema::Texture { width, height } => Ok(ShaderInput::Texture { width, height }),
            ShaderInputSchema::Uniform { size } => Ok(ShaderInput::Uniform { size }),
            _ => Err(UnsupportedKind {}),
        }
    }
}

/// Whether the resource `r` may be bound where the schema asks for `s`.
pub open spec fn kind_matches(s: ShaderInputSchema, r: ShaderInput) -> bool {
    match (s, r) {
        (ShaderInputSchema::Texture { .. }, ShaderInput::Texture { .. }) => true,
        (ShaderInputSchema::Uniform { .. }, ShaderInput::Uniform { .. }) => true,
        _ => false,
    }
}

/// The first position from `i` on where the resource given does not fit.
pub open spec fn first_mismatch(s: Seq<ShaderInputSchema>, a: Seq<ShaderInput>, i: int) -> int
    decreases s.len() - i,
{
    if i < 0 || i >= s.len() || i >= a.len() {
        s.len() as int
    } else if !kind_matches(s[i], a[i]) {
        i
    } else {
        first_mismatch(s, a, i + 1)
    }
}

/// Whether the resources `a` fit the bindings `s`, in number and kind.
pub open spec fn args_fit(s: Seq<ShaderInputSchema>, a: Seq<ShaderInput>) -> bool {
    a.len() == s.len() && forall|i: int| 0 <= i < s.len() ==> kind_matches(s[i], #[trigger] a[i])
}

/// The entries of a bind group built from the resources `a`, given
/// positionally: resource `i` at binding `i`. A count that differs from the
/// schema's, or a resource of another kind, is rejected.
pub open spec fn bind_plan(s: Seq<ShaderInputSchema>, a: Seq<ShaderInput>) -> Result<
    Seq<BindEntry>,
    BuildError,
> {
    if a.len() != s.len() {
        Err(BuildError::ArgumentCount { expected: s.len() as usize, given: a.len() as usize })
    } else if args_fit(s, a) {
        Ok(Seq::new(s.len(), |i: int| BindEntry { binding: i as u32, resource: i as usize }))
    } else {
        let k = first_mismatch(s, a, 0);
        if binding_type_of(s[k]) is None {
            Err(BuildError::UnsupportedKind { binding: k as usize })
        } else {
            Err(BuildError::ArgumentKind { binding: k as usize })
        }
    }
}

proof fn lemma_first_mismatch(s: Seq<ShaderInputSchema>, a: Seq<ShaderInput>, i: int)
    requires
        0 <= i <= s.len(),
        a.len() == s.len(),
        forall|k: int| 0 <= k < i ==> kind_matches(s[k], #[trigger] a[k]),
    ensures
        first_mismatch(s, a, 0) == first_mismatch(s, a, i),
    decreases i,
{
    if i > 0 {
        lemma_first_mismatch(s, a, i - 1);
    }
}

proof fn lemma_first_mismatch_found(s: Seq<ShaderInputSchema>, a: Seq<ShaderInput>, i: int)
    requires
        0 <= i <= s.len(),
        a.len() == s.len(),
        !args_fit(s, a),
        forall|k: int| 0 <= k < i ==> kind_matches(s[k], #[trigger] a[k]),
    ensures
        i <= first_mismatch(s, a, i) < s.len(),
        !kind_matches(s[first_mismatch(s, a, i)], a[first_mismatch(s, a, i)]),
    decreases s.len() - i,
{
    if i < s.len() && kind_matches(s[i], a[i]) {
        lemma_first_mismatch_found(s, a, i + 1);
    }
}

/// Whether the resource given may be bound where the schema asks for `s`.
fn kind_fits(s: &ShaderInputSchema, r: &ShaderInput) -> (b: bool)
    ensures
        b == kind_matches(*s, *r),
{
    match (s, r) {
        (ShaderInputSchema::Texture { .. }, ShaderInput::Texture { .. }) => true,
        (ShaderInputSchema::Uniform { .. }, ShaderInput::Uniform { .. }) => true,
        _ => false,
    }
}

impl ShaderInputGroupSchema {
    /// The resources of this group, each of exactly its declared size, and
    /// its layout; the first binding without a provider where there is one.
    pub fn build(&self) -> (r: Result<ShaderInputGroup, BuildError>)
        requires
            self.input_schemas@.len() <= u32::MAX,
        ensures
            r matches Ok(g) ==> group_layout(*self) == Ok::<Seq<LayoutEntry>, BuildError>(g.layout@)
                && g.inputs@.len() == self.input_schemas@.len() && forall|i: int|
                0 <= i < g.inputs@.len() ==> input_of(self.input_schemas@[i]) == Some(
                    #[trigger] g.inputs@[i],
                ),
            r matches Err(e) ==> group_layout(*self) == Err::<Seq<LayoutEntry>, BuildError>(e),
    {
        let layout = match self.layout_entries() {
            Ok(l) => l,
            Err(e) => {
                return Err(e);
            },
        };
        let ghost s = self.input_schemas@;
        assert(all_supported(s));
        let mut inputs: Vec<ShaderInput> = Vec::new();
        let mut i: usize = 0;
        while i < self.input_schemas.len()
            invariant
                s == self.input_schemas@,
                all_supported(s),
                i <= s.len(),
                inputs@.len() == i,
                forall|k: int| 0 <= k < i ==> input_of(s[k]) == Some(#[trigger] inputs@[k]),
            decreases s.len() - i,
        {
            assert(binding_type_of(s[i as int]) is Some);
            match self.input_schemas[i].build() {
                Ok(x) => inputs.push(x),
                Err(_) => {
                    return Err(BuildError::UnsupportedKind { binding: i });
                },
            }
            i = i + 1;
        }
        Ok(ShaderInputGroup { inputs, layout })
    }

    /// The entries of a bind group of this schema built from `args`, given
    /// positionally in binding order; rejected where their number or a kind
    /// differs from the schema.
    pub fn bind_entries(&self, args: &Vec<ShaderInput>) -> (r: Result<Vec<BindEntry>, BuildError>)
        requires
            self.input_schemas@.len() <= u32::MAX,
        ensures
            r matches Ok(v) ==> bind_plan(self.input_schemas@, args@) == Ok::<
                Seq<BindEntry>,
                BuildError,
            >(v@),
            r matches Err(e) ==> bind_plan(self.input_schemas@, args@) == Err::<
                Seq<BindEntry>,
                BuildError,
            >(e),
    {
        let ghost s = self.input_schemas@;
        let n = self.input_schemas.len();
        if args.len() != n {
            return Err(BuildError::ArgumentCount { expected: n, given: args.len() });
        }
        let mut v: Vec<BindEntry> = Vec::new();
        let mut i: usize = 0;
        while i < n
            invariant
                s == self.input_schemas@,
                n == s.len(),
                n <= u32::MAX,
                args@.len() == n,
                i <= n,
                v@.len() == i,
                forall|k: int| 0 <= k < i ==> kind_matches(s[k], #[trigger] args@[k]),
                forall|k: int|
                    0 <= k < i ==> #[trigger] v@[k] == (BindEntry { binding: k as u32, resource: k as usize }),
            decreases n - i,
        {
            if !kind_fits(&self.input_schemas[i], &args[i]) {
                proof {
                    lemma_first_mismatch(s, args@, i as int);
                    assert(!args_fit(s, args@));
                }
                if binding_type(&self.input_schemas[i]).is_none() {
                    return Err(BuildError::UnsupportedKind { binding: i });
                }
                return Err(BuildError::ArgumentKind { binding: i });
            }
            v.push(BindEntry { binding: i as u32, resource: i });
            i = i + 1;
        }
        assert(args_fit(s, args@));
        assert(v@ =~= Seq::new(n as nat, |k: int| BindEntry { binding: k as u32, resource: k as usize }));
        Ok(v)
    }
}

/// A bind-group build whose resources differ from the schema in number or
/// in kind is rejected, never coerced: the error names the count, or the
/// first binding whose resource does not fit.
pub proof fn lemma_mismatch_rejected(s: Seq<ShaderInputSchema>, a: Seq<ShaderInput>)
    requires
        !args_fit(s, a),
    ensures
        bind_plan(s, a) is Err,
        a.len() != s.len() ==> bind_plan(s, a) == Err::<Seq<BindEntry>, BuildError>(
            BuildError::ArgumentCount { expected: s.len() as usize, given: a.len() as usize },
        ),
        a.len() == s.len() ==> {
            let k = first_mismatch(s, a, 0);
            &&& 0 <= k < s.len()
            &&& !kind_matches(s[k], a[k])
            &&& forall|j: int| 0 <= j < k ==> kind_matches(s[j], #[trigger] a[j])
        },
{
    if a.len() == s.len() {
        lemma_first_mismatch_found(s, a, 0);
        lemma_first_mismatch_prefix(s, a, 0);
    }
}

proof fn lemma_first_mismatch_prefix(s: Seq<ShaderInputSchema>, a: Seq<ShaderInput>, i: int)
    requires
        0 <= i <= s.len(),
        a.len() == s.len(),
    ensures
        forall|j: int| i <= j < first_mismatch(s, a, i) ==> kind_matches(s[j], #[trigger] a[j]),
    decreases s.len() - i,
{
    if i < s.len() && kind_matches(s[i], a[i]) {
        lemma_first_mismatch_prefix(s, a, i + 1);
    }
}

} // verus!
