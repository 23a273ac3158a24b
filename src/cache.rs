//! Memoized construction of bind-group layouts and of the pipeline.
//!
//! A [`PipelineCache`] belongs to one pipeline schema. It builds each group's
//! layout and the pipeline lazily, through builder closures the caller hands
//! in, and at most once: later requests observe the object built first.
//! Layouts are kept in an arena in construction order and named by their
//! position there.
use vstd::prelude::*;
use crate::layout::{BuildError, LayoutEntry, group_layout};
use crate::schema::PipelineSchema;

verus! {

/// What a pipeline is built from, once every group's layout exists.
#[derive(Debug)]
pub struct PipelinePlan {
    pub source: String,
    pub vertex_entry: String,
    pub fragment_entry: Option<String>,
    /// For each group, in group-index order, the arena position of its layout.
    pub layouts: Vec<usize>,
    /// The number of vertex-buffer slots.
    pub vertex_buffers: usize,
    /// The number of render-target outputs.
    pub targets: usize,
}

/// Whether every group of `s` has few enough bindings to number them in 32 bits.
pub open spec fn bindings_fit(s: PipelineSchema) -> bool {
    forall|g: int|
        0 <= g < s.input_group_schemas@.len() ==> (#[trigger] s.input_group_schemas@[g]).input_schemas@.len()
            <= u32::MAX
}

/// Whether some group's slot names arena position `i`.
pub open spec fn has_owner(slots: Seq<Option<usize>>, i: int) -> bool {
    exists|g: int| 0 <= g < slots.len() && #[trigger] slots[g] == Some(i as usize)
}

/// The layouts and the pipeline of one schema, each built at most once.
pub struct PipelineCache<L, P> {
    schema: PipelineSchema,
    layouts: Vec<L>,
    slots: Vec<Option<usize>>,
    pipeline: Option<P>,
    /// For each built layout, the entries it was built from.
    made_from: Ghost<Seq<Seq<LayoutEntry>>>,
}

impl<L, P> PipelineCache<L, P> {
    /// The schema this cache compiles.
    pub closed spec fn schema_spec(&self) -> PipelineSchema {
        self.schema
    }

    /// The layouts built so far, in construction order.
    pub closed spec fn built(&self) -> Seq<L> {
        self.layouts@
    }

    /// The arena position of group `g`'s layout, once it is built.
    pub closed spec fn slot(&self, g: int) -> Option<usize> {
        self.slots@[g]
    }

    /// The pipeline, once it is built.
    pub closed spec fn pipeline_spec(&self) -> Option<P> {
        self.pipeline
    }

    /// The layout entries the layout at arena position `i` was built from.
    pub closed spec fn entries_of(&self, i: int) -> Seq<LayoutEntry> {
        self.made_from@[i]
    }

    /// The number of groups of the schema.
    pub open spec fn group_count(&self) -> int {
        self.schema_spec().input_group_schemas@.len() as int
    }

    /// The internal invariant: one slot per group; each built layout belongs
    /// to exactly one group; no group has two.
    pub closed spec fn wf(&self) -> bool {
        &&& bindings_fit(self.schema)
        &&& self.slots@.len() == self.schema.input_group_schemas@.len()
        &&& forall|g: int|
            0 <= g < self.slots@.len() && (#[trigger] self.slots@[g]) is Some ==> self.slots@[g]->0
                < self.layouts@.len()
        &&& forall|g1: int, g2: int|
            0 <= g1 < self.slots@.len() && 0 <= g2 < self.slots@.len() && (#[trigger] self.slots@[g1])
                is Some && #[trigger] self.slots@[g2] == self.slots@[g1] ==> g1 == g2
        &&& forall|i: int| 0 <= i < self.layouts@.len() ==> #[trigger] has_owner(self.slots@, i)
        &&& self.pipeline is Some ==> forall|g: int|
            0 <= g < self.slots@.len() ==> (#[trigger] self.slots@[g]) is Some
        &&& self.made_from@.len() == self.layouts@.len()
        &&& forall|g: int|
            0 <= g < self.slots@.len() && (#[trigger] self.slots@[g]) is Some ==> group_layout(
                self.schema.input_group_schemas@[g],
            ) == Ok::<Seq<LayoutEntry>, BuildError>(self.made_from@[self.slots@[g]->0 as int])
    }

    /// Every built group layout stands in the arena and was built from its
    /// own group's layout entries.
    pub open spec fn layouts_match(&self) -> bool {
        forall|g: int|
            0 <= g < self.group_count() && (#[trigger] self.slot(g)) is Some ==> {
                &&& self.slot(g)->0 < self.built().len()
                &&& group_layout(self.schema_spec().input_group_schemas@[g]) == Ok::<
                    Seq<LayoutEntry>,
                    BuildError,
                >(self.entries_of(self.slot(g)->0 as int))
            }
    }

    /// The number of groups among the first `n` whose layout is not built.
    pub open spec fn missing_upto(&self, n: int) -> nat
        decreases n,
    {
        if n <= 0 {
            0
        } else {
            self.missing_upto(n - 1) + if self.slot(n - 1) is None {
                1nat
            } else {
                0nat
            }
        }
    }

    /// The number of groups whose layout is not built.
    pub open spec fn missing(&self) -> nat {
        self.missing_upto(self.group_count())
    }

    /// Whether every group's layout is built.
    pub open spec fn all_built(&self) -> bool {
        forall|g: int| 0 <= g < self.group_count() ==> (#[trigger] self.slot(g)) is Some
    }

    /// The arena positions of the groups' layouts, in group-index order.
    pub open spec fn layout_order(&self) -> Seq<usize> {
        Seq::new(self.group_count() as nat, |g: int| self.slot(g)->0)
    }

    /// How a request for group `group`'s layout, answered `r`, takes the
    /// cache from `c0` to `c1`: an existing layout is returned and nothing
    /// changes; otherwise exactly one layout is built and recorded for the
    /// group, or the schema's error is returned and nothing changes.
    pub open spec fn layout_step(c0: Self, group: usize, r: Result<usize, BuildError>, c1: Self) -> bool {
        &&& c1.schema_spec() == c0.schema_spec()
        &&& c1.pipeline_spec() == c0.pipeline_spec()
        &&& if group >= c0.group_count() {
            r == Err::<usize, BuildError>(BuildError::NoSuchGroup { group }) && c1 == c0
        } else if c0.slot(group as int) is Some {
            r == Ok::<usize, BuildError>(c0.slot(group as int)->0) && c1 == c0
        } else {
            match group_layout(c0.schema_spec().input_group_schemas@[group as int]) {
                Err(e) => r == Err::<usize, BuildError>(e) && c1 == c0,
                Ok(_) => {
                    &&& c1.built().len() == c0.built().len() + 1
                    &&& c1.built().drop_last() == c0.built()
                    &&& c1.slot(group as int) is Some
                    &&& c1.slot(group as int)->0 == c0.built().len()
                    &&& r == Ok::<usize, BuildError>(c1.slot(group as int)->0)
                    &&& forall|g: int|
                        0 <= g < c0.group_count() && g != group ==> #[trigger] c1.slot(g) == c0.slot(g)
                },
            }
        }
    }

    /// How a pipeline request, answered `r`, takes the cache from `c0` to
    /// `c1`: once the pipeline exists nothing changes; otherwise layouts
    /// already built are kept, and on success every group has its layout and
    /// the pipeline exists; a failure is the error of one group's layout.
    pub open spec fn pipeline_step(c0: Self, r: Result<(), BuildError>, c1: Self) -> bool {
        &&& c1.schema_spec() == c0.schema_spec()
        &&& c0.pipeline_spec() is Some ==> r is Ok && c1 == c0
        &&& r is Ok ==> c1.pipeline_spec() is Some && c1.all_built()
        &&& r is Ok && c0.pipeline_spec() is None ==> c1.built().len() == c0.built().len()
            + c0.missing()
        &&& forall|g: int|
            0 <= g < c0.group_count() && (#[trigger] c0.slot(g)) is Some ==> c1.slot(g) == c0.slot(g)
        &&& c1.built().subrange(0, c0.built().len() as int) == c0.built()
        &&& r is Err ==> c1.pipeline_spec() is None && exists|g: int|
            0 <= g < c0.group_count() && group_layout(c0.schema_spec().input_group_schemas@[g])
                == Err::<Seq<LayoutEntry>, BuildError>(r->Err_0)
    }

    proof fn lemma_layouts_match(&self)
        requires
            self.wf(),
        ensures
            self.layouts_match(),
    {
        assert forall|g: int| 0 <= g < self.group_count() && (#[trigger] self.slot(g)) is Some implies {
            &&& self.slot(g)->0 < self.built().len()
            &&& group_layout(self.schema_spec().input_group_schemas@[g]) == Ok::<
                Seq<LayoutEntry>,
                BuildError,
            >(self.entries_of(self.slot(g)->0 as int))
        } by {
            assert(self.slots@[g] is Some);
        }
    }

    /// A cache for `schema` with nothing built yet.
    pub fn new(schema: PipelineSchema) -> (r: Self)
        requires
            bindings_fit(schema),
        ensures
            r.wf(),
            r.schema_spec() == schema,
            r.built().len() == 0,
            r.pipeline_spec() is None,
            r.layouts_match(),
            forall|g: int| 0 <= g < r.group_count() ==> (#[trigger] r.slot(g)) is None,
    {
        let n = schema.input_group_schemas.len();
        let mut slots: Vec<Option<usize>> = Vec::new();
        let mut i: usize = 0;
        while i < n
            invariant
                i <= n,
                slots@.len() == i,
                forall|g: int| 0 <= g < i ==> (#[trigger] slots@[g]) is None,
            decreases n - i,
        {
            slots.push(None);
            i = i + 1;
        }
        PipelineCache { schema, layouts: Vec::new(), slots, pipeline: None, made_from: Ghost(Seq::empty()) }
    }

    /// The schema this cache compiles.
    pub fn schema(&self) -> (r: &PipelineSchema)
        ensures
            *r == self.schema_spec(),
    {
        &self.schema
    }

    /// The number of layouts built so far.
    pub fn layout_count(&self) -> (r: usize)
        ensures
            r == self.built().len(),
    {
        self.layouts.len()
    }

    /// The layout at arena position `i`.
    pub fn layout_at(&self, i: usize) -> (r: &L)
        requires
            i < self.built().len(),
        ensures
            *r == self.built()[i as int],
    {
        &self.layouts[i]
    }

    /// The arena position of group `group`'s layout, if it is built.
    pub fn layout_slot(&self, group: usize) -> (r: Option<usize>)
        requires
            self.wf(),
        ensures
            group < self.group_count() ==> r == self.slot(group as int),
            group >= self.group_count() ==> r is None,
            r matches Some(i) ==> i < self.built().len(),
    {
        if group < self.slots.len() {
            self.slots[group]
        } else {
            None
        }
    }

    /// The pipeline, if it is built.
    pub fn pipeline_handle(&self) -> (r: Option<&P>)
        ensures
            r matches Some(p) ==> self.pipeline_spec() == Some(*p),
            r is None <==> self.pipeline_spec() is None,
    {
        match &self.pipeline {
            Some(p) => Some(p),
            None => None,
        }
    }

    /// The arena position of group `group`'s layout, building it with
    /// `build` from the group's layout entries on the first request only.
    pub fn layout<F: FnOnce(Vec<LayoutEntry>) -> L>(&mut self, group: usize, build: F) -> (r: Result<
        usize,
        BuildError,
    >)
        requires
            old(self).wf(),
            forall|e: Vec<LayoutEntry>| build.requires((e,)),
        ensures
            final(self).wf(),
            final(self).layouts_match(),
            Self::layout_step(*old(self), group, r, *final(self)),
            r is Ok && old(self).built().len() < final(self).built().len() ==> exists|
                e: Vec<LayoutEntry>,
            |
                group_layout(old(self).schema_spec().input_group_schemas@[group as int]) == Ok::<
                    Seq<LayoutEntry>,
                    BuildError,
                >(e@) && e@ == final(self).entries_of(final(self).built().len() - 1) && build.ensures(
                    (e,),
                    final(self).built().last(),
                ),
    {
        if group >= self.slots.len() {
            proof {
                self.lemma_layouts_match();
            }
            return Err(BuildError::NoSuchGroup { group });
        }
        if let Some(i) = self.slots[group] {
            return Ok(i);
        }
        proof {
            self.lemma_layouts_match();
        }
        assert(bindings_fit(self.schema));
        assert(self.schema.input_group_schemas@[group as int].input_schemas@.len() <= u32::MAX);
        let entries = match self.schema.input_group_schemas[group].layout_entries() {
            Ok(e) => e,
            Err(e) => {
                return Err(e);
            },
        };
        let ghost e0 = entries;
        let handle = build(entries);
        let i = self.layouts.len();
        let ghost old_slots = self.slots@;
        self.layouts.push(handle);
        self.slots.set(group, Some(i));
        proof {
            self.made_from = Ghost(self.made_from@.push(e0@));
        }
        proof {
            assert(self.slots@ == old_slots.update(group as int, Some(i)));
            assert forall|j: int| 0 <= j < self.layouts@.len() implies #[trigger] has_owner(self.slots@, j) by {
                if j == i {
                    assert(self.slots@[group as int] == Some(j as usize));
                } else {
                    assert(has_owner(old_slots, j));
                    let g = choose|g: int| 0 <= g < old_slots.len() && #[trigger] old_slots[g] == Some(j as usize);
                    assert(g != group);
                    assert(self.slots@[g] == Some(j as usize));
                }
            }
            assert(self.built().drop_last() =~= old(self).built());
            assert(build.ensures((e0,), self.built().last()));
            assert forall|g: int|
                0 <= g < self.slots@.len() && (#[trigger] self.slots@[g]) is Some implies group_layout(
                    self.schema.input_group_schemas@[g],
                ) == Ok::<Seq<LayoutEntry>, BuildError>(self.made_from@[self.slots@[g]->0 as int]) by {
                if g != group {
                    assert(old_slots[g] is Some);
                }
            }
            self.lemma_layouts_match();
        }
        Ok(i)
    }

    /// Builds every missing group layout, in group-index order, then the
    /// pipeline with `build_pipeline` from the layouts and the plan; once the
    /// pipeline exists, nothing is built again.
    pub fn pipeline<FL: Fn(Vec<LayoutEntry>) -> L, FP: FnOnce(&Vec<L>, PipelinePlan) -> P>(
        &mut self,
        build_layout: FL,
        build_pipeline: FP,
    ) -> (r: Result<(), BuildError>)
        requires
            old(self).wf(),
            forall|e: Vec<LayoutEntry>| build_layout.requires((e,)),
            forall|l: &Vec<L>, p: PipelinePlan| build_pipeline.requires((l, p)),
        ensures
            final(self).wf(),
            final(self).layouts_match(),
            Self::pipeline_step(*old(self), r, *final(self)),
            old(self).pipeline_spec() is None && r is Ok ==> forall|g: int|
                0 <= g < old(self).group_count() && (#[trigger] old(self).slot(g)) is None ==> exists|
                    e: Vec<LayoutEntry>,
                |
                    e@ == final(self).entries_of(final(self).slot(g)->0 as int) && build_layout.ensures(
                        (e,),
                        final(self).built()[final(self).slot(g)->0 as int],
                    ),
            old(self).pipeline_spec() is None && r is Ok ==> exists|l: Vec<L>, p: PipelinePlan|
                l@ == final(self).built() && plan_fits(p, final(self).schema_spec(), final(self).layout_order())
                    && build_pipeline.ensures((&l, p), final(self).pipeline_spec()->0),
    {
        proof {
            self.lemma_layouts_match();
        }
        if self.pipeline.is_some() {
            assert(self.built().subrange(0, self.built().len() as int) =~= self.built());
            assert forall|k: int| 0 <= k < self.group_count() implies (#[trigger] self.slot(k)) is Some by {
                assert(self.slots@[k] is Some);
            }
            return Ok(());
        }
        let n = self.slots.len();
        let mut order: Vec<usize> = Vec::new();
        let mut g: usize = 0;
        while g < n
            invariant
                self.wf(),
                n == self.slots@.len(),
                n == self.group_count(),
                self.schema_spec() == old(self).schema_spec(),
                self.pipeline_spec() is None,
                old(self).pipeline_spec() is None,
                g <= n,
                order@.len() == g,
                forall|k: int| 0 <= k < g ==> (#[trigger] self.slot(k)) is Some && order@[k] == self.slot(k)->0,
                forall|k: int|
                    0 <= k < n && (#[trigger] old(self).slot(k)) is Some ==> self.slot(k) == old(self).slot(k),
                self.built().subrange(0, old(self).built().len() as int) == old(self).built(),
                old(self).built().len() <= self.built().len(),
                forall|e: Vec<LayoutEntry>| build_layout.requires((e,)),
                forall|k: int| g <= k < n ==> #[trigger] self.slot(k) == old(self).slot(k),
                self.built().len() == old(self).built().len() + old(self).missing_upto(g as int),
                forall|k: int|
                    0 <= k < g && (#[trigger] old(self).slot(k)) is None ==> exists|e: Vec<LayoutEntry>|
                        e@ == self.entries_of(self.slot(k)->0 as int) && build_layout.ensures(
                            (e,),
                            self.built()[self.slot(k)->0 as int],
                        ),
            decreases n - g,
        {
            let ghost before = *self;
            let build = |e: Vec<LayoutEntry>| -> (h: L)
                requires
                    build_layout.requires((e,)),
                ensures
                    build_layout.ensures((e,), h),
                { build_layout(e) };
            let r = self.layout(g, build);
            proof {
                assert(Self::layout_step(before, g, r, *self));
                assert(before.slot(g as int) == old(self).slot(g as int));
                if r is Ok {
                    assert forall|k: int|
                        0 <= k < g + 1 && (#[trigger] old(self).slot(k)) is None implies exists|
                            e: Vec<LayoutEntry>,
                        |
                            e@ == self.entries_of(self.slot(k)->0 as int) && build_layout.ensures(
                                (e,),
                                self.built()[self.slot(k)->0 as int],
                            ) by {
                        if k < g {
                            assert(before.slot(k) is Some);
                            assert(before.slots@[k] is Some);
                            let e = choose|e: Vec<LayoutEntry>|
                                e@ == before.entries_of(before.slot(k)->0 as int) && build_layout.ensures(
                                    (e,),
                                    before.built()[before.slot(k)->0 as int],
                                );
                            if before.built().len() < self.built().len() {
                                assert(self.built()[before.slot(k)->0 as int] == before.built()[before.slot(k)->0 as int]);
                            }
                            assert(self.slot(k) == before.slot(k));
                            assert(self.entries_of(self.slot(k)->0 as int) == before.entries_of(
                                before.slot(k)->0 as int,
                            ));
                            assert(e@ == self.entries_of(self.slot(k)->0 as int) && build_layout.ensures(
                                (e,),
                                self.built()[self.slot(k)->0 as int],
                            ));
                        } else {
                            assert(before.built().len() < self.built().len());
                            let e = choose|e: Vec<LayoutEntry>|
                                group_layout(before.schema_spec().input_group_schemas@[g as int]) == Ok::<
                                    Seq<LayoutEntry>,
                                    BuildError,
                                >(e@) && e@ == self.entries_of(self.built().len() - 1) && build.ensures(
                                    (e,),
                                    self.built().last(),
                                );
                            assert(build_layout.ensures((e,), self.built().last()));
                            assert(k == g);
                            assert(self.slot(k)->0 as int == self.built().len() - 1);
                            assert(e@ == self.entries_of(self.slot(k)->0 as int) && build_layout.ensures(
                                (e,),
                                self.built()[self.slot(k)->0 as int],
                            ));
                        }
                    }
                }
                if r is Ok && before.built().len() < self.built().len() {
                    assert(self.built().subrange(0, before.built().len() as int) =~= before.built());
                }
                assert(self.built().subrange(0, old(self).built().len() as int) =~= old(self).built());
            }
            match r {
                Ok(i) => {
                    order.push(i);
                },
                Err(e) => {
                    return Err(e);
                },
            }
            g = g + 1;
        }
        let fragment_entry = match &self.schema.fragment_entry {
            Some(f) => Some(f.clone()),
            None => None,
        };
        let plan = PipelinePlan {
            source: self.schema.source.clone(),
            vertex_entry: self.schema.vertex_entry.clone(),
            fragment_entry,
            layouts: order,
            vertex_buffers: self.schema.buffer_layouts.len(),
            targets: self.schema.targets.len(),
        };
        assert(plan.layouts@ =~= self.layout_order());
        assert forall|k: int| 0 <= k < n implies (#[trigger] self.slots@[k]) is Some by {
            assert(self.slot(k) is Some);
        }
        let ghost plan0 = plan;
        assert(plan0.source@ == self.schema.source@);
        assert(plan0.vertex_entry@ == self.schema.vertex_entry@);
        assert(plan0.vertex_buffers == self.schema.buffer_layouts@.len());
        assert(plan0.targets == self.schema.targets@.len());
        let ghost l0 = self.layouts;
        let p = build_pipeline(&self.layouts, plan);
        self.pipeline = Some(p);
        assert(plan0.layouts@ == self.layout_order());
        assert(self.schema_spec() == self.schema);
        assert(plan_fits(plan0, self.schema_spec(), self.layout_order()));
        assert(l0@ == self.built() && plan_fits(plan0, self.schema_spec(), self.layout_order()) && build_pipeline.ensures(
            (&l0, plan0),
            self.pipeline_spec()->0,
        ));
        Ok(())
    }
}

/// Whether `p` is the plan of `schema` with the layouts in `order`: the
/// schema's source, entry points, vertex-buffer count and target count.
pub open spec fn plan_fits(p: PipelinePlan, schema: PipelineSchema, order: Seq<usize>) -> bool {
    &&& p.layouts@ == order
    &&& p.source@ == schema.source@
    &&& p.vertex_entry@ == schema.vertex_entry@
    &&& match (p.fragment_entry, schema.fragment_entry) {
        (Some(f), Some(sf)) => f@ == sf@,
        (None, None) => true,
        _ => false,
    }
    &&& p.vertex_buffers == schema.buffer_layouts@.len()
    &&& p.targets == schema.targets@.len()
}

/// Layout construction is idempotent: a second request for the same group
/// gets the same answer and changes nothing, so over both requests at most
/// one layout is built.
pub proof fn lemma_layout_idempotent<L, P>(
    c0: PipelineCache<L, P>,
    c1: PipelineCache<L, P>,
    c2: PipelineCache<L, P>,
    group: usize,
    r1: Result<usize, BuildError>,
    r2: Result<usize, BuildError>,
)
    requires
        PipelineCache::layout_step(c0, group, r1, c1),
        PipelineCache::layout_step(c1, group, r2, c2),
    ensures
        r2 == r1,
        c2 == c1,
        c2.built().len() <= c0.built().len() + 1,
{
}

/// Pipeline construction is idempotent: once a request has succeeded, a
/// second one succeeds, builds nothing and leaves the same pipeline.
pub proof fn lemma_pipeline_idempotent<L, P>(
    c0: PipelineCache<L, P>,
    c1: PipelineCache<L, P>,
    c2: PipelineCache<L, P>,
    r1: Result<(), BuildError>,
    r2: Result<(), BuildError>,
)
    requires
        PipelineCache::pipeline_step(c0, r1, c1),
        PipelineCache::pipeline_step(c1, r2, c2),
        r1 is Ok,
    ensures
        r2 is Ok,
        c2 == c1,
        c2.pipeline_spec() is Some,
        c2.pipeline_spec() == c1.pipeline_spec(),
        c2.built() == c1.built(),
{
}

proof fn lemma_missing_all<L, P>(c: PipelineCache<L, P>, n: int)
    requires
        0 <= n <= c.group_count(),
        forall|g: int| 0 <= g < c.group_count() ==> (#[trigger] c.slot(g)) is None,
    ensures
        c.missing_upto(n) == n,
    decreases n,
{
    if n > 0 {
        lemma_missing_all(c, n - 1);
    }
}

/// No duplicate construction: the first successful pipeline request on a
/// fresh cache builds exactly one layout per group, and every group's layout
/// was built from that group's own layout entries.
pub proof fn lemma_first_pipeline_builds_each_layout_once<L, P>(
    c0: PipelineCache<L, P>,
    c1: PipelineCache<L, P>,
    r: Result<(), BuildError>,
)
    requires
        c0.built().len() == 0,
        c0.pipeline_spec() is None,
        forall|g: int| 0 <= g < c0.group_count() ==> (#[trigger] c0.slot(g)) is None,
        PipelineCache::pipeline_step(c0, r, c1),
        c1.layouts_match(),
        r is Ok,
    ensures
        c1.built().len() == c1.group_count(),
        c1.all_built(),
        forall|g: int|
            0 <= g < c1.group_count() ==> group_layout(c1.schema_spec().input_group_schemas@[g])
                == Ok::<Seq<LayoutEntry>, BuildError>(c1.entries_of((#[trigger] c1.slot(g))->0 as int)),
{
    lemma_missing_all(c0, c0.group_count());
}

} // verus!
