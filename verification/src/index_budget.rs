//! Resource budgets of one repository-index build or query, and the
//! tracker that charges work against them.
use vstd::prelude::*;
use std::time::{Duration, Instant};
use crate::clock::{
    duration_as_nanos, duration_from_millis, duration_from_secs, duration_nanos,
    duration_saturating_sub, instant_elapsed, instant_now,
};

verus! {

pub const INDEX_RESOURCE_COUNT: usize = 14;

#[derive(Debug, Clone, Copy, PartialEq, Eq)]
pub struct IndexBudget {
    pub deadline: Duration,
    pub max_manifest_files: usize,
    pub max_manifest_bytes: usize,
    pub max_project_model_files: usize,
    pub max_project_model_bytes: usize,
    pub max_file_bytes: usize,
    pub max_parse_bytes: usize,
    pub max_nodes: usize,
    pub max_facts: usize,
    pub max_symbols: usize,
    pub max_edges: usize,
    pub max_generation_bytes: usize,
    pub max_overlay_paths: usize,
    pub max_query_rows: usize,
    pub max_graph_depth: usize,
}

impl IndexBudget {
    /// The limits of a fast build: the deep limits, tightened.
    pub fn fast_defaults() -> (b: Self)
        ensures
            duration_nanos(b.deadline) == 750_000_000,
            b.max_manifest_files == 100_000,
            b.max_manifest_bytes == 32 * 1024 * 1024,
            b.max_project_model_files == 1_000,
            b.max_project_model_bytes == 8 * 1024 * 1024,
            b.max_file_bytes == 2 * 1024 * 1024,
            b.max_parse_bytes == 8 * 1024 * 1024,
            b.max_nodes == 250_000,
            b.max_facts == 50_000,
            b.max_symbols == 50_000,
            b.max_edges == 500,
            b.max_generation_bytes == 64 * 1024 * 1024,
            b.max_overlay_paths == 30,
            b.max_query_rows == 500,
            b.max_graph_depth == 1,
    {
        let mut budget = Self::deep_defaults();
        budget.deadline = duration_from_millis(750);
        budget.max_parse_bytes = 8 * 1024 * 1024;
        budget.max_nodes = 250_000;
        budget.max_facts = 50_000;
        budget.max_symbols = 50_000;
        budget.max_edges = 500;
        budget.max_generation_bytes = 64 * 1024 * 1024;
        budget.max_overlay_paths = 30;
        budget.max_query_rows = 500;
        budget.max_graph_depth = 1;
        budget
    }

    /// The limits of a deep build.
    pub fn deep_defaults() -> (b: Self)
        ensures
            duration_nanos(b.deadline) == 30_000_000_000,
            b.max_manifest_files == 100_000,
            b.max_manifest_bytes == 32 * 1024 * 1024,
            b.max_project_model_files == 1_000,
            b.max_project_model_bytes == 8 * 1024 * 1024,
            b.max_file_bytes == 2 * 1024 * 1024,
            b.max_parse_bytes == 512 * 1024 * 1024,
            b.max_nodes == 10_000_000,
            b.max_facts == 2_000_000,
            b.max_symbols == 1_000_000,
            b.max_edges == 5_000_000,
            b.max_generation_bytes == 2 * 1024 * 1024 * 1024,
            b.max_overlay_paths == 10_000,
            b.max_query_rows == 50_000,
            b.max_graph_depth == 2,
    {
        IndexBudget {
            deadline: duration_from_secs(30),
            max_manifest_files: 100_000,
            max_manifest_bytes: 32 * 1024 * 1024,
            max_project_model_files: 1_000,
            max_project_model_bytes: 8 * 1024 * 1024,
            max_file_bytes: 2 * 1024 * 1024,
            max_parse_bytes: 512 * 1024 * 1024,
            max_nodes: 10_000_000,
            max_facts: 2_000_000,
            max_symbols: 1_000_000,
            max_edges: 5_000_000,
            max_generation_bytes: 2 * 1024 * 1024 * 1024,
            max_overlay_paths: 10_000,
            max_query_rows: 50_000,
            max_graph_depth: 2,
        }
    }

    /// The limit of `resource`.
    pub open spec fn limit_of(&self, resource: IndexResource) -> usize {
        match resource {
            IndexResource::ManifestFiles => self.max_manifest_files,
            IndexResource::ManifestBytes => self.max_manifest_bytes,
            IndexResource::ProjectModelFiles => self.max_project_model_files,
            IndexResource::ProjectModelBytes => self.max_project_model_bytes,
            IndexResource::FileBytes => self.max_file_bytes,
            IndexResource::ParseBytes => self.max_parse_bytes,
            IndexResource::Nodes => self.max_nodes,
            IndexResource::Facts => self.max_facts,
            IndexResource::Symbols => self.max_symbols,
            IndexResource::Edges => self.max_edges,
            IndexResource::GenerationBytes => self.max_generation_bytes,
            IndexResource::OverlayPaths => self.max_overlay_paths,
            IndexResource::QueryRows => self.max_query_rows,
            IndexResource::GraphDepth => self.max_graph_depth,
        }
    }
}

#[derive(Debug, Clone, Copy, PartialEq, Eq, Structural)]
pub enum IndexResource {
    ManifestFiles,
    ManifestBytes,
    ProjectModelFiles,
    ProjectModelBytes,
    FileBytes,
    ParseBytes,
    Nodes,
    Facts,
    Symbols,
    Edges,
    GenerationBytes,
    OverlayPaths,
    QueryRows,
    GraphDepth,
}

impl IndexResource {
    /// The position of the resource in declaration order.
    pub open spec fn index_of(self) -> int {
        match self {
            IndexResource::ManifestFiles => 0,
            IndexResource::ManifestBytes => 1,
            IndexResource::ProjectModelFiles => 2,
            IndexResource::ProjectModelBytes => 3,
            IndexResource::FileBytes => 4,
            IndexResource::ParseBytes => 5,
            IndexResource::Nodes => 6,
            IndexResource::Facts => 7,
            IndexResource::Symbols => 8,
            IndexResource::Edges => 9,
            IndexResource::GenerationBytes => 10,
            IndexResource::OverlayPaths => 11,
            IndexResource::QueryRows => 12,
            IndexResource::GraphDepth => 13,
        }
    }

    fn index(self) -> (r: usize)
        ensures
            r == self.index_of(),
            r < INDEX_RESOURCE_COUNT,
    {
        match self {
            IndexResource::ManifestFiles => 0,
            IndexResource::ManifestBytes => 1,
            IndexResource::ProjectModelFiles => 2,
            IndexResource::ProjectModelBytes => 3,
            IndexResource::FileBytes => 4,
            IndexResource::ParseBytes => 5,
            IndexResource::Nodes => 6,
            IndexResource::Facts => 7,
            IndexResource::Symbols => 8,
            IndexResource::Edges => 9,
            IndexResource::GenerationBytes => 10,
            IndexResource::OverlayPaths => 11,
            IndexResource::QueryRows => 12,
            IndexResource::GraphDepth => 13,
        }
    }

    /// The limitation code reported when the resource runs out.
    pub open spec fn exhaustion_code_of(self) -> Seq<char> {
        match self {
            IndexResource::ManifestFiles => "index-manifest-file-budget-exhausted"@,
            IndexResource::ManifestBytes => "index-manifest-byte-budget-exhausted"@,
            IndexResource::ProjectModelFiles => "index-project-model-file-budget-exhausted"@,
            IndexResource::ProjectModelBytes => "index-project-model-byte-budget-exhausted"@,
            IndexResource::FileBytes => "index-file-byte-budget-exhausted"@,
            IndexResource::ParseBytes => "index-parse-byte-budget-exhausted"@,
            IndexResource::Nodes => "index-node-budget-exhausted"@,
            IndexResource::Facts => "index-fact-budget-exhausted"@,
            IndexResource::Symbols => "index-symbol-budget-exhausted"@,
            IndexResource::Edges => "index-edge-budget-exhausted"@,
            IndexResource::GenerationBytes => "index-generation-byte-budget-exhausted"@,
            IndexResource::OverlayPaths => "index-overlay-path-budget-exhausted"@,
            IndexResource::QueryRows => "index-query-row-budget-exhausted"@,
            IndexResource::GraphDepth => "index-graph-depth-budget-exhausted"@,
        }
    }

    /// The limitation code reported when the resource runs out.
    pub fn exhaustion_code(self) -> (r: &'static str)
        ensures
            r@ == self.exhaustion_code_of(),
    {
        match self {
            IndexResource::ManifestFiles => "index-manifest-file-budget-exhausted",
            IndexResource::ManifestBytes => "index-manifest-byte-budget-exhausted",
            IndexResource::ProjectModelFiles => "index-project-model-file-budget-exhausted",
            IndexResource::ProjectModelBytes => "index-project-model-byte-budget-exhausted",
            IndexResource::FileBytes => "index-file-byte-budget-exhausted",
            IndexResource::ParseBytes => "index-parse-byte-budget-exhausted",
            IndexResource::Nodes => "index-node-budget-exhausted",
            IndexResource::Facts => "index-fact-budget-exhausted",
            IndexResource::Symbols => "index-symbol-budget-exhausted",
            IndexResource::Edges => "index-edge-budget-exhausted",
            IndexResource::GenerationBytes => "index-generation-byte-budget-exhausted",
            IndexResource::OverlayPaths => "index-overlay-path-budget-exhausted",
            IndexResource::QueryRows => "index-query-row-budget-exhausted",
            IndexResource::GraphDepth => "index-graph-depth-budget-exhausted",
        }
    }
}

#[derive(Debug, Clone, Copy, PartialEq, Eq, Structural)]
pub struct IndexBudgetAmount {
    pub initial: usize,
    pub consumed: usize,
    pub remaining: usize,
    pub exhausted: bool,
}

/// A resource or the deadline ran out.
#[derive(Debug, Clone, Copy, PartialEq, Eq)]
pub struct IndexBudgetExhaustion {
    resource: Option<IndexResource>,
    code: &'static str,
}

impl IndexBudgetExhaustion {
    /// The resource that ran out; `None` for the deadline.
    pub closed spec fn resource_of(self) -> Option<IndexResource> {
        self.resource
    }

    /// The limitation code.
    pub closed spec fn code_of(self) -> Seq<char> {
        self.code@
    }

    /// The limitation code.
    pub fn code(self) -> (r: &'static str)
        ensures
            r@ == self.code_of(),
    {
        self.code
    }

    /// The resource that ran out; `None` for the deadline.
    pub fn resource(self) -> (r: Option<IndexResource>)
        ensures
            r == self.resource_of(),
    {
        self.resource
    }

    /// The exhaustion of `resource`, reported under its own code.
    pub open spec fn of_resource(self, resource: IndexResource) -> bool {
        self.resource_of() == Some(resource) && self.code_of() == resource.exhaustion_code_of()
    }

    /// The exhaustion of the deadline.
    pub open spec fn of_deadline(self) -> bool {
        self.resource_of() is None && self.code_of() == "index-deadline-exhausted"@
    }
}

fn index_resource_exhaustion(resource: IndexResource) -> (r: IndexBudgetExhaustion)
    ensures
        r.of_resource(resource),
{
    IndexBudgetExhaustion { resource: Some(resource), code: resource.exhaustion_code() }
}

/// Charges work against an [`IndexBudget`].
pub struct IndexBudgetTracker {
    budget: IndexBudget,
    started: Instant,
    consumed: Vec<usize>,
    exhausted: Vec<bool>,
    deadline_exhausted: bool,
}

impl IndexBudgetTracker {
    /// The budget being charged.
    pub closed spec fn budget_of(&self) -> IndexBudget {
        self.budget
    }

    /// How much of `resource` has been charged.
    pub closed spec fn consumed_of(&self, resource: IndexResource) -> usize {
        self.consumed@[resource.index_of()]
    }

    /// Whether `resource` has run out.
    pub closed spec fn exhausted_of(&self, resource: IndexResource) -> bool {
        self.exhausted@[resource.index_of()]
    }

    /// Whether the deadline has been reported as passed.
    pub closed spec fn deadline_exhausted_of(&self) -> bool {
        self.deadline_exhausted
    }

    /// The tracker's internal shape, and nothing charged beyond a limit.
    pub closed spec fn wf(&self) -> bool {
        &&& self.consumed@.len() == INDEX_RESOURCE_COUNT
        &&& self.exhausted@.len() == INDEX_RESOURCE_COUNT
        &&& forall|r: IndexResource| #[trigger]
            self.consumed@[r.index_of()] <= self.budget.limit_of(r)
    }

    /// A well-formed tracker never charges a resource beyond its limit.
    pub proof fn lemma_within_limit(&self, resource: IndexResource)
        requires
            self.wf(),
        ensures
            self.consumed_of(resource) <= self.budget_of().limit_of(resource),
    {
    }

    /// A tracker with nothing charged.
    pub fn new(budget: IndexBudget) -> (t: Self)
        ensures
            t.wf(),
            t.budget_of() == budget,
            forall|r: IndexResource| #[trigger] t.consumed_of(r) == 0 && !t.exhausted_of(r),
            !t.deadline_exhausted_of(),
    {
        let consumed = vec![0usize; INDEX_RESOURCE_COUNT];
        let exhausted = vec![false; INDEX_RESOURCE_COUNT];
        IndexBudgetTracker {
            budget,
            started: instant_now(),
            consumed,
            exhausted,
            deadline_exhausted: false,
        }
    }

    /// The budget being charged.
    pub fn budget(&self) -> (b: &IndexBudget)
        ensures
            *b == self.budget_of(),
    {
        &self.budget
    }

    fn limit(&self, resource: IndexResource) -> (r: usize)
        ensures
            r == self.budget.limit_of(resource),
    {
        match resource {
            IndexResource::ManifestFiles => self.budget.max_manifest_files,
            IndexResource::ManifestBytes => self.budget.max_manifest_bytes,
            IndexResource::ProjectModelFiles => self.budget.max_project_model_files,
            IndexResource::ProjectModelBytes => self.budget.max_project_model_bytes,
            IndexResource::FileBytes => self.budget.max_file_bytes,
            IndexResource::ParseBytes => self.budget.max_parse_bytes,
            IndexResource::Nodes => self.budget.max_nodes,
            IndexResource::Facts => self.budget.max_facts,
            IndexResource::Symbols => self.budget.max_symbols,
            IndexResource::Edges => self.budget.max_edges,
            IndexResource::GenerationBytes => self.budget.max_generation_bytes,
            IndexResource::OverlayPaths => self.budget.max_overlay_paths,
            IndexResource::QueryRows => self.budget.max_query_rows,
            IndexResource::GraphDepth => self.budget.max_graph_depth,
        }
    }

    /// Charges `amount` units of `resource`. Succeeds, and adds the amount,
    /// exactly when the total stays within the limit; otherwise the charge is
    /// refused and the resource is marked exhausted.
    pub fn consume(&mut self, resource: IndexResource, amount: usize) -> (r: Result<
        (),
        IndexBudgetExhaustion,
    >)
        requires
            old(self).wf(),
        ensures
            final(self).wf(),
            final(self).budget_of() == old(self).budget_of(),
            final(self).deadline_exhausted_of() == old(self).deadline_exhausted_of(),
            r is Ok <==> old(self).consumed_of(resource) + amount <= old(self).budget_of().limit_of(
                resource,
            ),
            r is Ok ==> final(self).consumed_of(resource) == old(self).consumed_of(resource)
                + amount && final(self).exhausted_of(resource) == old(self).exhausted_of(resource),
            r matches Err(e) ==> e.of_resource(resource) && final(self).exhausted_of(resource)
                && final(self).consumed_of(resource) == old(self).consumed_of(resource),
            forall|other: IndexResource|
                other != resource ==> #[trigger] final(self).consumed_of(other) == old(self).consumed_of(other) && final(self).exhausted_of(other) == old(self).exhausted_of(
                    other,
                ),
    {
        let initial = self.limit(resource);
        let index = resource.index();
        let consumed = self.consumed[index];
        match consumed.checked_add(amount) {
            None => {
                self.exhausted.set(index, true);
                Err(index_resource_exhaustion(resource))
            },
            Some(next) => {
                if next > initial {
                    self.exhausted.set(index, true);
                    return Err(index_resource_exhaustion(resource));
                }
                self.consumed.set(index, next);
                proof {
                    assert forall|r: IndexResource| #[trigger]
                        self.consumed@[r.index_of()] <= self.budget.limit_of(r) by {
                        if r != resource {
                            assert(r.index_of() != resource.index_of());
                        }
                    }
                }
                Ok(())
            },
        }
    }

    /// Records an observed level of `resource`: the charge becomes the larger
    /// of the previous charge and the observation (capped at the limit).
    /// Fails, marking the resource exhausted, exactly when the observation
    /// exceeds the limit.
    pub fn observe(&mut self, resource: IndexResource, observed: usize) -> (r: Result<
        (),
        IndexBudgetExhaustion,
    >)
        requires
            old(self).wf(),
        ensures
            final(self).wf(),
            final(self).budget_of() == old(self).budget_of(),
            final(self).deadline_exhausted_of() == old(self).deadline_exhausted_of(),
            final(self).consumed_of(resource) == vstd::math::max(
                old(self).consumed_of(resource) as int,
                vstd::math::min(observed as int, old(self).budget_of().limit_of(resource) as int),
            ),
            r is Ok <==> observed <= old(self).budget_of().limit_of(resource),
            r is Ok ==> final(self).exhausted_of(resource) == old(self).exhausted_of(resource),
            r matches Err(e) ==> e.of_resource(resource) && final(self).exhausted_of(resource),
            forall|other: IndexResource|
                other != resource ==> #[trigger] final(self).consumed_of(other) == old(self).consumed_of(other) && final(self).exhausted_of(other) == old(self).exhausted_of(
                    other,
                ),
    {
        let initial = self.limit(resource);
        let index = resource.index();
        let previous = self.consumed[index];
        let capped = if observed < initial {
            observed
        } else {
            initial
        };
        let next = if previous > capped {
            previous
        } else {
            capped
        };
        self.consumed.set(index, next);
        proof {
            assert forall|r: IndexResource| #[trigger]
                self.consumed@[r.index_of()] <= self.budget.limit_of(r) by {
                if r != resource {
                    assert(r.index_of() != resource.index_of());
                }
            }
        }
        if observed > initial {
            self.exhausted.set(index, true);
            return Err(index_resource_exhaustion(resource));
        }
        Ok(())
    }

    /// The limit, charge, remainder and exhaustion of `resource`.
    pub fn amount(&self, resource: IndexResource) -> (a: IndexBudgetAmount)
        requires
            self.wf(),
        ensures
            a.initial == self.budget_of().limit_of(resource),
            a.consumed == self.consumed_of(resource),
            a.remaining == a.initial - a.consumed,
            a.exhausted == self.exhausted_of(resource),
    {
        let initial = self.limit(resource);
        let index = resource.index();
        let stored = self.consumed[index];
        let consumed = if stored < initial {
            stored
        } else {
            initial
        };
        IndexBudgetAmount {
            initial,
            consumed,
            remaining: initial - consumed,
            exhausted: self.exhausted[index],
        }
    }

    /// Fails once the deadline has passed, and from then on always. Whether
    /// the deadline has passed at a given call is read from the clock.
    pub fn check_deadline(&mut self) -> (r: Result<(), IndexBudgetExhaustion>)
        requires
            old(self).wf(),
        ensures
            final(self).wf(),
            final(self).budget_of() == old(self).budget_of(),
            forall|res: IndexResource| #[trigger] final(self).consumed_of(res) == old(self).consumed_of(res) && final(self).exhausted_of(res) == old(self).exhausted_of(res),
            old(self).deadline_exhausted_of() ==> r is Err,
            duration_nanos(old(self).budget_of().deadline) == 0 ==> r is Err,
            r is Err <==> final(self).deadline_exhausted_of(),
            r matches Err(e) ==> e.of_deadline(),
    {
        if self.deadline_exhausted || duration_as_nanos(instant_elapsed(&self.started))
            >= duration_as_nanos(self.budget.deadline) {
            self.deadline_exhausted = true;
            return Err(IndexBudgetExhaustion { resource: None, code: "index-deadline-exhausted" });
        }
        Ok(())
    }

    /// The part of the deadline not yet used, read from the clock; never
    /// longer than the deadline.
    pub fn remaining_deadline(&self) -> (r: Duration)
        ensures
            duration_nanos(r) <= duration_nanos(self.budget_of().deadline),
    {
        duration_saturating_sub(self.budget.deadline, instant_elapsed(&self.started))
    }
}

} // verus!
