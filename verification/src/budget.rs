//! Resource budgets of one fast impact analysis, and the tracker that
//! charges work against them.
use vstd::prelude::*;
use std::time::{Duration, Instant};
use crate::clock::{
    duration_as_nanos, duration_from_millis, duration_nanos, instant_elapsed, instant_now,
};

verus! {

pub const BUDGET_RESOURCE_COUNT: usize = 10;

#[derive(Debug, Clone, Copy, PartialEq, Eq)]
pub struct ImpactBudget {
    pub deadline: Duration,
    pub max_changed_files: usize,
    pub max_file_bytes: usize,
    pub max_total_bytes: usize,
    pub max_nodes: usize,
    pub max_nesting_depth: usize,
    pub max_facts: usize,
    pub max_edges: usize,
    pub max_output_bytes: usize,
    pub max_query_patterns: usize,
    pub max_matches_per_pattern: usize,
}

impl ImpactBudget {
    /// The limits of a fast analysis.
    pub fn fast_defaults() -> (b: Self)
        ensures
            duration_nanos(b.deadline) == 750_000_000,
            b.max_changed_files == 30,
            b.max_file_bytes == 2 * 1024 * 1024,
            b.max_total_bytes == 8 * 1024 * 1024,
            b.max_nodes == 250_000,
            b.max_nesting_depth == 512,
            b.max_facts == 5_000,
            b.max_edges == 500,
            b.max_output_bytes == 1_048_576,
            b.max_query_patterns == 32,
            b.max_matches_per_pattern == 20,
    {
        ImpactBudget {
            deadline: duration_from_millis(750),
            max_changed_files: 30,
            max_file_bytes: 2 * 1024 * 1024,
            max_total_bytes: 8 * 1024 * 1024,
            max_nodes: 250_000,
            max_nesting_depth: 512,
            max_facts: 5_000,
            max_edges: 500,
            max_output_bytes: 1_048_576,
            max_query_patterns: 32,
            max_matches_per_pattern: 20,
        }
    }

    /// The limit of `resource`.
    pub open spec fn limit_of(&self, resource: BudgetResource) -> usize {
        match resource {
            BudgetResource::ChangedFiles => self.max_changed_files,
            BudgetResource::FileBytes => self.max_file_bytes,
            BudgetResource::TotalBytes => self.max_total_bytes,
            BudgetResource::Nodes => self.max_nodes,
            BudgetResource::NestingDepth => self.max_nesting_depth,
            BudgetResource::Facts => self.max_facts,
            BudgetResource::Edges => self.max_edges,
            BudgetResource::OutputBytes => self.max_output_bytes,
            BudgetResource::QueryPatterns => self.max_query_patterns,
            BudgetResource::MatchesPerPattern => self.max_matches_per_pattern,
        }
    }
}

#[derive(Debug, Clone, Copy, PartialEq, Eq, Structural)]
pub enum BudgetResource {
    ChangedFiles,
    FileBytes,
    TotalBytes,
    Nodes,
    NestingDepth,
    Facts,
    Edges,
    OutputBytes,
    QueryPatterns,
    MatchesPerPattern,
}

impl BudgetResource {
    /// The position of the resource in declaration order.
    pub open spec fn index_of(self) -> int {
        match self {
            BudgetResource::ChangedFiles => 0,
            BudgetResource::FileBytes => 1,
            BudgetResource::TotalBytes => 2,
            BudgetResource::Nodes => 3,
            BudgetResource::NestingDepth => 4,
            BudgetResource::Facts => 5,
            BudgetResource::Edges => 6,
            BudgetResource::OutputBytes => 7,
            BudgetResource::QueryPatterns => 8,
            BudgetResource::MatchesPerPattern => 9,
        }
    }

    fn index(self) -> (r: usize)
        ensures
            r == self.index_of(),
            r < BUDGET_RESOURCE_COUNT,
    {
        match self {
            BudgetResource::ChangedFiles => 0,
            BudgetResource::FileBytes => 1,
            BudgetResource::TotalBytes => 2,
            BudgetResource::Nodes => 3,
            BudgetResource::NestingDepth => 4,
            BudgetResource::Facts => 5,
            BudgetResource::Edges => 6,
            BudgetResource::OutputBytes => 7,
            BudgetResource::QueryPatterns => 8,
            BudgetResource::MatchesPerPattern => 9,
        }
    }

    /// The limitation code reported when the resource runs out.
    pub open spec fn exhaustion_code_of(self) -> Seq<char> {
        match self {
            BudgetResource::ChangedFiles => "changed-file-budget-exhausted"@,
            BudgetResource::FileBytes => "file-byte-budget-exhausted"@,
            BudgetResource::TotalBytes => "total-byte-budget-exhausted"@,
            BudgetResource::Nodes => "node-budget-exhausted"@,
            BudgetResource::NestingDepth => "nesting-depth-budget-exhausted"@,
            BudgetResource::Facts => "fact-budget-exhausted"@,
            BudgetResource::Edges => "edge-budget-exhausted"@,
            BudgetResource::OutputBytes => "output-byte-budget-exhausted"@,
            BudgetResource::QueryPatterns => "query-pattern-budget-exhausted"@,
            BudgetResource::MatchesPerPattern => "query-match-budget-exhausted"@,
        }
    }

    /// The limitation code reported when the resource runs out.
    pub fn exhaustion_code(self) -> (r: &'static str)
        ensures
            r@ == self.exhaustion_code_of(),
    {
        match self {
            BudgetResource::ChangedFiles => "changed-file-budget-exhausted",
            BudgetResource::FileBytes => "file-byte-budget-exhausted",
            BudgetResource::TotalBytes => "total-byte-budget-exhausted",
            BudgetResource::Nodes => "node-budget-exhausted",
            BudgetResource::NestingDepth => "nesting-depth-budget-exhausted",
            BudgetResource::Facts => "fact-budget-exhausted",
            BudgetResource::Edges => "edge-budget-exhausted",
            BudgetResource::OutputBytes => "output-byte-budget-exhausted",
            BudgetResource::QueryPatterns => "query-pattern-budget-exhausted",
            BudgetResource::MatchesPerPattern => "query-match-budget-exhausted",
        }
    }
}

#[derive(Debug, Clone, Copy, PartialEq, Eq, Structural)]
pub struct BudgetAmount {
    pub initial: usize,
    pub consumed: usize,
    pub remaining: usize,
    pub exhausted: bool,
}

/// A resource or the deadline ran out.
#[derive(Debug, Clone, Copy, PartialEq, Eq)]
pub struct BudgetExhaustion {
    resource: Option<BudgetResource>,
    code: &'static str,
}

impl BudgetExhaustion {
    /// The resource that ran out; `None` for the deadline.
    pub closed spec fn resource_of(self) -> Option<BudgetResource> {
        self.resource
    }

    /// The limitation code.
    pub closed spec fn code_of(self) -> Seq<char> {
        self.code@
    }

    /// The limitation code.
    pub fn code(self) -> (r: &'static str)
        ensures
            r@ == self.code_of(),
    {
        self.code
    }

    /// The resource that ran out; `None` for the deadline.
    pub fn resource(self) -> (r: Option<BudgetResource>)
        ensures
            r == self.resource_of(),
    {
        self.resource
    }

    /// The exhaustion of `resource`, reported under its own code.
    pub open spec fn of_resource(self, resource: BudgetResource) -> bool {
        self.resource_of() == Some(resource) && self.code_of() == resource.exhaustion_code_of()
    }

    /// The exhaustion of the deadline.
    pub open spec fn of_deadline(self) -> bool {
        self.resource_of() is None && self.code_of() == "deadline-exhausted"@
    }
}

fn resource_exhaustion(resource: BudgetResource) -> (r: BudgetExhaustion)
    ensures
        r.of_resource(resource),
{
    BudgetExhaustion { resource: Some(resource), code: resource.exhaustion_code() }
}

/// Charges work against an [`ImpactBudget`].
pub struct BudgetTracker {
    budget: ImpactBudget,
    started: Instant,
    consumed: Vec<usize>,
    exhausted: Vec<bool>,
    deadline_exhausted: bool,
}

impl BudgetTracker {
    /// The budget being charged.
    pub closed spec fn budget_of(&self) -> ImpactBudget {
        self.budget
    }

    /// How much of `resource` has been charged.
    pub closed spec fn consumed_of(&self, resource: BudgetResource) -> usize {
        self.consumed@[resource.index_of()]
    }

    /// Whether `resource` has run out.
    pub closed spec fn exhausted_of(&self, resource: BudgetResource) -> bool {
        self.exhausted@[resource.index_of()]
    }

    /// Whether the deadline has been reported as passed.
    pub closed spec fn deadline_exhausted_of(&self) -> bool {
        self.deadline_exhausted
    }

    /// The tracker's internal shape, and nothing charged beyond a limit.
    pub closed spec fn wf(&self) -> bool {
        &&& self.consumed@.len() == BUDGET_RESOURCE_COUNT
        &&& self.exhausted@.len() == BUDGET_RESOURCE_COUNT
        &&& forall|r: BudgetResource| #[trigger]
            self.consumed@[r.index_of()] <= self.budget.limit_of(r)
    }

    /// A tracker with nothing charged.
    /// A well-formed tracker never charges a resource beyond its limit.
    pub proof fn lemma_within_limit(&self, resource: BudgetResource)
        requires
            self.wf(),
        ensures
            self.consumed_of(resource) <= self.budget_of().limit_of(resource),
    {
    }

    pub fn new(budget: ImpactBudget) -> (t: Self)
        ensures
            t.wf(),
            t.budget_of() == budget,
            forall|r: BudgetResource| #[trigger] t.consumed_of(r) == 0 && !t.exhausted_of(r),
            !t.deadline_exhausted_of(),
    {
        let consumed = vec![0usize; BUDGET_RESOURCE_COUNT];
        let exhausted = vec![false; BUDGET_RESOURCE_COUNT];
        BudgetTracker {
            budget,
            started: instant_now(),
            consumed,
            exhausted,
            deadline_exhausted: false,
        }
    }

    /// The budget being charged.
    pub fn budget(&self) -> (b: &ImpactBudget)
        ensures
            *b == self.budget_of(),
    {
        &self.budget
    }

    fn limit(&self, resource: BudgetResource) -> (r: usize)
        ensures
            r == self.budget.limit_of(resource),
    {
        match resource {
            BudgetResource::ChangedFiles => self.budget.max_changed_files,
            BudgetResource::FileBytes => self.budget.max_file_bytes,
            BudgetResource::TotalBytes => self.budget.max_total_bytes,
            BudgetResource::Nodes => self.budget.max_nodes,
            BudgetResource::NestingDepth => self.budget.max_nesting_depth,
            BudgetResource::Facts => self.budget.max_facts,
            BudgetResource::Edges => self.budget.max_edges,
            BudgetResource::OutputBytes => self.budget.max_output_bytes,
            BudgetResource::QueryPatterns => self.budget.max_query_patterns,
            BudgetResource::MatchesPerPattern => self.budget.max_matches_per_pattern,
        }
    }

    /// Charges `amount` units of `resource`. Succeeds, and adds the amount,
    /// exactly when the total stays within the limit; otherwise the charge is
    /// refused and the resource is marked exhausted.
    pub fn consume(&mut self, resource: BudgetResource, amount: usize) -> (r: Result<
        (),
        BudgetExhaustion,
    >)
        requires
            old(self).wf(),
        ensures
            final(self).wf(),
            final(self).budget_of() == old(self).budget_of(),
            final(self).deadline_exhausted_of() == old(self).deadline_exhausted_of(),
            r is Ok <==> old(self).consumed_of(resource) + amount <= old(self).budget_of().limit_of(
                resource,
            ),
            r is Ok ==> final(self).consumed_of(resource) == old(self).consumed_of(resource)
                + amount && final(self).exhausted_of(resource) == old(self).exhausted_of(resource),
            r matches Err(e) ==> e.of_resource(resource) && final(self).exhausted_of(resource)
                && final(self).consumed_of(resource) == old(self).consumed_of(resource),
            forall|other: BudgetResource|
                other != resource ==> #[trigger] final(self).consumed_of(other) == old(self).consumed_of(other) && final(self).exhausted_of(other) == old(self).exhausted_of(
                    other,
                ),
    {
        let initial = self.limit(resource);
        let index = resource.index();
        let consumed = self.consumed[index];
        match consumed.checked_add(amount) {
            None => {
                self.exhausted.set(index, true);
                Err(resource_exhaustion(resource))
            },
            Some(next) => {
                if next > initial {
                    self.exhausted.set(index, true);
                    return Err(resource_exhaustion(resource));
                }
                self.consumed.set(index, next);
                proof {
                    assert forall|r: BudgetResource| #[trigger]
                        self.consumed@[r.index_of()] <= self.budget.limit_of(r) by {
                        if r != resource {
                            assert(r.index_of() != resource.index_of());
                        }
                    }
                }
                Ok(())
            },
        }
    }

    /// Records an observed level of `resource`: the charge becomes the larger
    /// of the previous charge and the observation (capped at the limit).
    /// Fails, marking the resource exhausted, exactly when the observation
    /// exceeds the limit.
    pub fn observe(&mut self, resource: BudgetResource, observed: usize) -> (r: Result<
        (),
        BudgetExhaustion,
    >)
        requires
            old(self).wf(),
        ensures
            final(self).wf(),
            final(self).budget_of() == old(self).budget_of(),
            final(self).deadline_exhausted_of() == old(self).deadline_exhausted_of(),
            final(self).consumed_of(resource) == vstd::math::max(
                old(self).consumed_of(resource) as int,
                vstd::math::min(observed as int, old(self).budget_of().limit_of(resource) as int),
            ),
            r is Ok <==> observed <= old(self).budget_of().limit_of(resource),
            r is Ok ==> final(self).exhausted_of(resource) == old(self).exhausted_of(resource),
            r matches Err(e) ==> e.of_resource(resource) && final(self).exhausted_of(resource),
            forall|other: BudgetResource|
                other != resource ==> #[trigger] final(self).consumed_of(other) == old(self).consumed_of(other) && final(self).exhausted_of(other) == old(self).exhausted_of(
                    other,
                ),
    {
        let initial = self.limit(resource);
        let index = resource.index();
        let previous = self.consumed[index];
        let capped = if observed < initial {
            observed
        } else {
            initial
        };
        let next = if previous > capped {
            previous
        } else {
            capped
        };
        self.consumed.set(index, next);
        proof {
            assert forall|r: BudgetResource| #[trigger]
                self.consumed@[r.index_of()] <= self.budget.limit_of(r) by {
                if r != resource {
                    assert(r.index_of() != resource.index_of());
                }
            }
        }
        if observed > initial {
            self.exhausted.set(index, true);
            return Err(resource_exhaustion(resource));
        }
        Ok(())
    }

    /// The limit, charge, remainder and exhaustion of `resource`.
    pub fn amount(&self, resource: BudgetResource) -> (a: BudgetAmount)
        requires
            self.wf(),
        ensures
            a.initial == self.budget_of().limit_of(resource),
            a.consumed == self.consumed_of(resource),
            a.remaining == a.initial - a.consumed,
            a.exhausted == self.exhausted_of(resource),
    {
        let initial = self.limit(resource);
        let index = resource.index();
        let stored = self.consumed[index];
        let consumed = if stored < initial {
            stored
        } else {
            initial
        };
        BudgetAmount {
            initial,
            consumed,
            remaining: initial - consumed,
            exhausted: self.exhausted[index],
        }
    }

    /// Fails once the deadline has passed, and from then on always. Whether
    /// the deadline has passed at a given call is read from the clock.
    pub fn check_deadline(&mut self) -> (r: Result<(), BudgetExhaustion>)
        requires
            old(self).wf(),
        ensures
            final(self).wf(),
            final(self).budget_of() == old(self).budget_of(),
            forall|res: BudgetResource| #[trigger] final(self).consumed_of(res) == old(self).consumed_of(res) && final(self).exhausted_of(res) == old(self).exhausted_of(res),
            old(self).deadline_exhausted_of() ==> r is Err,
            duration_nanos(old(self).budget_of().deadline) == 0 ==> r is Err,
            r is Err <==> final(self).deadline_exhausted_of(),
            r matches Err(e) ==> e.of_deadline(),
    {
        if self.deadline_exhausted || duration_as_nanos(instant_elapsed(&self.started))
            >= duration_as_nanos(self.budget.deadline) {
            self.deadline_exhausted = true;
            return Err(BudgetExhaustion { resource: None, code: "deadline-exhausted" });
        }
        Ok(())
    }

    /// Whether the deadline has been reported as passed.
    pub fn deadline_exhausted(&self) -> (r: bool)
        ensures
            r == self.deadline_exhausted_of(),
    {
        self.deadline_exhausted
    }

    /// The time since the tracker was created, read from the clock.
    pub fn elapsed(&self) -> Duration {
        instant_elapsed(&self.started)
    }
}

} // verus!
