//! Rust syntax facts: the records extracted from a Rust file, and the
//! range and ownership rules that relate them.
use vstd::prelude::*;
use crate::candidate::ChangedRange;
use crate::contracts::{ParseQuality, Resolution, SourceRange};
use crate::index_budget::{IndexBudgetTracker, IndexResource};
use crate::integrity::views;
use crate::text_adapter::{admitted, push_unique, with_unique};
use crate::strings::{str_equal, take_chars, take_prefix_chars};

verus! {

#[derive(Debug, Clone, PartialEq, Eq)]
pub struct RustSymbolFact {
    pub kind: String,
    pub name: String,
    pub owner: Option<String>,
    pub signature: String,
    pub visibility: Option<String>,
    pub range: SourceRange,
}

#[derive(Debug, Clone, PartialEq, Eq)]
pub struct RustTextFact {
    pub text: String,
    pub range: SourceRange,
}

#[derive(Debug, Clone, PartialEq, Eq)]
pub struct RustCallFact {
    pub target: String,
    pub caller_range: Option<SourceRange>,
    pub range: SourceRange,
    pub resolution: Resolution,
}

#[derive(Debug, Clone, PartialEq, Eq)]
pub struct RustSyntaxOutput {
    pub parse_quality: ParseQuality,
    pub error_node_count: usize,
    pub missing_node_count: usize,
    pub affected_ranges: Vec<SourceRange>,
    pub overlapping_changed_symbols: Vec<String>,
    pub changed_symbols: Vec<RustSymbolFact>,
    pub imports: Vec<RustTextFact>,
    pub calls: Vec<RustCallFact>,
    pub macros: Vec<RustTextFact>,
    pub attributes: Vec<RustTextFact>,
    pub nodes_visited: usize,
    pub max_nesting_depth: usize,
    pub limitation_codes: Vec<String>,
}

#[derive(Debug, Clone, PartialEq, Eq)]
pub struct RustLocalSymbolFact {
    pub local_id: String,
    pub kind: String,
    pub name: String,
    pub owner_local_id: Option<String>,
    pub signature: String,
    pub visibility: Option<String>,
    pub range: SourceRange,
}

#[derive(Debug, Clone, PartialEq, Eq)]
pub struct RustImportFact {
    pub segments: Vec<String>,
    pub alias: Option<String>,
    pub glob: bool,
    pub public: bool,
    pub range: SourceRange,
}

#[derive(Debug, Clone, PartialEq, Eq)]
pub struct RustReferenceFact {
    pub name: String,
    pub qualifier: Vec<String>,
    pub role: String,
    pub owner_local_id: Option<String>,
    pub range: SourceRange,
}

#[derive(Debug, Clone, PartialEq, Eq)]
pub struct RustCallSiteFact {
    pub callee: String,
    pub qualifier: Vec<String>,
    pub call_kind: String,
    pub caller_local_id: Option<String>,
    pub range: SourceRange,
}

#[derive(Debug, Clone, PartialEq, Eq)]
pub struct RustAttributeFact {
    pub name: String,
    pub arguments: Vec<String>,
    pub range: SourceRange,
}

#[derive(Debug, Clone, PartialEq, Eq)]
pub struct RustModuleDeclarationFact {
    pub name: String,
    pub inline: bool,
    pub path_override: Option<String>,
    pub owner_local_id: Option<String>,
    pub range: SourceRange,
}

#[derive(Debug, Clone, Copy, PartialEq, Eq, Structural)]
pub struct RustFileFactMetrics {
    pub nodes_visited: usize,
    pub max_nesting_depth: usize,
    pub facts_emitted: usize,
    pub source_bytes: usize,
}

#[derive(Debug, Clone, PartialEq, Eq)]
pub struct RustFileFacts {
    pub parse_quality: ParseQuality,
    pub symbols: Vec<RustLocalSymbolFact>,
    pub imports: Vec<RustImportFact>,
    pub references: Vec<RustReferenceFact>,
    pub calls: Vec<RustCallSiteFact>,
    pub module_declarations: Vec<RustModuleDeclarationFact>,
    pub attributes: Vec<RustAttributeFact>,
    pub recovery_ranges: Vec<SourceRange>,
    pub limitations: Vec<String>,
    pub metrics: RustFileFactMetrics,
}

/// Why Rust syntax could not be extracted.
#[derive(Debug, Clone, PartialEq, Eq)]
pub struct RustAdapterError {
    message: String,
}

impl RustAdapterError {
    /// The error's reason.
    pub closed spec fn message_of(&self) -> Seq<char> {
        self.message@
    }

    /// An error with the given reason.
    pub fn new(message: &str) -> (r: Self)
        ensures
            r.message_of() == message@,
    {
        RustAdapterError { message: String::from_str(message) }
    }

    /// The human-readable reason.
    pub fn message(&self) -> (r: String)
        ensures
            r@ == self.message_of(),
    {
        self.message.clone()
    }
}

/// The Rust syntax provider.
pub struct TreeSitterRustAdapter;

/// The kind of an indexed symbol, from its captured kind, the kind of the
/// item that owns it, and whether a function takes `self`.
pub open spec fn index_symbol_kind_spec(
    base: Seq<char>,
    owner: Option<Seq<char>>,
    has_self: bool,
) -> Seq<char> {
    let in_impl_or_trait = owner == Some("impl"@) || owner == Some("trait"@);
    let in_trait = owner == Some("trait"@);
    if base == "function"@ && in_impl_or_trait && has_self {
        "method"@
    } else if base == "function"@ && in_impl_or_trait {
        "associated-function"@
    } else if base == "function-declaration"@ && in_trait && has_self {
        "method-declaration"@
    } else if base == "function-declaration"@ && in_trait {
        "associated-function-declaration"@
    } else if base == "function"@ {
        "function"@
    } else if base == "function-declaration"@ {
        "function-declaration"@
    } else if base == "struct"@ {
        "struct"@
    } else if base == "enum"@ {
        "enum"@
    } else if base == "trait"@ {
        "trait"@
    } else if base == "impl"@ {
        "impl"@
    } else if base == "type"@ {
        "type"@
    } else if base == "const"@ {
        "const"@
    } else if base == "static"@ {
        "static"@
    } else if base == "module"@ {
        "module"@
    } else if base == "closure"@ {
        "closure"@
    } else {
        "unknown"@
    }
}

fn opt_is(o: Option<&str>, v: &str) -> (r: bool)
    ensures
        r == (o matches Some(s) && s@ == v@),
{
    match o {
        Some(s) => str_equal(s, v),
        None => false,
    }
}

/// The kind of an indexed symbol.
pub fn index_symbol_kind(base_kind: &str, owner_kind: Option<&str>, has_self_parameter: bool) -> (r:
    &'static str)
    ensures
        r@ == index_symbol_kind_spec(
            base_kind@,
            match owner_kind {
                Some(o) => Some(o@),
                None => None,
            },
            has_self_parameter,
        ),
{
    let in_impl_or_trait = opt_is(owner_kind, "impl") || opt_is(owner_kind, "trait");
    let in_trait = opt_is(owner_kind, "trait");
    let function = str_equal(base_kind, "function");
    let declaration = str_equal(base_kind, "function-declaration");
    if function && in_impl_or_trait && has_self_parameter {
        "method"
    } else if function && in_impl_or_trait {
        "associated-function"
    } else if declaration && in_trait && has_self_parameter {
        "method-declaration"
    } else if declaration && in_trait {
        "associated-function-declaration"
    } else if function {
        "function"
    } else if declaration {
        "function-declaration"
    } else if str_equal(base_kind, "struct") {
        "struct"
    } else if str_equal(base_kind, "enum") {
        "enum"
    } else if str_equal(base_kind, "trait") {
        "trait"
    } else if str_equal(base_kind, "impl") {
        "impl"
    } else if str_equal(base_kind, "type") {
        "type"
    } else if str_equal(base_kind, "const") {
        "const"
    } else if str_equal(base_kind, "static") {
        "static"
    } else if str_equal(base_kind, "module") {
        "module"
    } else if str_equal(base_kind, "closure") {
        "closure"
    } else {
        "unknown"
    }
}

/// `outer` covers `inner` and is strictly larger.
pub open spec fn strictly_contains_spec(outer: SourceRange, inner: SourceRange) -> bool {
    outer.start_byte <= inner.start_byte && outer.end_byte >= inner.end_byte && (outer.start_byte
        < inner.start_byte || outer.end_byte > inner.end_byte)
}

pub fn strictly_contains(outer: &SourceRange, inner: &SourceRange) -> (r: bool)
    ensures
        r == strictly_contains_spec(*outer, *inner),
{
    outer.start_byte <= inner.start_byte && outer.end_byte >= inner.end_byte && (outer.start_byte
        < inner.start_byte || outer.end_byte > inner.end_byte)
}

/// The byte width of a range (zero when inverted).
pub open spec fn width(r: SourceRange) -> int {
    if r.end_byte >= r.start_byte {
        r.end_byte - r.start_byte
    } else {
        0
    }
}

/// The index of the narrowest symbol that strictly contains `range`; the
/// first such on a tie.
pub open spec fn innermost_owner_at(symbols: Seq<RustLocalSymbolFact>, range: SourceRange, k: int) -> bool {
    &&& 0 <= k < symbols.len()
    &&& strictly_contains_spec(symbols[k].range, range)
    &&& forall|j: int|
        0 <= j < symbols.len() && strictly_contains_spec(#[trigger] symbols[j].range, range) ==> width(
            symbols[k].range,
        ) <= width(symbols[j].range)
    &&& forall|j: int|
        0 <= j < k && strictly_contains_spec(#[trigger] symbols[j].range, range) ==> width(
            symbols[k].range,
        ) < width(symbols[j].range)
}

/// The narrowest symbol that strictly contains `range`.
pub fn innermost_owner(symbols: &Vec<RustLocalSymbolFact>, range: &SourceRange) -> (r: Option<usize>)
    ensures
        r matches Some(k) ==> innermost_owner_at(symbols@, *range, k as int),
        r is None ==> forall|j: int|
            0 <= j < symbols@.len() ==> !strictly_contains_spec(#[trigger] symbols@[j].range, *range),
{
    let mut best: Option<usize> = None;
    let mut best_width: usize = 0;
    let mut j: usize = 0;
    while j < symbols.len()
        invariant
            j <= symbols@.len(),
            best is None ==> forall|i: int|
                0 <= i < j ==> !strictly_contains_spec(#[trigger] symbols@[i].range, *range),
            best matches Some(k) ==> {
                &&& k < j
                &&& strictly_contains_spec(symbols@[k as int].range, *range)
                &&& best_width == width(symbols@[k as int].range)
                &&& forall|i: int|
                    0 <= i < j && strictly_contains_spec(#[trigger] symbols@[i].range, *range)
                        ==> best_width <= width(symbols@[i].range)
                &&& forall|i: int|
                    0 <= i < k && strictly_contains_spec(#[trigger] symbols@[i].range, *range)
                        ==> best_width < width(symbols@[i].range)
            },
        decreases symbols@.len() - j,
    {
        let r = &symbols[j].range;
        if strictly_contains(r, range) {
            let w = if r.end_byte >= r.start_byte {
                r.end_byte - r.start_byte
            } else {
                0
            };
            match best {
                None => {
                    best = Some(j);
                    best_width = w;
                },
                Some(_) => {
                    if w < best_width {
                        best = Some(j);
                        best_width = w;
                    }
                },
            }
        }
        j = j + 1;
    }
    best
}

/// The local id of the narrowest symbol that strictly contains `range`.
pub fn owner_local_id(symbols: &Vec<RustLocalSymbolFact>, range: &SourceRange) -> (r: Option<String>)
    ensures
        r is Some <==> exists|k: int| innermost_owner_at(symbols@, *range, k),
        r matches Some(id) ==> exists|k: int|
            innermost_owner_at(symbols@, *range, k) && id@ == symbols@[k].local_id@,
{
    match innermost_owner(symbols, range) {
        Some(k) => Some(symbols[k].local_id.clone()),
        None => {
            assert forall|k: int| !innermost_owner_at(symbols@, *range, k) by {
                if 0 <= k < symbols@.len() {
                    assert(!strictly_contains_spec(symbols@[k].range, *range));
                }
            }
            None
        },
    }
}

/// A symbol range covers `range` (not necessarily strictly).
pub open spec fn covers(outer: SourceRange, inner: SourceRange) -> bool {
    outer.start_byte <= inner.start_byte && outer.end_byte >= inner.end_byte
}

/// The range of the narrowest changed symbol that covers `range`; the first
/// such on a tie.
pub fn innermost_caller(symbols: &Vec<RustSymbolFact>, range: &SourceRange) -> (r: Option<SourceRange>)
    ensures
        r is None ==> forall|j: int|
            0 <= j < symbols@.len() ==> !covers(#[trigger] symbols@[j].range, *range),
        r matches Some(found) ==> exists|k: int|
            0 <= k < symbols@.len() && symbols@[k].range == found && covers(found, *range) && (
            forall|j: int|
                0 <= j < symbols@.len() && covers(#[trigger] symbols@[j].range, *range) ==> width(
                    found,
                ) <= width(symbols@[j].range)),
{
    let mut best: Option<usize> = None;
    let mut best_width: usize = 0;
    let mut j: usize = 0;
    while j < symbols.len()
        invariant
            j <= symbols@.len(),
            best is None ==> forall|i: int| 0 <= i < j ==> !covers(#[trigger] symbols@[i].range, *range),
            best matches Some(k) ==> {
                &&& k < j
                &&& covers(symbols@[k as int].range, *range)
                &&& best_width == width(symbols@[k as int].range)
                &&& forall|i: int|
                    0 <= i < j && covers(#[trigger] symbols@[i].range, *range) ==> best_width <= width(
                        symbols@[i].range,
                    )
            },
        decreases symbols@.len() - j,
    {
        let r = &symbols[j].range;
        if r.start_byte <= range.start_byte && r.end_byte >= range.end_byte {
            let w = if r.end_byte >= r.start_byte {
                r.end_byte - r.start_byte
            } else {
                0
            };
            match best {
                None => {
                    best = Some(j);
                    best_width = w;
                },
                Some(_) => {
                    if w < best_width {
                        best = Some(j);
                        best_width = w;
                    }
                },
            }
        }
        j = j + 1;
    }
    match best {
        Some(k) => Some(symbols[k].range),
        None => None,
    }
}

/// A symbol's name qualified by its owner, as `owner::name`.
pub fn symbol_display_name(symbol: &RustSymbolFact) -> (r: String)
    ensures
        r@ == match symbol.owner {
            Some(o) => o@ + "::"@ + symbol.name@,
            None => symbol.name@,
        },
{
    match &symbol.owner {
        Some(owner) => owner.clone().concat("::").concat(symbol.name.as_str()),
        None => symbol.name.clone(),
    }
}

/// Some changed line range overlaps the lines of `range`.
pub open spec fn intersects_changes(range: SourceRange, changes: Seq<ChangedRange>) -> bool {
    exists|i: int|
        0 <= i < changes.len() && range.start_line <= (#[trigger] changes[i]).end_line
            && range.end_line >= changes[i].start_line
}

pub fn node_intersects_changes(range: SourceRange, changes: &Vec<ChangedRange>) -> (r: bool)
    ensures
        r == intersects_changes(range, changes@),
{
    let mut i: usize = 0;
    while i < changes.len()
        invariant
            i <= changes@.len(),
            forall|j: int|
                0 <= j < i ==> !(range.start_line <= (#[trigger] changes@[j]).end_line
                    && range.end_line >= changes@[j].start_line),
        decreases changes@.len() - i,
    {
        if range.start_line <= changes[i].end_line && range.end_line >= changes[i].start_line {
            return true;
        }
        i = i + 1;
    }
    false
}

/// At most `maximum` characters of `value`.
pub fn truncate_chars(value: String, maximum: usize) -> (r: String)
    ensures
        r@ == take_chars(value@, maximum as int),
{
    take_prefix_chars(value.as_str(), maximum)
}

/// Adds index facts one at a time while the fact budget allows; on the
/// first refusal records the exhaustion and reports false.
pub fn append_index_facts<T>(
    target: &mut Vec<T>,
    candidates: Vec<T>,
    budget: &mut IndexBudgetTracker,
    limitations: &mut Vec<String>,
) -> (r: bool)
    requires
        old(budget).wf(),
    ensures
        final(budget).wf(),
        final(budget).budget_of() == old(budget).budget_of(),
        ({
            let k = admitted(
                candidates@.len() as int,
                old(budget).consumed_of(IndexResource::Facts) as int,
                old(budget).budget_of().limit_of(IndexResource::Facts) as int,
            );
            &&& final(target)@ == old(target)@ + candidates@.take(k)
            &&& final(budget).consumed_of(IndexResource::Facts) == old(budget).consumed_of(IndexResource::Facts) + k
            &&& (r <==> k == candidates@.len())
            &&& r ==> final(limitations)@ == old(limitations)@
            &&& !r ==> views(final(limitations)@) == with_unique(views(old(limitations)@), "index-fact-budget-exhausted"@)
        }),
        forall|other: IndexResource|
            other != IndexResource::Facts ==> #[trigger] final(budget).consumed_of(other) == old(budget).consumed_of(other),
{
    let mut rest = candidates;
    let ghost all = rest@;
    let ghost base = target@;
    let ghost c0 = budget.consumed_of(IndexResource::Facts) as int;
    let ghost lim = budget.budget_of().limit_of(IndexResource::Facts) as int;
    let mut taken: usize = 0;
    while rest.len() > 0
        invariant
            budget.wf(),
            budget.budget_of() == old(budget).budget_of(),
            all == candidates@,
            base == old(target)@,
            c0 == old(budget).consumed_of(IndexResource::Facts),
            lim == old(budget).budget_of().limit_of(IndexResource::Facts),
            limitations@ == old(limitations)@,
            taken <= all.len(),
            taken == 0 || c0 + taken <= lim,
            budget.consumed_of(IndexResource::Facts) == c0 + taken,
            forall|other: IndexResource|
                other != IndexResource::Facts ==> #[trigger] budget.consumed_of(other) == old(budget).consumed_of(other),
            rest@ == all.subrange(taken as int, all.len() as int),
            target@ == base + all.take(taken as int),
        decreases rest@.len(),
    {
        if budget.consume(IndexResource::Facts, 1).is_err() {
            push_unique(limitations, "index-fact-budget-exhausted");
            assert(admitted(all.len() as int, c0, lim) == taken);
            return false;
        }
        let item = rest.remove(0);
        assert(item == all[taken as int]);
        target.push(item);
        proof {
            assert(all.take(taken + 1) =~= all.take(taken as int).push(all[taken as int]));
            assert(rest@ =~= all.subrange(taken + 1, all.len() as int));
        }
        taken = taken + 1;
    }
    assert(taken == all.len());
    assert(all.take(taken as int) =~= all);
    true
}

} // verus!
