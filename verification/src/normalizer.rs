//! Normalisation of the syntax and text evidence of one unit into the
//! identified symbols, edges and facts of the impact document.
use vstd::prelude::*;
use crate::contracts::{
    ChangedSymbol, Confidence, EdgeKind, ImpactEdge, ParseQuality, Resolution, SourceRange,
};
use crate::digest::{stable_id_spec, str_views};
use crate::keyed::{best_of, keyed_sorted, keys_of, lemma_best_chain, lemma_same_keyed, merge_all, merge_ranked, Keyed, Ranked};
use crate::rust_syntax::{RustCallFact, RustSyntaxOutput, RustTextFact};
use crate::strings::{decimal, has_prefix, push_char, push_decimal, str_equal, str_starts_with};
use crate::text_adapter::{TextFact, TextOutput, TextProvenance};
pub use crate::digest::stable_id;

verus! {

/// One normalised piece of evidence.
#[derive(Debug, Clone, PartialEq, Eq)]
pub struct NormalizedFact {
    pub fact_id: String,
    pub provider_id: String,
    pub path: String,
    pub kind: String,
    pub rule_id: String,
    pub text: String,
    pub range: SourceRange,
    pub confidence: Confidence,
    pub resolution: Option<Resolution>,
    pub provenance: String,
    pub details: Vec<(String, String)>,
}

/// The normalised evidence of one unit, each list sorted by identifier.
#[derive(Debug, Clone, PartialEq, Eq)]
pub struct NormalizedUnitFacts {
    pub path: String,
    pub changed_symbols: Vec<ChangedSymbol>,
    pub impact_edges: Vec<ImpactEdge>,
    pub facts: Vec<NormalizedFact>,
}

/// High above medium above low.
pub open spec fn confidence_rank_spec(c: Confidence) -> u8 {
    match c {
        Confidence::High => 3,
        Confidence::Medium => 2,
        Confidence::Low => 1,
    }
}

pub fn confidence_rank(confidence: Confidence) -> (r: u8)
    ensures
        r == confidence_rank_spec(confidence),
{
    match confidence {
        Confidence::High => 3,
        Confidence::Medium => 2,
        Confidence::Low => 1,
    }
}

impl Keyed for ChangedSymbol {
    open spec fn key_of(&self) -> Seq<char> {
        self.symbol_id@
    }

    fn key(&self) -> (r: &str) {
        self.symbol_id.as_str()
    }
}

impl Ranked for ChangedSymbol {
    open spec fn rank_of(&self) -> u8 {
        confidence_rank_spec(self.confidence)
    }

    fn rank(&self) -> (r: u8) {
        confidence_rank(self.confidence)
    }
}

impl Keyed for ImpactEdge {
    open spec fn key_of(&self) -> Seq<char> {
        self.edge_id@
    }

    fn key(&self) -> (r: &str) {
        self.edge_id.as_str()
    }
}

impl Ranked for ImpactEdge {
    open spec fn rank_of(&self) -> u8 {
        confidence_rank_spec(self.confidence)
    }

    fn rank(&self) -> (r: u8) {
        confidence_rank(self.confidence)
    }
}

impl Keyed for NormalizedFact {
    open spec fn key_of(&self) -> Seq<char> {
        self.fact_id@
    }

    fn key(&self) -> (r: &str) {
        self.fact_id.as_str()
    }
}

impl Ranked for NormalizedFact {
    open spec fn rank_of(&self) -> u8 {
        confidence_rank_spec(self.confidence)
    }

    fn rank(&self) -> (r: u8) {
        confidence_rank(self.confidence)
    }
}

/// Symbols of a clean parse are trusted most.
pub open spec fn symbol_confidence_spec(q: ParseQuality) -> Confidence {
    match q {
        ParseQuality::Clean => Confidence::High,
        ParseQuality::Recovered => Confidence::Medium,
        ParseQuality::Degraded => Confidence::Low,
    }
}

pub fn symbol_confidence(quality: ParseQuality) -> (r: Confidence)
    ensures
        r == symbol_confidence_spec(quality),
{
    match quality {
        ParseQuality::Clean => Confidence::High,
        ParseQuality::Recovered => Confidence::Medium,
        ParseQuality::Degraded => Confidence::Low,
    }
}

/// Structural edges are at most of medium confidence.
pub open spec fn structural_edge_confidence_spec(q: ParseQuality) -> Confidence {
    match q {
        ParseQuality::Clean => Confidence::Medium,
        _ => Confidence::Low,
    }
}

pub fn structural_edge_confidence(quality: ParseQuality) -> (r: Confidence)
    ensures
        r == structural_edge_confidence_spec(quality),
{
    match quality {
        ParseQuality::Clean => Confidence::Medium,
        ParseQuality::Recovered | ParseQuality::Degraded => Confidence::Low,
    }
}

/// The six coordinates of a range, in decimal, joined by colons.
pub open spec fn range_identity_spec(r: SourceRange) -> Seq<char> {
    decimal(r.start_line as nat) + seq![':'] + decimal(r.start_column as nat) + seq![':'] + decimal(
        r.end_line as nat,
    ) + seq![':'] + decimal(r.end_column as nat) + seq![':'] + decimal(r.start_byte as nat)
        + seq![':'] + decimal(r.end_byte as nat)
}

/// The six coordinates of a range, in decimal, joined by colons.
pub fn range_identity(range: &SourceRange) -> (r: String)
    ensures
        r@ == range_identity_spec(*range),
{
    let mut out = String::new();
    push_decimal(&mut out, range.start_line as u64);
    push_char(&mut out, ':');
    push_decimal(&mut out, range.start_column as u64);
    push_char(&mut out, ':');
    push_decimal(&mut out, range.end_line as u64);
    push_char(&mut out, ':');
    push_decimal(&mut out, range.end_column as u64);
    push_char(&mut out, ':');
    push_decimal(&mut out, range.start_byte as u64);
    push_char(&mut out, ':');
    push_decimal(&mut out, range.end_byte as u64);
    assert(out@ =~= range_identity_spec(*range));
    out
}

pub open spec fn edge_kind_name_spec(k: EdgeKind) -> Seq<char> {
    match k {
        EdgeKind::Defines => "defines"@,
        EdgeKind::References => "references"@,
        EdgeKind::Imports => "imports"@,
        EdgeKind::Exports => "exports"@,
        EdgeKind::Calls => "calls"@,
        EdgeKind::Implements => "implements"@,
        EdgeKind::Overrides => "overrides"@,
    }
}

pub fn edge_kind_name(kind: EdgeKind) -> (r: &'static str)
    ensures
        r@ == edge_kind_name_spec(kind),
{
    match kind {
        EdgeKind::Defines => "defines",
        EdgeKind::References => "references",
        EdgeKind::Imports => "imports",
        EdgeKind::Exports => "exports",
        EdgeKind::Calls => "calls",
        EdgeKind::Implements => "implements",
        EdgeKind::Overrides => "overrides",
    }
}

pub open spec fn resolution_name_spec(r: Resolution) -> Seq<char> {
    match r {
        Resolution::Syntactic => "syntactic"@,
        Resolution::Lexical => "lexical"@,
        Resolution::ResolvedReference => "resolved-reference"@,
        Resolution::Semantic => "semantic"@,
        Resolution::PolymorphicCandidate => "polymorphic-candidate"@,
        Resolution::Unresolved => "unresolved"@,
    }
}

pub fn resolution_name(resolution: Resolution) -> (r: &'static str)
    ensures
        r@ == resolution_name_spec(resolution),
{
    match resolution {
        Resolution::Syntactic => "syntactic",
        Resolution::Lexical => "lexical",
        Resolution::ResolvedReference => "resolved-reference",
        Resolution::Semantic => "semantic",
        Resolution::PolymorphicCandidate => "polymorphic-candidate",
        Resolution::Unresolved => "unresolved",
    }
}

pub open spec fn opt_view(o: Option<String>) -> Option<Seq<char>> {
    match o {
        Some(s) => Some(s@),
        None => None,
    }
}

/// The identifier of an edge: provider, path, kind, range, source, target
/// and resolution.
pub open spec fn edge_id_spec(
    provider_id: Seq<char>,
    path: Seq<char>,
    kind: EdgeKind,
    range: SourceRange,
    from_symbol: Seq<char>,
    target: Seq<char>,
    resolution: Resolution,
) -> Seq<char> {
    stable_id_spec(
        "impact-edge/v1"@,
        seq![
            provider_id,
            path,
            edge_kind_name_spec(kind),
            range_identity_spec(range),
            from_symbol,
            target,
            resolution_name_spec(resolution),
        ],
    )
}

/// The target text of an edge: its symbol, else its unresolved target,
/// else nothing.
pub open spec fn edge_target_spec(to_symbol: Option<String>, unresolved: Option<String>) -> Seq<
    char,
> {
    match to_symbol {
        Some(s) => s@,
        None => match unresolved {
            Some(u) => u@,
            None => Seq::empty(),
        },
    }
}

/// An identified edge.
pub fn make_edge(
    provider_id: &str,
    path: &str,
    kind: EdgeKind,
    from_symbol: &str,
    to_symbol: Option<String>,
    unresolved_target: Option<String>,
    range: SourceRange,
    resolution: Resolution,
    confidence: Confidence,
) -> (e: ImpactEdge)
    ensures
        e.edge_id@ == edge_id_spec(
            provider_id@,
            path@,
            kind,
            range,
            from_symbol@,
            edge_target_spec(to_symbol, unresolved_target),
            resolution,
        ),
        e.kind == kind,
        e.from_symbol@ == from_symbol@,
        e.to_symbol == to_symbol,
        e.unresolved_target == unresolved_target,
        e.path@ == path@,
        e.range == range,
        e.provider_id@ == provider_id@,
        e.resolution == resolution,
        e.confidence == confidence,
{
    let identity = range_identity(&range);
    let edge_id = {
        let target: &str = match &to_symbol {
            Some(s) => s.as_str(),
            None => match &unresolved_target {
                Some(u) => u.as_str(),
                None => {
                    proof {
                        reveal_strlit("");
                    }
                    assert(""@ =~= Seq::<char>::empty());
                    ""
                },
            },
        };
        let fields: [&str; 7] = [
            provider_id,
            path,
            edge_kind_name(kind),
            identity.as_str(),
            from_symbol,
            target,
            resolution_name(resolution),
        ];
        let id = stable_id("impact-edge/v1", &fields);
        proof {
            assert(str_views(fields@) =~= seq![
                provider_id@,
                path@,
                edge_kind_name_spec(kind),
                range_identity_spec(range),
                from_symbol@,
                edge_target_spec(to_symbol, unresolved_target),
                resolution_name_spec(resolution),
            ]);
        }
        id
    };
    ImpactEdge {
        edge_id,
        kind,
        from_symbol: String::from_str(from_symbol),
        to_symbol,
        unresolved_target,
        path: String::from_str(path),
        range,
        provider_id: String::from_str(provider_id),
        resolution,
        confidence,
    }
}

/// The identifier of a normalised fact.
pub open spec fn fact_id_spec(
    provider_id: Seq<char>,
    path: Seq<char>,
    kind: Seq<char>,
    range: SourceRange,
    rule_id: Seq<char>,
    provenance: Seq<char>,
) -> Seq<char> {
    stable_id_spec(
        "impact-fact/v1"@,
        seq![provider_id, path, kind, range_identity_spec(range), rule_id, provenance],
    )
}

fn fact_id(
    provider_id: &str,
    path: &str,
    kind: &str,
    range: &SourceRange,
    rule_id: &str,
    provenance: &str,
) -> (r: String)
    ensures
        r@ == fact_id_spec(provider_id@, path@, kind@, *range, rule_id@, provenance@),
{
    let identity = range_identity(range);
    let fields: [&str; 6] = [provider_id, path, kind, identity.as_str(), rule_id, provenance];
    let id = stable_id("impact-fact/v1", &fields);
    proof {
        assert(str_views(fields@) =~= seq![
            provider_id@,
            path@,
            kind@,
            range_identity_spec(*range),
            rule_id@,
            provenance@,
        ]);
    }
    id
}

/// A fact read from the syntax tree.
pub fn syntax_text_fact(
    provider_id: &str,
    path: &str,
    kind: &str,
    rule_id: &str,
    fact: &RustTextFact,
    quality: ParseQuality,
) -> (f: NormalizedFact)
    ensures
        f.fact_id@ == fact_id_spec(provider_id@, path@, kind@, fact.range, rule_id@, "syntactic"@),
        f.provider_id@ == provider_id@,
        f.path@ == path@,
        f.kind@ == kind@,
        f.rule_id@ == rule_id@,
        f.text@ == fact.text@,
        f.range == fact.range,
        f.confidence == structural_edge_confidence_spec(quality),
        f.resolution == Some(Resolution::Syntactic),
        f.provenance@ == "syntactic"@,
        f.details@.len() == 0,
{
    NormalizedFact {
        fact_id: fact_id(provider_id, path, kind, &fact.range, rule_id, "syntactic"),
        provider_id: String::from_str(provider_id),
        path: String::from_str(path),
        kind: String::from_str(kind),
        rule_id: String::from_str(rule_id),
        text: fact.text.clone(),
        range: fact.range,
        confidence: structural_edge_confidence(quality),
        resolution: Some(Resolution::Syntactic),
        provenance: String::from_str("syntactic"),
        details: Vec::new(),
    }
}

/// The source of file-level edges: `file:` and the path.
pub open spec fn file_node_spec(path: Seq<char>) -> Seq<char> {
    "file:"@ + path
}

fn file_node(path: &str) -> (r: String)
    ensures
        r@ == file_node_spec(path@),
{
    String::from_str("file:").concat(path)
}

/// Looks up the symbol id recorded for a range identity.
fn lookup_caller(caller_ids: &Vec<(String, String)>, identity: &str) -> (r: Option<String>)
    ensures
        r matches Some(id) ==> exists|i: int|
            0 <= i < caller_ids@.len() && caller_ids@[i].0@ == identity@ && caller_ids@[i].1@
                == id@,
        r is None ==> forall|i: int| 0 <= i < caller_ids@.len() ==> caller_ids@[i].0@ != identity@,
{
    let mut i: usize = 0;
    while i < caller_ids.len()
        invariant
            i <= caller_ids@.len(),
            forall|j: int| 0 <= j < i ==> caller_ids@[j].0@ != identity@,
        decreases caller_ids@.len() - i,
    {
        if str_equal(caller_ids[i].0.as_str(), identity) {
            return Some(caller_ids[i].1.clone());
        }
        i = i + 1;
    }
    None
}

/// No identity is recorded twice.
pub open spec fn unique_identities(v: Seq<(String, String)>) -> bool {
    forall|i: int, j: int| 0 <= i < j < v.len() ==> v[i].0@ != v[j].0@
}

/// Records `id` for `identity`, replacing an earlier record.
fn record_caller(caller_ids: &mut Vec<(String, String)>, identity: String, id: String)
    requires
        unique_identities(old(caller_ids)@),
    ensures
        unique_identities(final(caller_ids)@),
        exists|i: int|
            0 <= i < final(caller_ids)@.len() && final(caller_ids)@[i].0@ == identity@ && final(caller_ids)@[i].1@ == id@,
{
    let mut i: usize = 0;
    while i < caller_ids.len()
        invariant
            i <= caller_ids@.len(),
            caller_ids@ == old(caller_ids)@,
            unique_identities(caller_ids@),
            forall|j: int| 0 <= j < i ==> caller_ids@[j].0@ != identity@,
        decreases caller_ids@.len() - i,
    {
        if str_equal(caller_ids[i].0.as_str(), identity.as_str()) {
            let ghost before = caller_ids@;
            let ghost key = identity@;
            let ghost value = id@;
            caller_ids.set(i, (identity, id));
            proof {
                assert forall|a: int, b: int|
                    0 <= a < b < caller_ids@.len() implies caller_ids@[a].0@ != caller_ids@[b].0@ by {
                    if a == i as int {
                        assert(caller_ids@[a].0@ == before[a].0@);
                    } else if b == i as int {
                        assert(caller_ids@[b].0@ == before[b].0@);
                    }
                }
                assert(caller_ids@[i as int].0@ == key && caller_ids@[i as int].1@ == value);
            }
            return;
        }
        i = i + 1;
    }
    let ghost key = identity@;
    caller_ids.push((identity, id));
    proof {
        assert forall|a: int, b: int|
            0 <= a < b < caller_ids@.len() implies caller_ids@[a].0@ != caller_ids@[b].0@ by {
            if b == caller_ids@.len() - 1 {
                assert(old(caller_ids)@[a].0@ != key);
            } else {
                assert(caller_ids@[a] == old(caller_ids)@[a]);
                assert(caller_ids@[b] == old(caller_ids)@[b]);
            }
        }
        assert(caller_ids@[caller_ids@.len() - 1].0@ == key);
    }
}


/// Where the facts of a unit may come from.
pub open spec fn symbols_from(v: Seq<ChangedSymbol>, provider: Seq<char>, path: Seq<char>, language: Seq<char>) -> bool {
    forall|i: int|
        0 <= i < v.len() ==> (#[trigger] v[i]).provider_id@ == provider && v[i].path@ == path
            && v[i].language@ == language
}

pub open spec fn edges_from(v: Seq<ImpactEdge>, provider: Seq<char>, path: Seq<char>) -> bool {
    forall|i: int| 0 <= i < v.len() ==> (#[trigger] v[i]).provider_id@ == provider && v[i].path@ == path
}

pub open spec fn facts_from(v: Seq<NormalizedFact>, syntax: Seq<char>, text: Seq<char>, path: Seq<char>) -> bool {
    forall|i: int|
        0 <= i < v.len() ==> ((#[trigger] v[i]).provider_id@ == syntax || v[i].provider_id@ == text)
            && v[i].path@ == path
}

pub open spec fn owner_text(o: Option<String>) -> Seq<char> {
    match o {
        Some(s) => s@,
        None => Seq::empty(),
    }
}

/// The identifier of a changed symbol.
pub open spec fn symbol_id_spec(provider: Seq<char>, path: Seq<char>, kind: Seq<char>, range: SourceRange, owner: Seq<char>, name: Seq<char>) -> Seq<char> {
    stable_id_spec("impact-symbol/v1"@, seq![provider, path, kind, range_identity_spec(range), owner, name])
}

fn empty_if_none(o: &Option<String>) -> (r: &str)
    ensures
        r@ == owner_text(*o),
{
    match o {
        Some(s) => s.as_str(),
        None => {
            proof {
                reveal_strlit("");
            }
            assert(""@ =~= Seq::<char>::empty());
            ""
        },
    }
}

fn clone_details(d: &Vec<(String, String)>) -> (r: Vec<(String, String)>)
    ensures
        r@.len() == d@.len(),
        forall|i: int| 0 <= i < r@.len() ==> #[trigger] r@[i].0@ == d@[i].0@ && r@[i].1@ == d@[i].1@,
{
    let mut out: Vec<(String, String)> = Vec::new();
    let mut i: usize = 0;
    while i < d.len()
        invariant
            i <= d@.len(),
            out@.len() == i,
            forall|j: int| 0 <= j < i ==> #[trigger] out@[j].0@ == d@[j].0@ && out@[j].1@ == d@[j].1@,
        decreases d@.len() - i,
    {
        out.push((d[i].0.clone(), d[i].1.clone()));
        i = i + 1;
    }
    out
}

fn visibility_is_public(v: &Option<String>) -> (r: bool)
    ensures
        r == (v matches Some(s) && has_prefix(s@, "pub"@)),
{
    match v {
        Some(s) => str_starts_with(s.as_str(), "pub"),
        None => false,
    }
}

/// The call edge of a call site: from the innermost changed symbol that
/// contains it, or from the file.
pub fn call_edge(
    provider_id: &str,
    path: &str,
    call: &RustCallFact,
    caller_ids: &Vec<(String, String)>,
    quality: ParseQuality,
) -> (e: ImpactEdge)
    ensures
        e.provider_id@ == provider_id@,
        e.path@ == path@,
        e.kind == EdgeKind::Calls,
        e.unresolved_target == Some(call.target),
        e.to_symbol is None,
        e.range == call.range,
        e.resolution == Resolution::Unresolved,
        e.confidence == structural_edge_confidence_spec(quality),
        call.caller_range is None ==> e.from_symbol@ == file_node_spec(path@),
{
    let found = match &call.caller_range {
        Some(range) => {
            let identity = range_identity(range);
            lookup_caller(caller_ids, identity.as_str())
        },
        None => None,
    };
    let from_symbol = match found {
        Some(id) => id,
        None => file_node(path),
    };
    make_edge(
        provider_id,
        path,
        EdgeKind::Calls,
        from_symbol.as_str(),
        None,
        Some(call.target.clone()),
        call.range,
        Resolution::Unresolved,
        structural_edge_confidence(quality),
    )
}

/// The file-local identifier of an indexed symbol.
pub fn stable_local_symbol_id(
    kind: &str,
    owner_local_id: Option<&str>,
    name: &str,
    range: &SourceRange,
) -> (r: String)
    ensures
        r@ == stable_id_spec(
            "rust-file-local-symbol/v1"@,
            seq![
                kind@,
                match owner_local_id {
                    Some(o) => o@,
                    None => Seq::empty(),
                },
                name@,
                range_identity_spec(*range),
            ],
        ),
        r@.len() == 16,
{
    let identity = range_identity(range);
    let owner: &str = match owner_local_id {
        Some(o) => o,
        None => {
            proof {
                reveal_strlit("");
            }
            assert(""@ =~= Seq::<char>::empty());
            ""
        },
    };
    let fields: [&str; 4] = [kind, owner, name, identity.as_str()];
    let id = stable_id("rust-file-local-symbol/v1", &fields);
    proof {
        assert(str_views(fields@) =~= seq![
            kind@,
            match owner_local_id {
                Some(o) => o@,
                None => Seq::empty(),
            },
            name@,
            range_identity_spec(*range),
        ]);
    }
    id
}

proof fn lemma_keep_symbols(old_v: Seq<ChangedSymbol>, new_v: Seq<ChangedSymbol>, item: ChangedSymbol, provider: Seq<char>, path: Seq<char>, language: Seq<char>)
    requires
        symbols_from(old_v, provider, path, language),
        item.provider_id@ == provider && item.path@ == path && item.language@ == language,
        forall|j: int| 0 <= j < new_v.len() ==> #[trigger] new_v[j] == item || old_v.contains(new_v[j]),
    ensures
        symbols_from(new_v, provider, path, language),
{
    assert forall|j: int| 0 <= j < new_v.len() implies (#[trigger] new_v[j]).provider_id@ == provider && new_v[j].path@ == path && new_v[j].language@ == language by {
        if new_v[j] != item {
            let w = choose|w: int| 0 <= w < old_v.len() && old_v[w] == new_v[j];
            assert(old_v[w].provider_id@ == provider);
        }
    }
}

proof fn lemma_keep_edges(old_v: Seq<ImpactEdge>, new_v: Seq<ImpactEdge>, item: ImpactEdge, provider: Seq<char>, path: Seq<char>)
    requires
        edges_from(old_v, provider, path),
        item.provider_id@ == provider && item.path@ == path,
        forall|j: int| 0 <= j < new_v.len() ==> #[trigger] new_v[j] == item || old_v.contains(new_v[j]),
    ensures
        edges_from(new_v, provider, path),
{
    assert forall|j: int| 0 <= j < new_v.len() implies (#[trigger] new_v[j]).provider_id@ == provider && new_v[j].path@ == path by {
        if new_v[j] != item {
            let w = choose|w: int| 0 <= w < old_v.len() && old_v[w] == new_v[j];
            assert(old_v[w].provider_id@ == provider);
        }
    }
}

proof fn lemma_keep_facts(old_v: Seq<NormalizedFact>, new_v: Seq<NormalizedFact>, item: NormalizedFact, syntax: Seq<char>, text: Seq<char>, path: Seq<char>)
    requires
        facts_from(old_v, syntax, text, path),
        (item.provider_id@ == syntax || item.provider_id@ == text) && item.path@ == path,
        forall|j: int| 0 <= j < new_v.len() ==> #[trigger] new_v[j] == item || old_v.contains(new_v[j]),
    ensures
        facts_from(new_v, syntax, text, path),
{
    assert forall|j: int| 0 <= j < new_v.len() implies ((#[trigger] new_v[j]).provider_id@ == syntax || new_v[j].provider_id@ == text) && new_v[j].path@ == path by {
        if new_v[j] != item {
            let w = choose|w: int| 0 <= w < old_v.len() && old_v[w] == new_v[j];
            assert(old_v[w].path@ == path);
        }
    }
}

/// `c` is the normalised record of syntax symbol `s`, parsed at quality `q`.
pub open spec fn symbol_of(
    provider: Seq<char>,
    path: Seq<char>,
    language: Seq<char>,
    s: crate::rust_syntax::RustSymbolFact,
    q: ParseQuality,
    c: ChangedSymbol,
) -> bool {
    &&& c.symbol_id@ == symbol_id_spec(provider, path, s.kind@, s.range, owner_text(s.owner), s.name@)
    &&& c.provider_id@ == provider
    &&& c.path@ == path
    &&& c.language@ == language
    &&& c.kind@ == s.kind@
    &&& c.name@ == s.name@
    &&& crate::integrity::opt_view(c.owner) == crate::integrity::opt_view(s.owner)
    &&& crate::integrity::opt_view(c.visibility) == crate::integrity::opt_view(s.visibility)
    &&& c.range == s.range
    &&& c.confidence == symbol_confidence_spec(q)
}

/// `c` is the normalised record of one of the syntax symbols.
pub open spec fn symbol_made(
    c: ChangedSymbol,
    provider: Seq<char>,
    path: Seq<char>,
    language: Seq<char>,
    syms: Seq<crate::rust_syntax::RustSymbolFact>,
    q: ParseQuality,
) -> bool {
    exists|k: int| 0 <= k < syms.len() && symbol_of(provider, path, language, #[trigger] syms[k], q, c)
}

/// A visibility that starts with `pub`.
pub open spec fn visibility_public(v: Option<String>) -> bool {
    v matches Some(x) && has_prefix(x@, "pub"@)
}

/// `e` is the defining (or, for a public symbol, exporting) edge of symbol
/// `s`, identified `id`, from the file node.
pub open spec fn symbol_edge_of(e: ImpactEdge, path: Seq<char>, s: crate::rust_syntax::RustSymbolFact, id: Seq<char>) -> bool {
    &&& crate::integrity::opt_view(e.to_symbol) == Some(id)
    &&& e.from_symbol@ == file_node_spec(path)
    &&& e.range == s.range
    &&& e.resolution == Resolution::Syntactic
    &&& (e.kind == EdgeKind::Exports ==> visibility_public(s.visibility))
}

/// A defining or exporting edge belongs to one of the syntax symbols.
pub open spec fn edge_made(e: ImpactEdge, path: Seq<char>, syms: Seq<crate::rust_syntax::RustSymbolFact>, ids: Seq<Seq<char>>) -> bool {
    (e.kind == EdgeKind::Defines || e.kind == EdgeKind::Exports) ==> exists|k: int|
        0 <= k < syms.len() && symbol_edge_of(e, path, #[trigger] syms[k], ids[k])
}

/// The identifier of the edge of `kind` from the file node to symbol `id`.
pub open spec fn symbol_edge_id(provider: Seq<char>, path: Seq<char>, kind: EdgeKind, s: crate::rust_syntax::RustSymbolFact, id: Seq<char>) -> Seq<char> {
    edge_id_spec(provider, path, kind, s.range, file_node_spec(path), id, Resolution::Syntactic)
}

/// The kind of the normalised record of a text fact.
pub open spec fn text_fact_kind(tf: TextFact) -> Seq<char> {
    "text:"@ + tf.kind.name_of()
}

/// The identifier of the normalised record of a text fact.
pub open spec fn text_fact_id(provider: Seq<char>, path: Seq<char>, tf: TextFact) -> Seq<char> {
    fact_id_spec(provider, path, text_fact_kind(tf), tf.range, tf.rule_id@, "textual"@)
}

/// `f` is the normalised record of text fact `tf`: of kind `text:` and the
/// fact's kind, low confidence, no resolution.
pub open spec fn text_fact_of(provider: Seq<char>, path: Seq<char>, tf: TextFact, f: NormalizedFact) -> bool {
    &&& f.fact_id@ == text_fact_id(provider, path, tf)
    &&& f.provider_id@ == provider
    &&& f.path@ == path
    &&& f.kind@ == text_fact_kind(tf)
    &&& f.rule_id@ == tf.rule_id@
    &&& f.text@ == tf.match_text@
    &&& f.range == tf.range
    &&& f.confidence == Confidence::Low
    &&& f.resolution is None
    &&& f.provenance@ == "textual"@
}

/// A fact is a syntax fact, or the record of one of the text facts.
pub open spec fn fact_made(f: NormalizedFact, syntax: Seq<char>, text: Seq<char>, path: Seq<char>, tfs: Seq<TextFact>) -> bool {
    f.provider_id@ == syntax || exists|m: int| 0 <= m < tfs.len() && text_fact_of(text, path, #[trigger] tfs[m], f)
}

/// The facts of an optional text output.
pub open spec fn text_facts_of(text: Option<&TextOutput>) -> Seq<TextFact> {
    match text {
        Some(t) => t.facts@,
        None => Seq::empty(),
    }
}

proof fn lemma_keep_made_symbols(
    old_v: Seq<ChangedSymbol>,
    new_v: Seq<ChangedSymbol>,
    item: ChangedSymbol,
    provider: Seq<char>,
    path: Seq<char>,
    language: Seq<char>,
    syms: Seq<crate::rust_syntax::RustSymbolFact>,
    q: ParseQuality,
)
    requires
        forall|i: int| 0 <= i < old_v.len() ==> symbol_made(#[trigger] old_v[i], provider, path, language, syms, q),
        symbol_made(item, provider, path, language, syms, q),
        forall|j: int| 0 <= j < new_v.len() ==> #[trigger] new_v[j] == item || old_v.contains(new_v[j]),
    ensures
        forall|i: int| 0 <= i < new_v.len() ==> symbol_made(#[trigger] new_v[i], provider, path, language, syms, q),
{
    assert forall|i: int| 0 <= i < new_v.len() implies symbol_made(#[trigger] new_v[i], provider, path, language, syms, q) by {
        if new_v[i] != item {
            let w = choose|w: int| 0 <= w < old_v.len() && old_v[w] == new_v[i];
            assert(symbol_made(old_v[w], provider, path, language, syms, q));
        }
    }
}

proof fn lemma_keep_made_edges(
    old_v: Seq<ImpactEdge>,
    new_v: Seq<ImpactEdge>,
    item: ImpactEdge,
    path: Seq<char>,
    syms: Seq<crate::rust_syntax::RustSymbolFact>,
    ids: Seq<Seq<char>>,
)
    requires
        forall|i: int| 0 <= i < old_v.len() ==> edge_made(#[trigger] old_v[i], path, syms, ids),
        edge_made(item, path, syms, ids),
        forall|j: int| 0 <= j < new_v.len() ==> #[trigger] new_v[j] == item || old_v.contains(new_v[j]),
    ensures
        forall|i: int| 0 <= i < new_v.len() ==> edge_made(#[trigger] new_v[i], path, syms, ids),
{
    assert forall|i: int| 0 <= i < new_v.len() implies edge_made(#[trigger] new_v[i], path, syms, ids) by {
        if new_v[i] != item {
            let w = choose|w: int| 0 <= w < old_v.len() && old_v[w] == new_v[i];
            assert(edge_made(old_v[w], path, syms, ids));
        }
    }
}

proof fn lemma_keep_made_facts(
    old_v: Seq<NormalizedFact>,
    new_v: Seq<NormalizedFact>,
    item: NormalizedFact,
    syntax: Seq<char>,
    text: Seq<char>,
    path: Seq<char>,
    tfs: Seq<TextFact>,
)
    requires
        forall|i: int| 0 <= i < old_v.len() ==> fact_made(#[trigger] old_v[i], syntax, text, path, tfs),
        fact_made(item, syntax, text, path, tfs),
        forall|j: int| 0 <= j < new_v.len() ==> #[trigger] new_v[j] == item || old_v.contains(new_v[j]),
    ensures
        forall|i: int| 0 <= i < new_v.len() ==> fact_made(#[trigger] new_v[i], syntax, text, path, tfs),
{
    assert forall|i: int| 0 <= i < new_v.len() implies fact_made(#[trigger] new_v[i], syntax, text, path, tfs) by {
        if new_v[i] != item {
            let w = choose|w: int| 0 <= w < old_v.len() && old_v[w] == new_v[i];
            assert(fact_made(old_v[w], syntax, text, path, tfs));
        }
    }
}

/// The symbol identifiers that normalisation gives the syntax symbols.
pub open spec fn syntax_symbol_ids(provider: Seq<char>, path: Seq<char>, syms: Seq<crate::rust_syntax::RustSymbolFact>) -> Seq<Seq<char>> {
    Seq::new(syms.len(), |i: int| symbol_id_spec(provider, path, syms[i].kind@, syms[i].range, owner_text(syms[i].owner), syms[i].name@))
}

/// What normalising a unit yields: the records of its syntax and text
/// evidence, each list sorted by identifier, every syntax symbol, its
/// defining edge, its exporting edge when it is public, and every text
/// fact present by identifier, and nothing that is not one of them.
pub open spec fn normalization_of(
    r: NormalizedUnitFacts,
    path: Seq<char>,
    language: Seq<char>,
    syntax_provider: Seq<char>,
    text_provider: Seq<char>,
    syntax: Option<RustSyntaxOutput>,
    tfs: Seq<TextFact>,
) -> bool {
    &&& r.path@ == path
    &&& keyed_sorted(r.changed_symbols@)
    &&& keyed_sorted(r.impact_edges@)
    &&& keyed_sorted(r.facts@)
    &&& symbols_from(r.changed_symbols@, syntax_provider, path, language)
    &&& edges_from(r.impact_edges@, syntax_provider, path)
    &&& facts_from(r.facts@, syntax_provider, text_provider, path)
    &&& syntax is None ==> r.changed_symbols@.len() == 0 && r.impact_edges@.len() == 0
    &&& syntax matches Some(s) ==> {
        &&& forall|k: int|
            0 <= k < s.changed_symbols@.len() ==> keys_of(r.changed_symbols@).contains(
                #[trigger] syntax_symbol_ids(syntax_provider, path, s.changed_symbols@)[k],
            )
        &&& forall|i: int|
            0 <= i < r.changed_symbols@.len() ==> symbol_made(
                #[trigger] r.changed_symbols@[i],
                syntax_provider,
                path,
                language,
                s.changed_symbols@,
                s.parse_quality,
            )
        &&& forall|i: int|
            0 <= i < r.impact_edges@.len() ==> edge_made(
                #[trigger] r.impact_edges@[i],
                path,
                s.changed_symbols@,
                syntax_symbol_ids(syntax_provider, path, s.changed_symbols@),
            )
        &&& forall|k: int|
            0 <= k < s.changed_symbols@.len() ==> keys_of(r.impact_edges@).contains(
                symbol_edge_id(
                    syntax_provider,
                    path,
                    EdgeKind::Defines,
                    #[trigger] s.changed_symbols@[k],
                    syntax_symbol_ids(syntax_provider, path, s.changed_symbols@)[k],
                ),
            )
        &&& forall|k: int|
            0 <= k < s.changed_symbols@.len() && visibility_public(#[trigger] s.changed_symbols@[k].visibility)
                ==> keys_of(r.impact_edges@).contains(
                symbol_edge_id(
                    syntax_provider,
                    path,
                    EdgeKind::Exports,
                    s.changed_symbols@[k],
                    syntax_symbol_ids(syntax_provider, path, s.changed_symbols@)[k],
                ),
            )
    }
    &&& forall|i: int| 0 <= i < r.facts@.len() ==> fact_made(#[trigger] r.facts@[i], syntax_provider, text_provider, path, tfs)
    &&& forall|m: int| 0 <= m < tfs.len() ==> keys_of(r.facts@).contains(text_fact_id(text_provider, path, #[trigger] tfs[m]))
}

/// Identifies and merges the syntax and text evidence of one unit.
pub fn normalize_unit(
    path: &str,
    language: &str,
    syntax_provider_id: &str,
    text_provider_id: &str,
    syntax: Option<&RustSyntaxOutput>,
    text: Option<&TextOutput>,
) -> (r: NormalizedUnitFacts)
    ensures
        r.path@ == path@,
        keyed_sorted(r.changed_symbols@),
        keyed_sorted(r.impact_edges@),
        keyed_sorted(r.facts@),
        symbols_from(r.changed_symbols@, syntax_provider_id@, path@, language@),
        edges_from(r.impact_edges@, syntax_provider_id@, path@),
        facts_from(r.facts@, syntax_provider_id@, text_provider_id@, path@),
        syntax is None ==> r.changed_symbols@.len() == 0 && r.impact_edges@.len() == 0,
        syntax is None && text is None ==> r.facts@.len() == 0,
        syntax matches Some(s) ==> forall|k: int|
            0 <= k < s.changed_symbols@.len() ==> keys_of(r.changed_symbols@).contains(
                #[trigger] syntax_symbol_ids(syntax_provider_id@, path@, s.changed_symbols@)[k],
            ),
        syntax matches Some(s) ==> forall|i: int|
            0 <= i < r.changed_symbols@.len() ==> symbol_made(
                #[trigger] r.changed_symbols@[i],
                syntax_provider_id@,
                path@,
                language@,
                s.changed_symbols@,
                s.parse_quality,
            ),
        syntax matches Some(s) ==> forall|i: int|
            0 <= i < r.impact_edges@.len() ==> edge_made(
                #[trigger] r.impact_edges@[i],
                path@,
                s.changed_symbols@,
                syntax_symbol_ids(syntax_provider_id@, path@, s.changed_symbols@),
            ),
        syntax matches Some(s) ==> forall|k: int|
            0 <= k < s.changed_symbols@.len() ==> keys_of(r.impact_edges@).contains(
                symbol_edge_id(
                    syntax_provider_id@,
                    path@,
                    EdgeKind::Defines,
                    #[trigger] s.changed_symbols@[k],
                    syntax_symbol_ids(syntax_provider_id@, path@, s.changed_symbols@)[k],
                ),
            ),
        syntax matches Some(s) ==> forall|k: int|
            0 <= k < s.changed_symbols@.len() && visibility_public(#[trigger] s.changed_symbols@[k].visibility)
                ==> keys_of(r.impact_edges@).contains(
                symbol_edge_id(
                    syntax_provider_id@,
                    path@,
                    EdgeKind::Exports,
                    s.changed_symbols@[k],
                    syntax_symbol_ids(syntax_provider_id@, path@, s.changed_symbols@)[k],
                ),
            ),
        forall|i: int|
            0 <= i < r.facts@.len() ==> fact_made(
                #[trigger] r.facts@[i],
                syntax_provider_id@,
                text_provider_id@,
                path@,
                text_facts_of(text),
            ),
        forall|m: int|
            0 <= m < text_facts_of(text).len() ==> keys_of(r.facts@).contains(
                text_fact_id(text_provider_id@, path@, #[trigger] text_facts_of(text)[m]),
            ),
        normalization_of(
            r,
            path@,
            language@,
            syntax_provider_id@,
            text_provider_id@,
            match syntax {
                Some(s) => Some(*s),
                None => None,
            },
            text_facts_of(text),
        ),
{
    let ghost tfs = text_facts_of(text);
    let mut symbols: Vec<ChangedSymbol> = Vec::new();
    let mut edges: Vec<ImpactEdge> = Vec::new();
    let mut facts: Vec<NormalizedFact> = Vec::new();
    let mut caller_ids: Vec<(String, String)> = Vec::new();
    let file = file_node(path);
    if let Some(syntax) = syntax {
        let symbol_conf = symbol_confidence(syntax.parse_quality);
        let edge_conf = structural_edge_confidence(syntax.parse_quality);
        let ghost ids = syntax_symbol_ids(syntax_provider_id@, path@, syntax.changed_symbols@);
        let ghost syms = syntax.changed_symbols@;
        let ghost q = syntax.parse_quality;
        let mut i: usize = 0;
        while i < syntax.changed_symbols.len()
            invariant
                i <= syntax.changed_symbols@.len(),
                ids == syntax_symbol_ids(syntax_provider_id@, path@, syntax.changed_symbols@),
                keyed_sorted(symbols@),
                keyed_sorted(edges@),
                keyed_sorted(facts@),
                facts@.len() == 0,
                unique_identities(caller_ids@),
                symbols_from(symbols@, syntax_provider_id@, path@, language@),
                edges_from(edges@, syntax_provider_id@, path@),
                forall|k: int| 0 <= k < i ==> keys_of(symbols@).contains(#[trigger] ids[k]),
                file@ == file_node_spec(path@),
                syms == syntax.changed_symbols@,
                q == syntax.parse_quality,
                tfs == text_facts_of(text),
                forall|j: int| 0 <= j < symbols@.len() ==> symbol_made(#[trigger] symbols@[j], syntax_provider_id@, path@, language@, syms, q),
                forall|j: int| 0 <= j < edges@.len() ==> edge_made(#[trigger] edges@[j], path@, syms, ids),
                forall|k: int| 0 <= k < i ==> keys_of(edges@).contains(
                    symbol_edge_id(syntax_provider_id@, path@, EdgeKind::Defines, #[trigger] syms[k], ids[k]),
                ),
                forall|k: int| 0 <= k < i && visibility_public(#[trigger] syms[k].visibility) ==> keys_of(edges@).contains(
                    symbol_edge_id(syntax_provider_id@, path@, EdgeKind::Exports, syms[k], ids[k]),
                ),
                symbol_conf == symbol_confidence_spec(syntax.parse_quality),
            decreases syntax.changed_symbols@.len() - i,
        {
            let symbol = &syntax.changed_symbols[i];
            let identity = range_identity(&symbol.range);
            let fields: [&str; 6] = [
                syntax_provider_id,
                path,
                symbol.kind.as_str(),
                identity.as_str(),
                empty_if_none(&symbol.owner),
                symbol.name.as_str(),
            ];
            let symbol_id = stable_id("impact-symbol/v1", &fields);
            proof {
                assert(str_views(fields@) =~= seq![
                    syntax_provider_id@,
                    path@,
                    symbol.kind@,
                    range_identity_spec(symbol.range),
                    owner_text(symbol.owner),
                    symbol.name@,
                ]);
                assert(symbol_id@ == ids[i as int]);
            }
            let normalized = ChangedSymbol {
                symbol_id: symbol_id.clone(),
                provider_id: String::from_str(syntax_provider_id),
                path: String::from_str(path),
                language: String::from_str(language),
                kind: symbol.kind.clone(),
                name: symbol.name.clone(),
                owner: symbol.owner.clone(),
                signature: Some(symbol.signature.clone()),
                visibility: symbol.visibility.clone(),
                range: symbol.range,
                confidence: symbol_conf,
            };
            let ghost before = symbols@;
            let ghost item = normalized;
            merge_ranked(&mut symbols, normalized);
            proof {
                lemma_keep_symbols(before, symbols@, item, syntax_provider_id@, path@, language@);
                assert(symbol_of(syntax_provider_id@, path@, language@, syms[i as int], q, item));
                lemma_keep_made_symbols(before, symbols@, item, syntax_provider_id@, path@, language@, syms, q);
                assert forall|k: int| 0 <= k < i + 1 implies keys_of(symbols@).contains(#[trigger] ids[k]) by {
                    if k < i {
                        assert(keys_of(before).contains(ids[k]));
                    }
                }
            }
            record_caller(&mut caller_ids, identity, symbol_id.clone());
            let defines = make_edge(
                syntax_provider_id,
                path,
                EdgeKind::Defines,
                file.as_str(),
                Some(symbol_id.clone()),
                None,
                symbol.range,
                Resolution::Syntactic,
                edge_conf,
            );
            let ghost before_e = edges@;
            let ghost e1 = defines;
            merge_ranked(&mut edges, defines);
            proof {
                lemma_keep_edges(before_e, edges@, e1, syntax_provider_id@, path@);
                assert(symbol_edge_of(e1, path@, syms[i as int], ids[i as int]));
                lemma_keep_made_edges(before_e, edges@, e1, path@, syms, ids);
                assert(e1.edge_id@ == symbol_edge_id(syntax_provider_id@, path@, EdgeKind::Defines, syms[i as int], ids[i as int]));
            }
            if visibility_is_public(&symbol.visibility) {
                let exports = make_edge(
                    syntax_provider_id,
                    path,
                    EdgeKind::Exports,
                    file.as_str(),
                    Some(symbol_id),
                    None,
                    symbol.range,
                    Resolution::Syntactic,
                    edge_conf,
                );
                let ghost before_x = edges@;
                let ghost e2 = exports;
                merge_ranked(&mut edges, exports);
                proof {
                    lemma_keep_edges(before_x, edges@, e2, syntax_provider_id@, path@);
                    assert(symbol_edge_of(e2, path@, syms[i as int], ids[i as int]));
                    lemma_keep_made_edges(before_x, edges@, e2, path@, syms, ids);
                    assert(e2.edge_id@ == symbol_edge_id(syntax_provider_id@, path@, EdgeKind::Exports, syms[i as int], ids[i as int]));
                }
            }
            i = i + 1;
        }
        let mut i: usize = 0;
        while i < syntax.imports.len()
            invariant
                i <= syntax.imports@.len(),
                keyed_sorted(symbols@),
                keyed_sorted(edges@),
                keyed_sorted(facts@),
                symbols_from(symbols@, syntax_provider_id@, path@, language@),
                edges_from(edges@, syntax_provider_id@, path@),
                facts_from(facts@, syntax_provider_id@, text_provider_id@, path@),
                forall|k: int| 0 <= k < syntax.changed_symbols@.len() ==> keys_of(symbols@).contains(#[trigger] ids[k]),
                ids == syntax_symbol_ids(syntax_provider_id@, path@, syntax.changed_symbols@),
                file@ == file_node_spec(path@),
                syms == syntax.changed_symbols@,
                q == syntax.parse_quality,
                tfs == text_facts_of(text),
                forall|j: int| 0 <= j < symbols@.len() ==> symbol_made(#[trigger] symbols@[j], syntax_provider_id@, path@, language@, syms, q),
                forall|j: int| 0 <= j < edges@.len() ==> edge_made(#[trigger] edges@[j], path@, syms, ids),
                forall|j: int| 0 <= j < facts@.len() ==> fact_made(#[trigger] facts@[j], syntax_provider_id@, text_provider_id@, path@, tfs),
                forall|k: int| 0 <= k < syms.len() ==> keys_of(edges@).contains(
                    symbol_edge_id(syntax_provider_id@, path@, EdgeKind::Defines, #[trigger] syms[k], ids[k]),
                ),
                forall|k: int| 0 <= k < syms.len() && visibility_public(#[trigger] syms[k].visibility) ==> keys_of(edges@).contains(
                    symbol_edge_id(syntax_provider_id@, path@, EdgeKind::Exports, syms[k], ids[k]),
                ),
                file@ == file_node_spec(path@),
            decreases syntax.imports@.len() - i,
        {
            let import = &syntax.imports[i];
            let fact = syntax_text_fact(syntax_provider_id, path, "import", "rust-import", import, syntax.parse_quality);
            let ghost bf = facts@;
            let ghost f = fact;
            merge_ranked(&mut facts, fact);
            proof {
                lemma_keep_facts(bf, facts@, f, syntax_provider_id@, text_provider_id@, path@);
                lemma_keep_made_facts(bf, facts@, f, syntax_provider_id@, text_provider_id@, path@, tfs);
            }
            let edge = make_edge(
                syntax_provider_id,
                path,
                EdgeKind::Imports,
                file.as_str(),
                None,
                Some(import.text.clone()),
                import.range,
                Resolution::Syntactic,
                edge_conf,
            );
            let ghost be = edges@;
            let ghost e = edge;
            merge_ranked(&mut edges, edge);
            proof {
                lemma_keep_edges(be, edges@, e, syntax_provider_id@, path@);
                lemma_keep_made_edges(be, edges@, e, path@, syms, ids);
            }
            i = i + 1;
        }
        let mut i: usize = 0;
        while i < syntax.calls.len()
            invariant
                i <= syntax.calls@.len(),
                keyed_sorted(symbols@),
                keyed_sorted(edges@),
                keyed_sorted(facts@),
                symbols_from(symbols@, syntax_provider_id@, path@, language@),
                edges_from(edges@, syntax_provider_id@, path@),
                facts_from(facts@, syntax_provider_id@, text_provider_id@, path@),
                forall|k: int| 0 <= k < syntax.changed_symbols@.len() ==> keys_of(symbols@).contains(#[trigger] ids[k]),
                ids == syntax_symbol_ids(syntax_provider_id@, path@, syntax.changed_symbols@),
                syms == syntax.changed_symbols@,
                q == syntax.parse_quality,
                tfs == text_facts_of(text),
                forall|j: int| 0 <= j < symbols@.len() ==> symbol_made(#[trigger] symbols@[j], syntax_provider_id@, path@, language@, syms, q),
                forall|j: int| 0 <= j < edges@.len() ==> edge_made(#[trigger] edges@[j], path@, syms, ids),
                forall|j: int| 0 <= j < facts@.len() ==> fact_made(#[trigger] facts@[j], syntax_provider_id@, text_provider_id@, path@, tfs),
                forall|k: int| 0 <= k < syms.len() ==> keys_of(edges@).contains(
                    symbol_edge_id(syntax_provider_id@, path@, EdgeKind::Defines, #[trigger] syms[k], ids[k]),
                ),
                forall|k: int| 0 <= k < syms.len() && visibility_public(#[trigger] syms[k].visibility) ==> keys_of(edges@).contains(
                    symbol_edge_id(syntax_provider_id@, path@, EdgeKind::Exports, syms[k], ids[k]),
                ),
                file@ == file_node_spec(path@),
            decreases syntax.calls@.len() - i,
        {
            let edge = call_edge(syntax_provider_id, path, &syntax.calls[i], &caller_ids, syntax.parse_quality);
            let ghost be = edges@;
            let ghost e = edge;
            merge_ranked(&mut edges, edge);
            proof {
                lemma_keep_edges(be, edges@, e, syntax_provider_id@, path@);
                lemma_keep_made_edges(be, edges@, e, path@, syms, ids);
            }
            i = i + 1;
        }
        let mut i: usize = 0;
        while i < syntax.macros.len()
            invariant
                i <= syntax.macros@.len(),
                keyed_sorted(symbols@),
                keyed_sorted(edges@),
                keyed_sorted(facts@),
                symbols_from(symbols@, syntax_provider_id@, path@, language@),
                edges_from(edges@, syntax_provider_id@, path@),
                facts_from(facts@, syntax_provider_id@, text_provider_id@, path@),
                forall|k: int| 0 <= k < syntax.changed_symbols@.len() ==> keys_of(symbols@).contains(#[trigger] ids[k]),
                ids == syntax_symbol_ids(syntax_provider_id@, path@, syntax.changed_symbols@),
                file@ == file_node_spec(path@),
                syms == syntax.changed_symbols@,
                q == syntax.parse_quality,
                tfs == text_facts_of(text),
                forall|j: int| 0 <= j < symbols@.len() ==> symbol_made(#[trigger] symbols@[j], syntax_provider_id@, path@, language@, syms, q),
                forall|j: int| 0 <= j < edges@.len() ==> edge_made(#[trigger] edges@[j], path@, syms, ids),
                forall|j: int| 0 <= j < facts@.len() ==> fact_made(#[trigger] facts@[j], syntax_provider_id@, text_provider_id@, path@, tfs),
                forall|k: int| 0 <= k < syms.len() ==> keys_of(edges@).contains(
                    symbol_edge_id(syntax_provider_id@, path@, EdgeKind::Defines, #[trigger] syms[k], ids[k]),
                ),
                forall|k: int| 0 <= k < syms.len() && visibility_public(#[trigger] syms[k].visibility) ==> keys_of(edges@).contains(
                    symbol_edge_id(syntax_provider_id@, path@, EdgeKind::Exports, syms[k], ids[k]),
                ),
                file@ == file_node_spec(path@),
            decreases syntax.macros@.len() - i,
        {
            let m = &syntax.macros[i];
            let fact = syntax_text_fact(syntax_provider_id, path, "macro", "rust-macro", m, syntax.parse_quality);
            let ghost bf = facts@;
            let ghost f = fact;
            merge_ranked(&mut facts, fact);
            proof {
                lemma_keep_facts(bf, facts@, f, syntax_provider_id@, text_provider_id@, path@);
                lemma_keep_made_facts(bf, facts@, f, syntax_provider_id@, text_provider_id@, path@, tfs);
            }
            let edge = make_edge(
                syntax_provider_id,
                path,
                EdgeKind::Calls,
                file.as_str(),
                None,
                Some(m.text.clone()),
                m.range,
                Resolution::Unresolved,
                edge_conf,
            );
            let ghost be = edges@;
            let ghost e = edge;
            merge_ranked(&mut edges, edge);
            proof {
                lemma_keep_edges(be, edges@, e, syntax_provider_id@, path@);
                lemma_keep_made_edges(be, edges@, e, path@, syms, ids);
            }
            i = i + 1;
        }
        let mut i: usize = 0;
        while i < syntax.attributes.len()
            invariant
                i <= syntax.attributes@.len(),
                keyed_sorted(facts@),
                facts_from(facts@, syntax_provider_id@, text_provider_id@, path@),
                tfs == text_facts_of(text),
                forall|j: int| 0 <= j < facts@.len() ==> fact_made(#[trigger] facts@[j], syntax_provider_id@, text_provider_id@, path@, tfs),
            decreases syntax.attributes@.len() - i,
        {
            let fact = syntax_text_fact(syntax_provider_id, path, "attribute", "rust-attribute", &syntax.attributes[i], syntax.parse_quality);
            let ghost bf = facts@;
            let ghost f = fact;
            merge_ranked(&mut facts, fact);
            proof {
                lemma_keep_facts(bf, facts@, f, syntax_provider_id@, text_provider_id@, path@);
                lemma_keep_made_facts(bf, facts@, f, syntax_provider_id@, text_provider_id@, path@, tfs);
            }
            i = i + 1;
        }
    }
    if let Some(text) = text {
        let mut i: usize = 0;
        while i < text.facts.len()
            invariant
                i <= text.facts@.len(),
                keyed_sorted(facts@),
                facts_from(facts@, syntax_provider_id@, text_provider_id@, path@),
                tfs == text.facts@,
                forall|j: int| 0 <= j < facts@.len() ==> fact_made(#[trigger] facts@[j], syntax_provider_id@, text_provider_id@, path@, tfs),
                forall|m: int| 0 <= m < i ==> keys_of(facts@).contains(text_fact_id(text_provider_id@, path@, #[trigger] tfs[m])),
            decreases text.facts@.len() - i,
        {
            let tf = &text.facts[i];
            let kind = String::from_str("text:").concat(tf.kind.as_str());
            let fact = NormalizedFact {
                fact_id: fact_id(text_provider_id, path, kind.as_str(), &tf.range, tf.rule_id.as_str(), "textual"),
                provider_id: String::from_str(text_provider_id),
                path: String::from_str(path),
                kind,
                rule_id: tf.rule_id.clone(),
                text: tf.match_text.clone(),
                range: tf.range,
                confidence: Confidence::Low,
                resolution: None,
                provenance: String::from_str("textual"),
                details: clone_details(&tf.details),
            };
            let ghost bf = facts@;
            let ghost f = fact;
            merge_ranked(&mut facts, fact);
            proof {
                lemma_keep_facts(bf, facts@, f, syntax_provider_id@, text_provider_id@, path@);
                assert(tfs[i as int] == *tf);
                assert(text_fact_of(text_provider_id@, path@, tfs[i as int], f));
                lemma_keep_made_facts(bf, facts@, f, syntax_provider_id@, text_provider_id@, path@, tfs);
                assert forall|m: int| 0 <= m < i + 1 implies keys_of(facts@).contains(text_fact_id(text_provider_id@, path@, #[trigger] tfs[m])) by {
                    if m < i {
                        assert(keys_of(bf).contains(text_fact_id(text_provider_id@, path@, tfs[m])));
                    }
                }
            }
            i = i + 1;
        }
    }
    NormalizedUnitFacts {
        path: String::from_str(path),
        changed_symbols: symbols,
        impact_edges: edges,
        facts,
    }
}

/// The symbols of the units, unit after unit.
pub open spec fn units_symbols(units: Seq<NormalizedUnitFacts>) -> Seq<ChangedSymbol>
    decreases units.len(),
{
    if units.len() == 0 {
        Seq::empty()
    } else {
        units_symbols(units.drop_last()) + units.last().changed_symbols@
    }
}

/// The edges of the units, unit after unit.
pub open spec fn units_edges(units: Seq<NormalizedUnitFacts>) -> Seq<ImpactEdge>
    decreases units.len(),
{
    if units.len() == 0 {
        Seq::empty()
    } else {
        units_edges(units.drop_last()) + units.last().impact_edges@
    }
}

/// The facts of the units, unit after unit.
pub open spec fn units_facts(units: Seq<NormalizedUnitFacts>) -> Seq<NormalizedFact>
    decreases units.len(),
{
    if units.len() == 0 {
        Seq::empty()
    } else {
        units_facts(units.drop_last()) + units.last().facts@
    }
}

/// Merges several normalisations of one path: every identifier of any
/// unit is kept once, with a record of one of the units of the highest
/// confidence among those with that identifier (the first such on ties).
pub fn merge_normalized_units(path: &str, units: Vec<NormalizedUnitFacts>) -> (r: NormalizedUnitFacts)
    ensures
        r.path@ == path@,
        keyed_sorted(r.changed_symbols@),
        keyed_sorted(r.impact_edges@),
        keyed_sorted(r.facts@),
        forall|u: int, k: int|
            0 <= u < units@.len() && 0 <= k < units@[u].changed_symbols@.len() ==> keys_of(
                r.changed_symbols@,
            ).contains(#[trigger] units@[u].changed_symbols@[k].symbol_id@),
        forall|k: Seq<char>| #[trigger] keys_of(r.changed_symbols@).contains(k) <==> keys_of(units_symbols(units@)).contains(k),
        forall|k: Seq<char>| #[trigger] keys_of(r.impact_edges@).contains(k) <==> keys_of(units_edges(units@)).contains(k),
        forall|k: Seq<char>| #[trigger] keys_of(r.facts@).contains(k) <==> keys_of(units_facts(units@)).contains(k),
        best_of(r.changed_symbols@, Seq::empty(), units_symbols(units@)),
        best_of(r.impact_edges@, Seq::empty(), units_edges(units@)),
        best_of(r.facts@, Seq::empty(), units_facts(units@)),
        merged_from(path@, units@, r),
{
    let mut symbols: Vec<ChangedSymbol> = Vec::new();
    let mut edges: Vec<ImpactEdge> = Vec::new();
    let mut facts: Vec<NormalizedFact> = Vec::new();
    let ghost all = units@;
    let mut rest = units;
    let total = rest.len();
    let mut done: usize = 0;
    assert(all.take(0) =~= Seq::<NormalizedUnitFacts>::empty());
    while rest.len() > 0
        invariant
            all.len() == total,
            done <= all.len(),
            rest@ == all.subrange(done as int, all.len() as int),
            keyed_sorted(symbols@),
            keyed_sorted(edges@),
            keyed_sorted(facts@),
            forall|k: Seq<char>| #[trigger] keys_of(symbols@).contains(k) <==> keys_of(units_symbols(all.take(done as int))).contains(k),
            forall|k: Seq<char>| #[trigger] keys_of(edges@).contains(k) <==> keys_of(units_edges(all.take(done as int))).contains(k),
            forall|k: Seq<char>| #[trigger] keys_of(facts@).contains(k) <==> keys_of(units_facts(all.take(done as int))).contains(k),
            best_of(symbols@, Seq::empty(), units_symbols(all.take(done as int))),
            best_of(edges@, Seq::empty(), units_edges(all.take(done as int))),
            best_of(facts@, Seq::empty(), units_facts(all.take(done as int))),
        decreases rest@.len(),
    {
        let unit = rest.remove(0);
        let ghost current = unit;
        assert(current == all[done as int]);
        let ghost next = all.take(done + 1);
        assert(next.drop_last() =~= all.take(done as int));
        assert(next.last() == current);
        let ghost s0 = symbols@;
        let ghost e0 = edges@;
        let ghost f0 = facts@;
        merge_all(&mut symbols, unit.changed_symbols);
        merge_all(&mut edges, unit.impact_edges);
        merge_all(&mut facts, unit.facts);
        proof {
            lemma_best_chain(s0, units_symbols(all.take(done as int)), symbols@, current.changed_symbols@);
            lemma_best_chain(e0, units_edges(all.take(done as int)), edges@, current.impact_edges@);
            lemma_best_chain(f0, units_facts(all.take(done as int)), facts@, current.facts@);
            lemma_keys_concat(units_symbols(all.take(done as int)), current.changed_symbols@);
            lemma_keys_concat(units_edges(all.take(done as int)), current.impact_edges@);
            lemma_keys_concat(units_facts(all.take(done as int)), current.facts@);
            assert(rest@ =~= all.subrange(done + 1, all.len() as int));
        }
        done = done + 1;
    }
    assert(all.take(done as int) =~= all);
    proof {
        assert forall|u: int, k: int|
            0 <= u < all.len() && 0 <= k < all[u].changed_symbols@.len() implies keys_of(symbols@).contains(
                #[trigger] all[u].changed_symbols@[k].symbol_id@,
            ) by {
            lemma_unit_symbol_in(all, u, k);
        }
    }
    NormalizedUnitFacts { path: String::from_str(path), changed_symbols: symbols, impact_edges: edges, facts }
}

/// What a merge of the units at `path` states of its result: each list
/// sorted by identifier, holding every identifier of the units and no
/// other, each with a record of the highest confidence among theirs.
pub open spec fn merged_from(path: Seq<char>, units: Seq<NormalizedUnitFacts>, r: NormalizedUnitFacts) -> bool {
    &&& r.path@ == path
    &&& keyed_sorted(r.changed_symbols@)
    &&& keyed_sorted(r.impact_edges@)
    &&& keyed_sorted(r.facts@)
    &&& forall|k: Seq<char>| #[trigger] keys_of(r.changed_symbols@).contains(k) <==> keys_of(units_symbols(units)).contains(k)
    &&& forall|k: Seq<char>| #[trigger] keys_of(r.impact_edges@).contains(k) <==> keys_of(units_edges(units)).contains(k)
    &&& forall|k: Seq<char>| #[trigger] keys_of(r.facts@).contains(k) <==> keys_of(units_facts(units)).contains(k)
    &&& best_of(r.changed_symbols@, Seq::empty(), units_symbols(units))
    &&& best_of(r.impact_edges@, Seq::empty(), units_edges(units))
    &&& best_of(r.facts@, Seq::empty(), units_facts(units))
}

/// Merging a single unit whose lists are sorted by identifier, at its own
/// path, gives the unit back.
pub proof fn lemma_merge_single_unit(u: NormalizedUnitFacts, r: NormalizedUnitFacts)
    requires
        keyed_sorted(u.changed_symbols@),
        keyed_sorted(u.impact_edges@),
        keyed_sorted(u.facts@),
        merged_from(u.path@, seq![u], r),
    ensures
        r.path@ == u.path@,
        r.changed_symbols@ == u.changed_symbols@,
        r.impact_edges@ == u.impact_edges@,
        r.facts@ == u.facts@,
{
    let us = seq![u];
    let none = Seq::<NormalizedUnitFacts>::empty();
    assert(us.drop_last() =~= none);
    assert(us.last() == u);
    assert(units_symbols(none) =~= Seq::<ChangedSymbol>::empty());
    assert(units_edges(none) =~= Seq::<ImpactEdge>::empty());
    assert(units_facts(none) =~= Seq::<NormalizedFact>::empty());
    assert(units_symbols(us) =~= u.changed_symbols@);
    assert(units_edges(us) =~= u.impact_edges@);
    assert(units_facts(us) =~= u.facts@);
    lemma_same_keyed(r.changed_symbols@, u.changed_symbols@);
    lemma_same_keyed(r.impact_edges@, u.impact_edges@);
    lemma_same_keyed(r.facts@, u.facts@);
}

proof fn lemma_keys_concat<T: Keyed>(a: Seq<T>, b: Seq<T>)
    ensures
        forall|k: Seq<char>| #[trigger] keys_of(a + b).contains(k) <==> keys_of(a).contains(k) || keys_of(b).contains(k),
{
    assert(keys_of(a + b) =~= keys_of(a) + keys_of(b));
    assert forall|k: Seq<char>| #[trigger] keys_of(a + b).contains(k) <==> keys_of(a).contains(k) || keys_of(b).contains(k) by {
        if keys_of(a).contains(k) {
            let i = choose|i: int| 0 <= i < keys_of(a).len() && keys_of(a)[i] == k;
            assert(keys_of(a + b)[i] == k);
        }
        if keys_of(b).contains(k) {
            let i = choose|i: int| 0 <= i < keys_of(b).len() && keys_of(b)[i] == k;
            assert(keys_of(a + b)[a.len() + i] == k);
        }
    }
}

proof fn lemma_unit_symbol_in(units: Seq<NormalizedUnitFacts>, u: int, k: int)
    requires
        0 <= u < units.len(),
        0 <= k < units[u].changed_symbols@.len(),
    ensures
        keys_of(units_symbols(units)).contains(units[u].changed_symbols@[k].symbol_id@),
    decreases units.len(),
{
    let d = units.drop_last();
    lemma_keys_concat(units_symbols(d), units.last().changed_symbols@);
    if u < units.len() - 1 {
        assert(d[u] == units[u]);
        lemma_unit_symbol_in(d, u, k);
    } else {
        assert(keys_of(units.last().changed_symbols@)[k] == units[u].changed_symbols@[k].symbol_id@);
    }
}

} // verus!
