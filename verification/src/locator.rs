//! Generation references: the small records that point a repository
//! locator at a stored graph generation, where they live, what a read one
//! must satisfy, and which of several is preferred.
use vstd::prelude::*;
use vstd::utf8::encode_utf8;
use crate::cache::{join_path, CacheError, CacheLayout, CacheLookup, PublishResult};
use crate::contracts::Completeness;
use crate::digest::{hex_seq, sha256_hex_of_bytes, sha256_of};
use crate::generation::{identities_equal, same_identity};
use crate::integrity::{opt_text_equal, opt_view};
use crate::model::{
    component, generation_identity_valid, generation_message, locator_valid, push_component,
    GraphGenerationIdentity, RepositoryLocator,
};
use crate::ordering::{CanonicalOrder, ord_int, ord_text, order_text, lemma_ord_text_antisymmetric, stable_sort, sorted_by_order};
use crate::review_scope::ReviewSource;
use crate::strings::{is_hex_of_len, is_hex_with_len, str_equal, take_prefix_chars};

verus! {

/// The largest encoded reference, in bytes.
pub const MAXIMUM_REFERENCE_BYTES: usize = 65536;

/// The most references one locator may collect.
pub const MAXIMUM_REFERENCES_PER_LOCATOR: usize = 32;

/// What a generation must have been built with to be reused.
#[derive(Debug, Clone, PartialEq, Eq)]
pub struct GenerationCompatibility {
    pub graph_schema_version: u16,
    pub resolver_digest: String,
    pub adapter_query_digest: String,
    pub normalization_rules_digest: String,
}

/// A positive schema version and three digests.
pub open spec fn compatibility_valid(c: GenerationCompatibility) -> bool {
    c.graph_schema_version != 0 && is_hex_of_len(c.resolver_digest@, 64) && is_hex_of_len(
        c.adapter_query_digest@,
        64,
    ) && is_hex_of_len(c.normalization_rules_digest@, 64)
}

impl GenerationCompatibility {
    /// Refuses a zero schema version or a malformed digest.
    pub fn validate(&self) -> (r: Result<(), CacheError>)
        ensures
            r is Ok <==> compatibility_valid(*self),
            r matches Err(e) ==> e.code@ == "generation-reference-compatibility-invalid"@,
    {
        if self.graph_schema_version == 0 || !is_hex_with_len(self.resolver_digest.as_str(), 64)
            || !is_hex_with_len(self.adapter_query_digest.as_str(), 64) || !is_hex_with_len(
            self.normalization_rules_digest.as_str(),
            64,
        ) {
            return Err(CacheError::new(
                "generation-reference-compatibility-invalid",
                "generation reference compatibility is invalid",
            ));
        }
        Ok(())
    }
}

/// What a reference is filed under.
#[derive(Debug, Clone, PartialEq, Eq)]
pub enum GenerationLookup {
    Exact { locator: RepositoryLocator },
    BaseTree { object_format: String, tree: String },
    IndexManifest { object_format: String, index_manifest_digest: String },
}

/// A record pointing a lookup at a stored generation.
#[derive(Debug, Clone, PartialEq, Eq)]
pub struct GenerationReference {
    pub lookup: GenerationLookup,
    pub locator: RepositoryLocator,
    pub compatibility: GenerationCompatibility,
    pub identity: GraphGenerationIdentity,
    pub generation_key: String,
    pub completeness: Completeness,
    pub manifest_files: usize,
    pub manifest_bytes: u64,
}

/// The stored form of a reference.
#[derive(Debug, Clone, PartialEq, Eq)]
pub struct GenerationReferenceEnvelope {
    pub magic: String,
    pub schema_version: u16,
    pub payload_length: usize,
    pub payload_sha256: String,
    pub payload: GenerationReference,
}

/// The store of references under a cache layout.
#[derive(Debug, Clone)]
pub struct GenerationLocatorStore {
    layout: CacheLayout,
}

/// Two locators with the same source, format and digests.
pub open spec fn same_locator(a: RepositoryLocator, b: RepositoryLocator) -> bool {
    &&& a.source == b.source
    &&& a.object_format@ == b.object_format@
    &&& opt_view(a.base_tree) == opt_view(b.base_tree)
    &&& opt_view(a.index_manifest_digest) == opt_view(b.index_manifest_digest)
    &&& a.overlay_candidate_digest@ == b.overlay_candidate_digest@
}

/// Whether two locators are the same.
pub fn locators_equal(a: &RepositoryLocator, b: &RepositoryLocator) -> (r: bool)
    ensures
        r == same_locator(*a, *b),
{
    a.source == b.source && str_equal(a.object_format.as_str(), b.object_format.as_str())
        && opt_text_equal(&a.base_tree, &b.base_tree) && opt_text_equal(
        &a.index_manifest_digest,
        &b.index_manifest_digest,
    ) && str_equal(a.overlay_candidate_digest.as_str(), b.overlay_candidate_digest.as_str())
}

/// A lookup that could have been filed for `locator`: the exact locator;
/// a base tree for a branch review; an index manifest for a staged one.
pub open spec fn lookup_matches(lookup: GenerationLookup, locator: RepositoryLocator) -> bool {
    match lookup {
        GenerationLookup::Exact { locator: exact } => same_locator(exact, locator),
        GenerationLookup::BaseTree { object_format, tree } => {
            &&& locator.source == ReviewSource::Branch
            &&& locator.object_format@ == object_format@
            &&& opt_view(locator.base_tree) == Some(tree@)
        },
        GenerationLookup::IndexManifest { object_format, index_manifest_digest } => {
            &&& locator.source == ReviewSource::Staged
            &&& locator.object_format@ == object_format@
            &&& opt_view(locator.index_manifest_digest) == Some(index_manifest_digest@)
        },
    }
}

/// Whether a lookup could have been filed for `locator`.
pub fn lookup_matches_locator(lookup: &GenerationLookup, locator: &RepositoryLocator) -> (r: bool)
    ensures
        r == lookup_matches(*lookup, *locator),
{
    match lookup {
        GenerationLookup::Exact { locator: exact } => locators_equal(exact, locator),
        GenerationLookup::BaseTree { object_format, tree } => {
            locator.source == ReviewSource::Branch && str_equal(
                locator.object_format.as_str(),
                object_format.as_str(),
            ) && match &locator.base_tree {
                Some(t) => str_equal(t.as_str(), tree.as_str()),
                None => false,
            }
        },
        GenerationLookup::IndexManifest { object_format, index_manifest_digest } => {
            locator.source == ReviewSource::Staged && str_equal(
                locator.object_format.as_str(),
                object_format.as_str(),
            ) && match &locator.index_manifest_digest {
                Some(d) => str_equal(d.as_str(), index_manifest_digest.as_str()),
                None => false,
            }
        },
    }
}

/// Two lookups filed under the same key.
pub open spec fn same_lookup(a: GenerationLookup, b: GenerationLookup) -> bool {
    match (a, b) {
        (GenerationLookup::Exact { locator: x }, GenerationLookup::Exact { locator: y }) => same_locator(x, y),
        (
            GenerationLookup::BaseTree { object_format: f, tree: t },
            GenerationLookup::BaseTree { object_format: g, tree: u },
        ) => f@ == g@ && t@ == u@,
        (
            GenerationLookup::IndexManifest { object_format: f, index_manifest_digest: d },
            GenerationLookup::IndexManifest { object_format: g, index_manifest_digest: e },
        ) => f@ == g@ && d@ == e@,
        _ => false,
    }
}

/// Whether two lookups are the same.
pub fn lookups_equal(a: &GenerationLookup, b: &GenerationLookup) -> (r: bool)
    ensures
        r == same_lookup(*a, *b),
{
    match (a, b) {
        (GenerationLookup::Exact { locator: x }, GenerationLookup::Exact { locator: y }) => locators_equal(x, y),
        (
            GenerationLookup::BaseTree { object_format: f, tree: t },
            GenerationLookup::BaseTree { object_format: g, tree: u },
        ) => str_equal(f.as_str(), g.as_str()) && str_equal(t.as_str(), u.as_str()),
        (
            GenerationLookup::IndexManifest { object_format: f, index_manifest_digest: d },
            GenerationLookup::IndexManifest { object_format: g, index_manifest_digest: e },
        ) => str_equal(f.as_str(), g.as_str()) && str_equal(d.as_str(), e.as_str()),
        _ => false,
    }
}

/// Two compatibilities with the same version and digests.
pub open spec fn same_compatibility(a: GenerationCompatibility, b: GenerationCompatibility) -> bool {
    &&& a.graph_schema_version == b.graph_schema_version
    &&& a.resolver_digest@ == b.resolver_digest@
    &&& a.adapter_query_digest@ == b.adapter_query_digest@
    &&& a.normalization_rules_digest@ == b.normalization_rules_digest@
}

/// Whether two compatibilities are the same.
pub fn compatibilities_equal(a: &GenerationCompatibility, b: &GenerationCompatibility) -> (r: bool)
    ensures
        r == same_compatibility(*a, *b),
{
    a.graph_schema_version == b.graph_schema_version && str_equal(
        a.resolver_digest.as_str(),
        b.resolver_digest.as_str(),
    ) && str_equal(a.adapter_query_digest.as_str(), b.adapter_query_digest.as_str()) && str_equal(
        a.normalization_rules_digest.as_str(),
        b.normalization_rules_digest.as_str(),
    )
}

/// An identity built with the compatibility's version and digests.
pub open spec fn identity_compatible(i: GraphGenerationIdentity, c: GenerationCompatibility) -> bool {
    &&& i.graph_schema_version == c.graph_schema_version
    &&& i.resolver_digest@ == c.resolver_digest@
    &&& i.adapter_query_digest@ == c.adapter_query_digest@
    &&& i.normalization_rules_digest@ == c.normalization_rules_digest@
}

fn identity_matches(i: &GraphGenerationIdentity, c: &GenerationCompatibility) -> (r: bool)
    ensures
        r == identity_compatible(*i, *c),
{
    i.graph_schema_version == c.graph_schema_version && str_equal(
        i.resolver_digest.as_str(),
        c.resolver_digest.as_str(),
    ) && str_equal(i.adapter_query_digest.as_str(), c.adapter_query_digest.as_str()) && str_equal(
        i.normalization_rules_digest.as_str(),
        c.normalization_rules_digest.as_str(),
    )
}

/// A valid locator and compatibility.
pub fn validate_lookup(locator: &RepositoryLocator, compatibility: &GenerationCompatibility) -> (r: Result<(), CacheError>)
    ensures
        r is Ok <==> locator_valid(*locator) && compatibility_valid(*compatibility),
        !locator_valid(*locator) ==> (r matches Err(e) && e.code@ == "generation-reference-locator-invalid"@),
        locator_valid(*locator) && !compatibility_valid(*compatibility) ==> (r matches Err(e) && e.code@
            == "generation-reference-compatibility-invalid"@),
{
    if let Err(error) = locator.validate() {
        let mut message = String::from_str("invalid generation reference locator: ");
        let reason = error.message();
        message.append(reason.as_str());
        return Err(CacheError { code: String::from_str("generation-reference-locator-invalid"), message });
    }
    compatibility.validate()
}

/// The bytes hashed to name a lookup from its encoded key.
pub open spec fn lookup_digest_message(encoded: Seq<u8>) -> Seq<u8> {
    component(encode_utf8("repository-generation-exact-locator/v1"@)) + component(encoded)
}

/// The digest that names a lookup, from the encoded lookup and
/// compatibility.
pub fn lookup_digest(encoded_key: &[u8]) -> (r: String)
    ensures
        r@ == hex_seq(sha256_of(lookup_digest_message(encoded_key@))),
        r@.len() == 64,
{
    let mut message: Vec<u8> = Vec::new();
    push_component(&mut message, "repository-generation-exact-locator/v1".as_bytes());
    push_component(&mut message, encoded_key);
    assert(message@ =~= lookup_digest_message(encoded_key@));
    sha256_hex_of_bytes(message.as_slice())
}

/// The order in which usable references are tried: complete before
/// partial before unavailable.
pub open spec fn completeness_rank_spec(c: Completeness) -> u8 {
    match c {
        Completeness::Complete => 2,
        Completeness::Partial => 1,
        Completeness::Unavailable => 0,
    }
}

/// The rank of a completeness.
pub fn completeness_rank(c: Completeness) -> (r: u8)
    ensures
        r == completeness_rank_spec(c),
{
    match c {
        Completeness::Complete => 2,
        Completeness::Partial => 1,
        Completeness::Unavailable => 0,
    }
}

impl CanonicalOrder for GenerationReference {
    open spec fn order_of(&self, other: &Self) -> int {
        if completeness_rank_spec(self.completeness) != completeness_rank_spec(other.completeness) {
            ord_int(completeness_rank_spec(other.completeness) as int, completeness_rank_spec(self.completeness) as int)
        } else {
            ord_text(self.generation_key@, other.generation_key@)
        }
    }

    proof fn lemma_antisymmetric(a: &Self, b: &Self) {
        lemma_ord_text_antisymmetric(a.generation_key@, b.generation_key@);
    }

    fn order(&self, other: &Self) -> (r: i8) {
        let mine = completeness_rank(self.completeness);
        let theirs = completeness_rank(other.completeness);
        if mine != theirs {
            if theirs < mine {
                -1
            } else {
                1
            }
        } else {
            order_text(self.generation_key.as_str(), other.generation_key.as_str())
        }
    }
}

/// The usable references in the order they are tried: most complete first,
/// then by generation key.
pub fn order_candidates(candidates: Vec<GenerationReference>) -> (r: Vec<GenerationReference>)
    ensures
        sorted_by_order(r@),
        r@.to_multiset() == candidates@.to_multiset(),
{
    stable_sort(candidates)
}

fn corrupt<T>(code: &str) -> (r: CacheLookup<T>)
    ensures
        r matches CacheLookup::Corrupt { code: c } && c@ == code@,
{
    CacheLookup::Corrupt { code: String::from_str(code) }
}

/// A reference that is sound in itself: valid locator, compatibility and
/// identity, a lookup filed for its locator, an identity built with its
/// compatibility, and its identity's key.
pub open spec fn reference_sound(r: GenerationReference) -> bool {
    &&& locator_valid(r.locator)
    &&& compatibility_valid(r.compatibility)
    &&& lookup_matches(r.lookup, r.locator)
    &&& generation_identity_valid(r.identity)
    &&& identity_compatible(r.identity, r.compatibility)
    &&& r.generation_key@ == hex_seq(sha256_of(generation_message(r.identity)))
}

/// Why a read reference envelope is not a hit, with its code; `None` when
/// it is one.
pub open spec fn reference_failure(
    envelope: GenerationReferenceEnvelope,
    encoded: Option<Seq<u8>>,
    file_name: Seq<char>,
) -> Option<Seq<char>> {
    if envelope.magic@ != "pre-commit-review-generation-reference"@ || envelope.schema_version != 1 {
        Some("generation-reference-envelope-incompatible"@)
    } else if encoded is None {
        Some("generation-reference-payload-invalid"@)
    } else if encoded->0.len() != envelope.payload_length || hex_seq(sha256_of(encoded->0))
        != envelope.payload_sha256@ {
        Some("generation-reference-checksum-mismatch"@)
    } else if !reference_sound(envelope.payload) {
        Some("generation-reference-payload-invalid"@)
    } else if file_name != envelope.payload.generation_key@ + ".json"@ {
        Some("generation-reference-filename-mismatch"@)
    } else {
        None
    }
}

fn check_reference(reference: &GenerationReference) -> (r: bool)
    ensures
        r == reference_sound(*reference),
{
    if reference.locator.validate().is_err() || reference.compatibility.validate().is_err()
        || !lookup_matches_locator(&reference.lookup, &reference.locator)
        || reference.identity.validate().is_err() || !identity_matches(&reference.identity, &reference.compatibility) {
        return false;
    }
    match reference.identity.generation_key() {
        Ok(k) => str_equal(k.as_str(), reference.generation_key.as_str()),
        Err(_) => false,
    }
}

impl GenerationLocatorStore {
    pub closed spec fn spec_layout(&self) -> CacheLayout {
        self.layout
    }

    /// A store over `layout`.
    pub fn new(layout: CacheLayout) -> (r: Self)
        ensures
            r.spec_layout() == layout,
    {
        GenerationLocatorStore { layout }
    }

    /// The digest of the exact lookup of `locator`, from the encoded
    /// lookup and compatibility; refused when either is invalid.
    pub fn exact_lookup_digest(
        &self,
        locator: &RepositoryLocator,
        compatibility: &GenerationCompatibility,
        encoded_key: &[u8],
    ) -> (r: Result<String, CacheError>)
        ensures
            r is Ok <==> locator_valid(*locator) && compatibility_valid(*compatibility),
            r matches Ok(d) ==> d@ == hex_seq(sha256_of(lookup_digest_message(encoded_key@))),
    {
        match validate_lookup(locator, compatibility) {
            Err(e) => Err(e),
            Ok(()) => Ok(lookup_digest(encoded_key)),
        }
    }

    /// The directory of the references of a lookup with digest `digest`.
    pub fn bucket(&self, digest: &str) -> (r: String)
        requires
            digest@.len() == 64,
        ensures
            r@ == join_path(
                join_path(join_path(join_path(self.spec_layout().graphs_dir@, "locators"@), "v1"@), digest@.take(2)),
                digest@,
            ),
    {
        let mut path = self.layout.graphs_dir.clone();
        path.append("/locators/v1/");
        let prefix = take_prefix_chars(digest, 2);
        path.append(prefix.as_str());
        path.append("/");
        path.append(digest);
        proof {
            reveal_strlit("/locators/v1/");
            reveal_strlit("/");
            reveal_strlit("locators");
            reveal_strlit("v1");
            assert(path@ =~= join_path(
                join_path(join_path(join_path(self.spec_layout().graphs_dir@, "locators"@), "v1"@), digest@.take(2)),
                digest@,
            ));
        }
        path
    }

    /// The verdict on a reference read from a file named `file_name`:
    /// `encoded` is its payload encoded again, `None` when that failed.
    pub fn accept_reference(
        envelope: GenerationReferenceEnvelope,
        encoded: Option<Vec<u8>>,
        file_name: &str,
    ) -> (r: CacheLookup<GenerationReference>)
        ensures
            ({
                let failure = reference_failure(
                    envelope,
                    match encoded {
                        Some(b) => Some(b@),
                        None => None,
                    },
                    file_name@,
                );
                match r {
                    CacheLookup::Hit(p) => failure is None && p == envelope.payload,
                    CacheLookup::Corrupt { code } => failure == Some(code@),
                    _ => false,
                }
            }),
    {
        if !str_equal(envelope.magic.as_str(), "pre-commit-review-generation-reference") || envelope.schema_version != 1 {
            return corrupt("generation-reference-envelope-incompatible");
        }
        let bytes = match encoded {
            None => return corrupt("generation-reference-payload-invalid"),
            Some(b) => b,
        };
        let digest = sha256_hex_of_bytes(bytes.as_slice());
        if bytes.len() != envelope.payload_length || !str_equal(digest.as_str(), envelope.payload_sha256.as_str()) {
            return corrupt("generation-reference-checksum-mismatch");
        }
        if !check_reference(&envelope.payload) {
            return corrupt("generation-reference-payload-invalid");
        }
        let mut expected = envelope.payload.generation_key.clone();
        expected.append(".json");
        if !str_equal(file_name, expected.as_str()) {
            return corrupt("generation-reference-filename-mismatch");
        }
        CacheLookup::Hit(envelope.payload)
    }

    /// A reference found for `lookup` is stale when it was filed under
    /// another lookup or compatibility.
    pub fn match_reference(
        found: CacheLookup<GenerationReference>,
        lookup: &GenerationLookup,
        compatibility: &GenerationCompatibility,
    ) -> (r: CacheLookup<GenerationReference>)
        ensures
            match found {
                CacheLookup::Hit(x) => if same_lookup(x.lookup, *lookup) && same_compatibility(x.compatibility, *compatibility) {
                    r == CacheLookup::Hit(x)
                } else {
                    r matches CacheLookup::Stale { code } && code@ == "generation-reference-lookup-mismatch"@
                },
                _ => r == found,
            },
    {
        match found {
            CacheLookup::Hit(x) => {
                if lookups_equal(&x.lookup, lookup) && compatibilities_equal(&x.compatibility, compatibility) {
                    CacheLookup::Hit(x)
                } else {
                    CacheLookup::Stale { code: String::from_str("generation-reference-lookup-mismatch") }
                }
            },
            other => other,
        }
    }
}

/// The lookups a generation is published under, besides the exact one:
/// the base tree of a branch review, the index manifest of a staged one.
pub open spec fn extra_lookup_kind(l: RepositoryLocator) -> int {
    match l.source {
        ReviewSource::Branch => if l.base_tree is Some { 1 } else { 0 },
        ReviewSource::Staged => if l.index_manifest_digest is Some { 2 } else { 0 },
        ReviewSource::Unstaged => 0,
    }
}

/// Checks what a publish of a reference needs: a valid locator,
/// compatibility and identity, and an identity built with the
/// compatibility.
pub fn check_publish(
    locator: &RepositoryLocator,
    compatibility: &GenerationCompatibility,
    identity: &GraphGenerationIdentity,
) -> (r: Result<(), CacheError>)
    ensures
        r is Ok <==> locator_valid(*locator) && compatibility_valid(*compatibility) && generation_identity_valid(
            *identity,
        ) && identity_compatible(*identity, *compatibility),
        !locator_valid(*locator) ==> (r matches Err(e) && e.code@ == "generation-reference-locator-invalid"@),
        locator_valid(*locator) && !compatibility_valid(*compatibility) ==> (r matches Err(e) && e.code@
            == "generation-reference-compatibility-invalid"@),
        locator_valid(*locator) && compatibility_valid(*compatibility) && !generation_identity_valid(*identity) ==> (
        r matches Err(e) && e.code@ == "generation-reference-identity-invalid"@),
        locator_valid(*locator) && compatibility_valid(*compatibility) && generation_identity_valid(*identity)
            && !identity_compatible(*identity, *compatibility) ==> (r matches Err(e) && e.code@
            == "generation-reference-identity-incompatible"@),
{
    if let Err(e) = validate_lookup(locator, compatibility) {
        return Err(e);
    }
    if let Err(error) = identity.validate() {
        let mut message = String::from_str("invalid generation reference identity: ");
        let reason = error.message();
        message.append(reason.as_str());
        return Err(CacheError { code: String::from_str("generation-reference-identity-invalid"), message });
    }
    if !identity_matches(identity, compatibility) {
        return Err(CacheError::new(
            "generation-reference-identity-incompatible",
            "generation identity does not match locator compatibility",
        ));
    }
    Ok(())
}

/// The lookups a generation is published under: the exact one, then the
/// base tree of a branch review or the index manifest of a staged one.
pub fn publish_lookups(locator: &RepositoryLocator) -> (r: Vec<GenerationLookup>)
    ensures
        r@.len() == 1 + (if extra_lookup_kind(*locator) == 0 { 0int } else { 1 }),
        r@[0] matches GenerationLookup::Exact { locator: x } && same_locator(x, *locator),
        extra_lookup_kind(*locator) == 1 ==> (r@[1] matches GenerationLookup::BaseTree { object_format, tree }
            && object_format@ == locator.object_format@ && Some(tree@) == opt_view(locator.base_tree)),
        extra_lookup_kind(*locator) == 2 ==> (r@[1] matches GenerationLookup::IndexManifest { object_format, index_manifest_digest }
            && object_format@ == locator.object_format@ && Some(index_manifest_digest@) == opt_view(locator.index_manifest_digest)),
{
    let exact = GenerationLookup::Exact { locator: copy_locator(locator) };
    let mut lookups: Vec<GenerationLookup> = vec![exact];
    match locator.source {
        ReviewSource::Branch => {
            if let Some(tree) = &locator.base_tree {
                lookups.push(GenerationLookup::BaseTree { object_format: locator.object_format.clone(), tree: tree.clone() });
            }
        },
        ReviewSource::Staged => {
            if let Some(digest) = &locator.index_manifest_digest {
                lookups.push(GenerationLookup::IndexManifest {
                    object_format: locator.object_format.clone(),
                    index_manifest_digest: digest.clone(),
                });
            }
        },
        ReviewSource::Unstaged => {},
    }
    lookups
}

/// A copy of a locator.
pub fn copy_locator(l: &RepositoryLocator) -> (r: RepositoryLocator)
    ensures
        same_locator(r, *l),
{
    RepositoryLocator {
        source: l.source,
        object_format: l.object_format.clone(),
        base_tree: match &l.base_tree {
            Some(t) => Some(t.clone()),
            None => None,
        },
        index_manifest_digest: match &l.index_manifest_digest {
            Some(d) => Some(d.clone()),
            None => None,
        },
        overlay_candidate_digest: l.overlay_candidate_digest.clone(),
    }
}

/// The overall result of publishing under several lookups: published when
/// any was newly published, reused otherwise.
pub fn combine_publish(results: &Vec<PublishResult>) -> (r: PublishResult)
    ensures
        r == PublishResult::Published <==> exists|i: int| 0 <= i < results@.len() && results@[i] == PublishResult::Published,
{
    let mut i: usize = 0;
    while i < results.len()
        invariant
            i <= results@.len(),
            forall|k: int| 0 <= k < i ==> results@[k] != PublishResult::Published,
        decreases results@.len() - i,
    {
        if results[i] == PublishResult::Published {
            return PublishResult::Published;
        }
        i = i + 1;
    }
    PublishResult::Reused
}

/// The overall verdict of a lookup that tried several references: corrupt
/// when any was corrupt, else stale when any was stale, else a miss. The
/// last code seen of each kind is reported.
pub fn settle_lookup(stale_code: Option<String>, corrupt_code: Option<String>) -> (r: CacheLookup<GenerationReference>)
    ensures
        corrupt_code matches Some(c) ==> (r matches CacheLookup::Corrupt { code } && code@ == c@),
        corrupt_code is None ==> (stale_code matches Some(s) ==> (r matches CacheLookup::Stale { code } && code@ == s@)),
        corrupt_code is None && stale_code is None ==> r is Miss,
{
    if let Some(code) = corrupt_code {
        CacheLookup::Corrupt { code }
    } else if let Some(code) = stale_code {
        CacheLookup::Stale { code }
    } else {
        CacheLookup::Miss
    }
}

} // verus!
