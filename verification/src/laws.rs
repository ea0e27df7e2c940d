//! Laws that relate several operations of the library: what a store read
//! gives back of what was written, and how completenesses combine.
use vstd::prelude::*;
use crate::cache::{envelope_failure, same_key, FileFactsEnvelope};
use crate::contracts::Completeness;
use crate::digest::{hex_seq, sha256_of};
use crate::integrity::file_facts_valid;
use crate::locator::{
    compatibility_valid, identity_compatible, lookup_matches, reference_failure, reference_sound,
    GenerationReference, GenerationReferenceEnvelope,
};
use crate::model::{file_fact_key_valid, generation_identity_valid, generation_message, locator_valid, FileFactKey};
use crate::repository_index::{any_budget_exhausted, index_status_spec, merge_completeness_spec};
use crate::contracts::ProviderStatus;
use crate::model::IndexLimitation;
use crate::engine::detect_language_spec;
use crate::summarizer::test_hint_rule;
use crate::text_scan::key_value_rule;
use crate::cleanup::{clean_walk, CleanRequest, GenerationCandidate};
use crate::strings::{has_infix, has_prefix, has_suffix, lower_seq};

verus! {

/// A file-facts object written for a valid key and a valid payload, with
/// the payload's encoding, length and checksum, is read back for that key
/// as a hit on the same payload, as long as the payload fits the limit.
pub proof fn law_file_facts_read_back(
    maximum: nat,
    key: FileFactKey,
    envelope: FileFactsEnvelope,
    encoded: Seq<u8>,
)
    requires
        file_fact_key_valid(key),
        file_facts_valid(envelope.payload),
        envelope.magic@ == "pre-commit-review-file-facts"@,
        envelope.schema_version == 1,
        same_key(envelope.key, key),
        envelope.payload_length == encoded.len(),
        envelope.payload_sha256@ == hex_seq(sha256_of(encoded)),
        envelope.payload_length <= maximum,
    ensures
        envelope_failure(maximum, key, envelope, Some(encoded)) is None,
{
    assert(file_fact_key_valid(envelope.key));
}

/// A file-facts object written for one key is never a hit for a key with
/// other texts: it is stale.
pub proof fn law_file_facts_other_key_is_stale(
    maximum: nat,
    key: FileFactKey,
    envelope: FileFactsEnvelope,
    encoded: Option<Seq<u8>>,
)
    requires
        envelope.magic@ == "pre-commit-review-file-facts"@,
        envelope.schema_version == 1,
        file_fact_key_valid(envelope.key),
        !same_key(envelope.key, key),
    ensures
        envelope_failure(maximum, key, envelope, encoded) == Some((true, "file-facts-key-mismatch"@)),
{
}

/// A generation reference written for a sound payload, with its encoding,
/// length and checksum, under the file name of its generation key, is read
/// back as a hit.
pub proof fn law_reference_read_back(envelope: GenerationReferenceEnvelope, encoded: Seq<u8>, file_name: Seq<char>)
    requires
        envelope.magic@ == "pre-commit-review-generation-reference"@,
        envelope.schema_version == 1,
        envelope.payload_length == encoded.len(),
        envelope.payload_sha256@ == hex_seq(sha256_of(encoded)),
        locator_valid(envelope.payload.locator),
        compatibility_valid(envelope.payload.compatibility),
        lookup_matches(envelope.payload.lookup, envelope.payload.locator),
        generation_identity_valid(envelope.payload.identity),
        identity_compatible(envelope.payload.identity, envelope.payload.compatibility),
        envelope.payload.generation_key@ == hex_seq(sha256_of(generation_message(envelope.payload.identity))),
        file_name == envelope.payload.generation_key@ + ".json"@,
    ensures
        reference_failure(envelope, Some(encoded), file_name) is None,
{
}

/// Merging completenesses is commutative.
pub proof fn law_merge_completeness_commutes(a: Completeness, b: Completeness)
    ensures
        merge_completeness_spec(a, b) == merge_completeness_spec(b, a),
{
}

/// Merging completenesses is associative.
pub proof fn law_merge_completeness_associates(a: Completeness, b: Completeness, c: Completeness)
    ensures
        merge_completeness_spec(merge_completeness_spec(a, b), c) == merge_completeness_spec(a, merge_completeness_spec(b, c)),
{
}

/// A complete side leaves the other unchanged, and an unavailable side
/// makes the whole unavailable.
pub proof fn law_merge_completeness_identity_and_zero(a: Completeness)
    ensures
        merge_completeness_spec(Completeness::Complete, a) == a,
        merge_completeness_spec(Completeness::Unavailable, a) == Completeness::Unavailable,
        merge_completeness_spec(a, a) == a,
{
}

/// A character of a suffix stands at its place at the end of the sequence.
proof fn lemma_suffix_char(s: Seq<char>, x: Seq<char>, k: int)
    requires
        has_suffix(s, x),
        0 <= k < x.len(),
    ensures
        s[s.len() - x.len() + k] == x[k],
{
    assert(s.subrange(s.len() - x.len(), s.len() as int)[k] == x[k]);
}

/// A name ending in `.yml` or `.yaml` ends in neither `.rs` nor `.toml`.
proof fn lemma_yaml_suffix_excludes(l: Seq<char>)
    requires
        has_suffix(l, ".yml"@) || has_suffix(l, ".yaml"@),
    ensures
        !has_suffix(l, ".rs"@),
        !has_suffix(l, ".toml"@),
{
    reveal_strlit(".yml");
    reveal_strlit(".yaml");
    reveal_strlit(".rs");
    reveal_strlit(".toml");
    if has_suffix(l, ".yml"@) {
        lemma_suffix_char(l, ".yml"@, 3);
        lemma_suffix_char(l, ".yml"@, 1);
    } else {
        lemma_suffix_char(l, ".yaml"@, 4);
        lemma_suffix_char(l, ".yaml"@, 2);
    }
    if has_suffix(l, ".rs"@) {
        lemma_suffix_char(l, ".rs"@, 2);
    }
    if has_suffix(l, ".toml"@) {
        lemma_suffix_char(l, ".toml"@, 2);
    }
}

/// Every changed file whose name, ignoring ASCII case, ends in `.yml` or
/// `.yaml` is YAML.
pub proof fn law_yaml_files_are_yaml(path: Seq<char>)
    requires
        has_suffix(lower_seq(path), ".yml"@) || has_suffix(lower_seq(path), ".yaml"@),
    ensures
        detect_language_spec(path) == "yaml"@,
{
    lemma_yaml_suffix_excludes(lower_seq(path));
}

/// A YAML file, `.yml` as well as `.yaml`, is scanned with the YAML key
/// rule, the same rule for every YAML file.
pub proof fn law_yaml_files_scan_yaml_keys(path: Seq<char>, other: Seq<char>)
    requires
        has_suffix(lower_seq(path), ".yml"@) || has_suffix(lower_seq(path), ".yaml"@),
        has_suffix(lower_seq(other), ".yml"@) || has_suffix(lower_seq(other), ".yaml"@),
    ensures
        key_value_rule(path) matches Some((_, rule)) && rule == "yaml-key"@,
        key_value_rule(path) == key_value_rule(other),
{
    lemma_yaml_suffix_excludes(lower_seq(path));
    lemma_yaml_suffix_excludes(lower_seq(other));
}

/// A Rust file laid out as a Cargo integration test (under `tests/`, or a
/// `tests` or `integration` directory) never gets the hint that no
/// environment-heavy marker was found.
pub proof fn law_rust_test_layout_has_a_hint(path: Seq<char>, content: Seq<char>)
    requires
        has_suffix(lower_seq(path), ".rs"@),
        has_prefix(lower_seq(path), "tests/"@) || has_infix(lower_seq(path), "/tests/"@) || has_infix(
            lower_seq(path),
            "/integration/"@,
        ),
    ensures
        test_hint_rule(lower_seq(path), content, lower_seq(content)).0 != "no-known-env-heavy-marker"@,
{
    let r = test_hint_rule(lower_seq(path), content, lower_seq(content)).0;
    reveal_strlit("no-known-env-heavy-marker");
    reveal_strlit("testcontainers");
    reveal_strlit("docker-compose-test");
    reveal_strlit("wiremock-test");
    reveal_strlit("mockserver-test");
    reveal_strlit("spring-cloud-contract");
    reveal_strlit("external-service-config");
    reveal_strlit("quarkus-test-context");
    reveal_strlit("micronaut-test-context");
    reveal_strlit("spring-boot-context");
    reveal_strlit("spring-data-slice");
    reveal_strlit("spring-web-slice");
    reveal_strlit("jvm-test-profile");
    reveal_strlit("junit-integration-tag");
    reveal_strlit("jvm-integration-naming");
    reveal_strlit("pytest-env-marker");
    reveal_strlit("playwright-e2e");
    reveal_strlit("cypress-e2e");
    reveal_strlit("node-e2e-or-integration");
    reveal_strlit("go-integration-build-tag");
    reveal_strlit("go-integration-naming");
    reveal_strlit("rust-ignored-test");
    reveal_strlit("rust-integration-path");
    if r == "no-known-env-heavy-marker"@ {
        assert(r[0] == 'n' && r[1] == 'o' && r[2] == '-');
        assert(r.len() == 25);
    }
}

/// Walking the candidates with a projected size already within the byte
/// target removes nothing, unless only invalid generations are cleaned.
pub proof fn law_clean_within_target_removes_nothing(
    c: Seq<GenerationCandidate>,
    request: CleanRequest,
    i: int,
    projected: int,
)
    requires
        !request.invalid_only,
        projected <= request.maximum_bytes,
    ensures
        clean_walk(c, request, i, projected).len() == 0,
    decreases i,
{
    if i > 0 {
        law_clean_within_target_removes_nothing(c, request, i - 1, projected);
    }
}

/// A clean never removes one of the retained newest generations, unless
/// only invalid generations are cleaned.
pub proof fn law_clean_keeps_retained(c: Seq<GenerationCandidate>, request: CleanRequest, i: int, projected: int)
    requires
        !request.invalid_only,
        i <= request.retain_generations,
    ensures
        clean_walk(c, request, i, projected).len() == 0,
    decreases i,
{
    if i > 0 {
        law_clean_keeps_retained(c, request, i - 1, projected);
    }
}

/// A clean of invalid generations only removes only invalid generations.
pub proof fn law_clean_invalid_only(c: Seq<GenerationCandidate>, request: CleanRequest, i: int, projected: int)
    requires
        request.invalid_only,
        i <= c.len(),
    ensures
        forall|k: int| 0 <= k < clean_walk(c, request, i, projected).len() ==> (#[trigger] clean_walk(c, request, i, projected)[k]).invalid,
    decreases i,
{
    if i > 0 {
        law_clean_invalid_only(c, request, i - 1, projected);
        let next = if projected > c[i - 1].bytes { projected - c[i - 1].bytes } else { 0 };
        law_clean_invalid_only(c, request, i - 1, next);
        let whole = clean_walk(c, request, i, projected);
        if c[i - 1].invalid {
            let rest = clean_walk(c, request, i - 1, next);
            assert(whole == seq![c[i - 1]] + rest);
            assert forall|k: int| 0 <= k < whole.len() implies (#[trigger] whole[k]).invalid by {
                if k > 0 {
                    assert(whole[k] == rest[k - 1]);
                } else {
                    assert(whole[0] == c[i - 1]);
                }
            }
        } else {
            assert(whole == clean_walk(c, request, i - 1, projected));
        }
    }
}

/// The repository-index provider reports Completed only when the index and
/// the query are both complete, nothing was cut and no budget ran out.
pub proof fn law_index_completed_only_when_complete(
    index: Completeness,
    query: Completeness,
    truncated: bool,
    limitations: Seq<IndexLimitation>,
)
    ensures
        index_status_spec(index, query, truncated, limitations) == ProviderStatus::Completed ==> merge_completeness_spec(
            index,
            query,
        ) == Completeness::Complete && !truncated && !any_budget_exhausted(limitations),
        !any_budget_exhausted(limitations) && (index == Completeness::Partial || query == Completeness::Partial || truncated)
            ==> index_status_spec(index, query, truncated, limitations) == ProviderStatus::Partial,
        any_budget_exhausted(limitations) <==> index_status_spec(index, query, truncated, limitations)
            == ProviderStatus::BudgetExhausted,
{
}

/// A changed file whose name, ignoring ASCII case, ends in `.rs` is Rust;
/// one ending in `.toml` is TOML and scanned with the TOML key rule.
pub proof fn law_rust_and_toml_files(path: Seq<char>)
    ensures
        has_suffix(lower_seq(path), ".rs"@) ==> detect_language_spec(path) == "rust"@,
        has_suffix(lower_seq(path), ".toml"@) ==> detect_language_spec(path) == "toml"@,
        has_suffix(lower_seq(path), ".toml"@) ==> (key_value_rule(path) matches Some((_, rule)) && rule == "toml-key"@),
{
    reveal_strlit(".rs");
    reveal_strlit(".toml");
    let l = lower_seq(path);
    if has_suffix(l, ".rs"@) && has_suffix(l, ".toml"@) {
        lemma_suffix_char(l, ".rs"@, 2);
        lemma_suffix_char(l, ".toml"@, 4);
    }
}

/// A file of unknown language gets no built-in configuration scan, and a
/// file without one is Rust or of unknown language: the two classifications
/// of a path by its ending agree.
pub proof fn law_language_and_key_scan_agree(path: Seq<char>)
    ensures
        detect_language_spec(path) == "unknown"@ ==> key_value_rule(path) is None,
        key_value_rule(path) is None ==> detect_language_spec(path) == "rust"@ || detect_language_spec(path) == "unknown"@,
{
    reveal_strlit("unknown");
    reveal_strlit("rust");
    reveal_strlit("toml");
    reveal_strlit("yaml");
    reveal_strlit("dockerfile");
    reveal_strlit("sql");
    assert("unknown"@[0] == 'u');
    assert("rust"@[0] == 'r');
    assert("toml"@[0] == 't');
    assert("yaml"@[0] == 'y');
    assert("dockerfile"@[0] == 'd');
    assert("sql"@[0] == 's');
}

/// The bytes of the generations in a list.
pub open spec fn generation_bytes(s: Seq<GenerationCandidate>) -> int
    decreases s.len(),
{
    if s.len() == 0 {
        0
    } else {
        s[0].bytes + generation_bytes(s.drop_first())
    }
}

/// A clean stops at the byte target: unless only invalid generations are
/// cleaned, every removal but the last still left the projected size above
/// the target, so the last removal was needed.
pub proof fn law_clean_stops_at_target(c: Seq<GenerationCandidate>, request: CleanRequest, i: int, projected: int)
    requires
        !request.invalid_only,
        i <= c.len(),
        projected >= 0,
        clean_walk(c, request, i, projected).len() > 0,
    ensures
        projected - generation_bytes(clean_walk(c, request, i, projected).drop_last()) > request.maximum_bytes,
    decreases i,
{
    let w = clean_walk(c, request, i, projected);
    if i <= 0 {
    } else {
        let x = c[i - 1];
        let next = if projected > x.bytes { projected - x.bytes } else { 0 };
        if crate::cleanup::removal_step(c, request, i - 1, projected) {
            let rest = clean_walk(c, request, i - 1, next);
            assert(w == seq![x] + rest);
            if rest.len() == 0 {
                assert(w.drop_last() =~= Seq::<GenerationCandidate>::empty());
            } else {
                if next == 0 {
                    law_clean_within_target_removes_nothing(c, request, i - 1, next);
                }
                law_clean_stops_at_target(c, request, i - 1, next);
                assert(w.drop_last() =~= seq![x] + rest.drop_last());
                assert((seq![x] + rest.drop_last()).drop_first() =~= rest.drop_last());
            }
        } else {
            assert(w == clean_walk(c, request, i - 1, projected));
            law_clean_stops_at_target(c, request, i - 1, projected);
        }
    }
}

} // verus!
