//! Domain summaries of one normalised unit: public interface changes,
//! dependency changes, text evidence and test-selection hints.
use vstd::prelude::*;
use crate::contracts::{Confidence, DomainSummary, SummaryKind};
use crate::digest::{stable_id, stable_id_spec, str_views};
use crate::keyed::{insert_absent, keyed_sorted, Keyed};
use crate::normalizer::{NormalizedFact, NormalizedUnitFacts};
use crate::strings::{
    has_infix, has_prefix, has_suffix, lower_seq, push_decimal, str_contains, str_ends_with,
    str_equal, str_starts_with, strip_controls_bounded, take_chars, to_ascii_lower,
    without_controls,
};

verus! {

/// How a changed test file is likely to be run.
#[derive(Debug, Clone, Copy, PartialEq, Eq)]
pub struct TestSelectionHint {
    pub rule_id: &'static str,
    pub confidence: &'static str,
    pub test_kind: &'static str,
    pub environment_dependency: &'static str,
    pub hint: &'static str,
}

impl Keyed for DomainSummary {
    open spec fn key_of(&self) -> Seq<char> {
        self.summary_id@
    }

    fn key(&self) -> (r: &str) {
        self.summary_id.as_str()
    }
}

pub open spec fn summary_kind_name_spec(k: SummaryKind) -> Seq<char> {
    match k {
        SummaryKind::DependencyChange => "dependency-change"@,
        SummaryKind::InterfaceChange => "interface-change"@,
        SummaryKind::TextQueryMatch => "text-query-match"@,
        SummaryKind::TestSelection => "test-selection"@,
        SummaryKind::FrameworkEffect => "framework-effect"@,
        SummaryKind::ConfigurationEffect => "configuration-effect"@,
        SummaryKind::AuthorizationEffect => "authorization-effect"@,
        SummaryKind::StorageEffect => "storage-effect"@,
        SummaryKind::NetworkEffect => "network-effect"@,
        SummaryKind::LifecycleEffect => "lifecycle-effect"@,
    }
}

pub fn summary_kind_name(kind: SummaryKind) -> (r: &'static str)
    ensures
        r@ == summary_kind_name_spec(kind),
{
    match kind {
        SummaryKind::DependencyChange => "dependency-change",
        SummaryKind::InterfaceChange => "interface-change",
        SummaryKind::TextQueryMatch => "text-query-match",
        SummaryKind::TestSelection => "test-selection",
        SummaryKind::FrameworkEffect => "framework-effect",
        SummaryKind::ConfigurationEffect => "configuration-effect",
        SummaryKind::AuthorizationEffect => "authorization-effect",
        SummaryKind::StorageEffect => "storage-effect",
        SummaryKind::NetworkEffect => "network-effect",
        SummaryKind::LifecycleEffect => "lifecycle-effect",
    }
}

/// The summary kind of a text fact kind, if it has one.
pub open spec fn text_summary_kind_spec(kind: Seq<char>) -> Option<SummaryKind> {
    if kind == "text:configured-query"@ {
        Some(SummaryKind::TextQueryMatch)
    } else if kind == "text:test-hint"@ {
        Some(SummaryKind::TestSelection)
    } else if kind == "text:framework"@ {
        Some(SummaryKind::FrameworkEffect)
    } else if kind == "text:configuration"@ {
        Some(SummaryKind::ConfigurationEffect)
    } else if kind == "text:authorization"@ {
        Some(SummaryKind::AuthorizationEffect)
    } else if kind == "text:storage"@ || kind == "text:cache"@ || kind == "text:search"@ {
        Some(SummaryKind::StorageEffect)
    } else if kind == "text:network"@ || kind == "text:broker"@ || kind == "text:endpoint"@ {
        Some(SummaryKind::NetworkEffect)
    } else if kind == "text:lifecycle"@ {
        Some(SummaryKind::LifecycleEffect)
    } else {
        None
    }
}

pub fn text_summary_kind(kind: &str) -> (r: Option<SummaryKind>)
    ensures
        r == text_summary_kind_spec(kind@),
{
    if str_equal(kind, "text:configured-query") {
        Some(SummaryKind::TextQueryMatch)
    } else if str_equal(kind, "text:test-hint") {
        Some(SummaryKind::TestSelection)
    } else if str_equal(kind, "text:framework") {
        Some(SummaryKind::FrameworkEffect)
    } else if str_equal(kind, "text:configuration") {
        Some(SummaryKind::ConfigurationEffect)
    } else if str_equal(kind, "text:authorization") {
        Some(SummaryKind::AuthorizationEffect)
    } else if str_equal(kind, "text:storage") || str_equal(kind, "text:cache") || str_equal(
        kind,
        "text:search",
    ) {
        Some(SummaryKind::StorageEffect)
    } else if str_equal(kind, "text:network") || str_equal(kind, "text:broker") || str_equal(
        kind,
        "text:endpoint",
    ) {
        Some(SummaryKind::NetworkEffect)
    } else if str_equal(kind, "text:lifecycle") {
        Some(SummaryKind::LifecycleEffect)
    } else {
        None
    }
}

/// `high` and `medium` are read as such; anything else is low.
pub open spec fn confidence_from_text_spec(v: Seq<char>) -> Confidence {
    if v == "high"@ {
        Confidence::High
    } else if v == "medium"@ {
        Confidence::Medium
    } else {
        Confidence::Low
    }
}

pub fn confidence_from_text(value: &str) -> (r: Confidence)
    ensures
        r == confidence_from_text_spec(value@),
{
    if str_equal(value, "high") {
        Confidence::High
    } else if str_equal(value, "medium") {
        Confidence::Medium
    } else {
        Confidence::Low
    }
}

/// A summary message: no control character, at most 1000 characters.
pub fn bounded_message(message: String) -> (r: String)
    ensures
        r@ == take_chars(without_controls(message@), 1000),
{
    strip_controls_bounded(message.as_str(), 1000)
}

/// Whether `haystack` contains one of `needles`.
pub fn contains_any(haystack: &str, needles: &[&str]) -> (r: bool)
    ensures
        r == exists|i: int| 0 <= i < needles@.len() && has_infix(haystack@, #[trigger] needles@[i]@),
{
    let mut i: usize = 0;
    while i < needles.len()
        invariant
            i <= needles@.len(),
            forall|j: int| 0 <= j < i ==> !has_infix(haystack@, #[trigger] needles@[j]@),
        decreases needles@.len() - i,
    {
        if str_contains(haystack, needles[i]) {
            return true;
        }
        i = i + 1;
    }
    false
}

/// The sorted, duplicate-free identifiers (insertion into sorted order).
#[verifier::spinoff_prover]
pub fn sort_dedup_ids(ids: Vec<String>) -> (r: Vec<String>)
    ensures
        crate::strings::strictly_ascending(crate::contracts::string_views(r@)),
        forall|i: int|
            0 <= i < ids@.len() ==> crate::contracts::string_views(r@).contains(#[trigger] ids@[i]@),
        forall|i: int|
            0 <= i < r@.len() ==> crate::contracts::string_views(ids@).contains(#[trigger] r@[i]@),
{
    let mut out: Vec<IdEntry> = Vec::new();
    let mut i: usize = 0;
    while i < ids.len()
        invariant
            i <= ids@.len(),
            keyed_sorted(out@),
            forall|j: int| 0 <= j < i ==> crate::keyed::keys_of(out@).contains(#[trigger] ids@[j]@),
            forall|k: int|
                0 <= k < out@.len() ==> exists|j: int| 0 <= j < i && #[trigger] out@[k].id@ == ids@[j]@,
        decreases ids@.len() - i,
    {
        let entry = IdEntry { id: ids[i].clone() };
        let ghost before = out@;
        let ghost e = entry;
        insert_absent(&mut out, entry);
        proof {
            assert forall|j: int| 0 <= j < i + 1 implies crate::keyed::keys_of(out@).contains(
                #[trigger] ids@[j]@,
            ) by {
                if j < i {
                    let w = choose|w: int|
                        0 <= w < crate::keyed::keys_of(before).len() && crate::keyed::keys_of(
                            before,
                        )[w] == ids@[j]@;
                    if crate::keyed::keys_of(before).contains(e.key_of()) {
                        assert(crate::keyed::keys_of(out@)[w] == ids@[j]@);
                    } else {
                        let p = choose|p: int| 0 <= p <= before.len() && out@ == #[trigger] before.insert(p, e);
                        if w < p {
                            assert(crate::keyed::keys_of(out@)[w] == ids@[j]@);
                        } else {
                            assert(crate::keyed::keys_of(out@)[w + 1] == ids@[j]@);
                        }
                    }
                } else {
                    if crate::keyed::keys_of(before).contains(e.key_of()) {
                    } else {
                        let p = choose|p: int| 0 <= p <= before.len() && out@ == #[trigger] before.insert(p, e);
                        assert(crate::keyed::keys_of(out@)[p] == ids@[j]@);
                    }
                }
            }
            assert forall|k: int| 0 <= k < out@.len() implies exists|j: int|
                0 <= j < i + 1 && #[trigger] out@[k].id@ == ids@[j]@ by {
                if crate::keyed::keys_of(before).contains(e.key_of()) {
                    assert(out@[k] == before[k]);
                } else {
                    let p = choose|p: int| 0 <= p <= before.len() && out@ == #[trigger] before.insert(p, e);
                    if k < p {
                        assert(out@[k] == before[k]);
                    } else if k > p {
                        assert(out@[k] == before[k - 1]);
                    } else {
                        assert(out@[k].id@ == ids@[i as int]@);
                    }
                }
            }
        }
        i = i + 1;
    }
    let mut r: Vec<String> = Vec::new();
    let mut k: usize = 0;
    while k < out.len()
        invariant
            k <= out@.len(),
            r@.len() == k,
            forall|m: int| 0 <= m < k ==> #[trigger] r@[m]@ == out@[m].id@,
        decreases out@.len() - k,
    {
        r.push(out[k].id.clone());
        k = k + 1;
    }
    proof {
        assert(crate::contracts::string_views(r@) =~= crate::keyed::keys_of(out@));
        assert forall|m: int| 0 <= m < r@.len() implies crate::contracts::string_views(ids@).contains(
            #[trigger] r@[m]@,
        ) by {
            assert(r@[m]@ == out@[m].id@);
            let j = choose|j: int| 0 <= j < ids.len() && #[trigger] out@[m].id@ == ids@[j]@;
            assert(crate::contracts::string_views(ids@)[j] == r@[m]@);
        }
    }
    r
}

/// A wrapper that keys an identifier by itself.
pub struct IdEntry {
    pub id: String,
}

impl Keyed for IdEntry {
    open spec fn key_of(&self) -> Seq<char> {
        self.id@
    }

    fn key(&self) -> (r: &str) {
        self.id.as_str()
    }
}


fn test_hint(
    rule_id: &'static str,
    confidence: &'static str,
    test_kind: &'static str,
    environment_dependency: &'static str,
    hint: &'static str,
) -> (r: TestSelectionHint)
    ensures
        r.rule_id@ == rule_id@,
        r.confidence@ == confidence@,
        r.test_kind@ == test_kind@,
        r.environment_dependency@ == environment_dependency@,
        r.hint@ == hint@,
{
    TestSelectionHint { rule_id, confidence, test_kind, environment_dependency, hint }
}

/// The lowercased path names a test file by a common convention.
pub open spec fn test_like_lower(l: Seq<char>) -> bool {
    has_prefix(l, "test/"@)
        || has_prefix(l, "tests/"@)
        || has_prefix(l, "e2e/"@)
        || has_prefix(l, "cypress/"@)
        || has_prefix(l, "playwright/"@)
        || has_prefix(l, "src/test/"@)
        || has_infix(l, "/test/"@)
        || has_infix(l, "/tests/"@)
        || has_infix(l, "/e2e/"@)
        || has_infix(l, "/cypress/"@)
        || has_infix(l, "/playwright/"@)
        || has_infix(l, "/__tests__/"@)
        || has_infix(l, "/src/test/"@)
        || has_infix(l, "/src/it/"@)
        || has_infix(l, "/src/integrationtest/"@)
        || has_infix(l, "/src/integration-test/"@)
        || has_suffix(l, "test.java"@)
        || has_suffix(l, "tests.java"@)
        || has_suffix(l, "it.java"@)
        || has_suffix(l, "itcase.java"@)
        || has_suffix(l, "integrationtest.java"@)
        || has_suffix(l, "spec.java"@)
        || has_suffix(l, "test.kt"@)
        || has_suffix(l, "tests.kt"@)
        || has_suffix(l, "it.kt"@)
        || has_suffix(l, "itcase.kt"@)
        || has_suffix(l, "integrationtest.kt"@)
        || has_suffix(l, "spec.kt"@)
        || has_suffix(l, "test.groovy"@)
        || has_suffix(l, "spec.groovy"@)
        || has_suffix(l, "it.groovy"@)
        || has_suffix(l, "integrationtest.groovy"@)
        || has_suffix(l, "test.scala"@)
        || has_suffix(l, "spec.scala"@)
        || has_suffix(l, "it.scala"@)
        || has_suffix(l, "integrationtest.scala"@)
        || has_suffix(l, "test.ts"@)
        || has_suffix(l, "spec.ts"@)
        || has_suffix(l, "e2e.ts"@)
        || has_suffix(l, "cy.ts"@)
        || has_suffix(l, "test.tsx"@)
        || has_suffix(l, "spec.tsx"@)
        || has_suffix(l, "e2e.tsx"@)
        || has_suffix(l, "cy.tsx"@)
        || has_suffix(l, "test.js"@)
        || has_suffix(l, "spec.js"@)
        || has_suffix(l, "e2e.js"@)
        || has_suffix(l, "cy.js"@)
        || has_suffix(l, "test.jsx"@)
        || has_suffix(l, "spec.jsx"@)
        || has_suffix(l, "e2e.jsx"@)
        || has_suffix(l, "cy.jsx"@)
        || has_suffix(l, "_test.go"@)
        || has_suffix(l, "_test.py"@)
        || has_suffix(l, ".spec.py"@)
        || has_prefix(l, "test_"@)
        || has_infix(l, "/test_"@)
}

/// The path names a test file by a common convention.
pub open spec fn is_test_like_path_spec(path: Seq<char>) -> bool {
    test_like_lower(lower_seq(path))
}

pub fn is_test_like_path(path: &str) -> (r: bool)
    ensures
        r == is_test_like_path_spec(path@),
{
    let lower = to_ascii_lower(path);
    let l = lower.as_str();
    str_starts_with(l, "test/")
        || str_starts_with(l, "tests/")
        || str_starts_with(l, "e2e/")
        || str_starts_with(l, "cypress/")
        || str_starts_with(l, "playwright/")
        || str_starts_with(l, "src/test/")
        || str_contains(l, "/test/")
        || str_contains(l, "/tests/")
        || str_contains(l, "/e2e/")
        || str_contains(l, "/cypress/")
        || str_contains(l, "/playwright/")
        || str_contains(l, "/__tests__/")
        || str_contains(l, "/src/test/")
        || str_contains(l, "/src/it/")
        || str_contains(l, "/src/integrationtest/")
        || str_contains(l, "/src/integration-test/")
        || str_ends_with(l, "test.java")
        || str_ends_with(l, "tests.java")
        || str_ends_with(l, "it.java")
        || str_ends_with(l, "itcase.java")
        || str_ends_with(l, "integrationtest.java")
        || str_ends_with(l, "spec.java")
        || str_ends_with(l, "test.kt")
        || str_ends_with(l, "tests.kt")
        || str_ends_with(l, "it.kt")
        || str_ends_with(l, "itcase.kt")
        || str_ends_with(l, "integrationtest.kt")
        || str_ends_with(l, "spec.kt")
        || str_ends_with(l, "test.groovy")
        || str_ends_with(l, "spec.groovy")
        || str_ends_with(l, "it.groovy")
        || str_ends_with(l, "integrationtest.groovy")
        || str_ends_with(l, "test.scala")
        || str_ends_with(l, "spec.scala")
        || str_ends_with(l, "it.scala")
        || str_ends_with(l, "integrationtest.scala")
        || str_ends_with(l, "test.ts")
        || str_ends_with(l, "spec.ts")
        || str_ends_with(l, "e2e.ts")
        || str_ends_with(l, "cy.ts")
        || str_ends_with(l, "test.tsx")
        || str_ends_with(l, "spec.tsx")
        || str_ends_with(l, "e2e.tsx")
        || str_ends_with(l, "cy.tsx")
        || str_ends_with(l, "test.js")
        || str_ends_with(l, "spec.js")
        || str_ends_with(l, "e2e.js")
        || str_ends_with(l, "cy.js")
        || str_ends_with(l, "test.jsx")
        || str_ends_with(l, "spec.jsx")
        || str_ends_with(l, "e2e.jsx")
        || str_ends_with(l, "cy.jsx")
        || str_ends_with(l, "_test.go")
        || str_ends_with(l, "_test.py")
        || str_ends_with(l, ".spec.py")
        || str_starts_with(l, "test_")
        || str_contains(l, "/test_")
}

/// The lowercased path follows a JVM integration-test convention.
pub open spec fn jvm_integration_path_spec(l: Seq<char>) -> bool {
    has_infix(l, "/src/it/"@)
        || has_infix(l, "/src/integrationtest/"@)
        || has_infix(l, "/src/integration-test/"@)
        || has_suffix(l, "it.java"@)
        || has_suffix(l, "itcase.java"@)
        || has_suffix(l, "integrationtest.java"@)
        || has_suffix(l, "it.kt"@)
        || has_suffix(l, "itcase.kt"@)
        || has_suffix(l, "integrationtest.kt"@)
        || has_suffix(l, "it.groovy"@)
        || has_suffix(l, "integrationtest.groovy"@)
        || has_suffix(l, "it.scala"@)
        || has_suffix(l, "integrationtest.scala"@)
}

pub fn path_indicates_jvm_integration(l: &str) -> (r: bool)
    ensures
        r == jvm_integration_path_spec(l@),
{
    str_contains(l, "/src/it/")
        || str_contains(l, "/src/integrationtest/")
        || str_contains(l, "/src/integration-test/")
        || str_ends_with(l, "it.java")
        || str_ends_with(l, "itcase.java")
        || str_ends_with(l, "integrationtest.java")
        || str_ends_with(l, "it.kt")
        || str_ends_with(l, "itcase.kt")
        || str_ends_with(l, "integrationtest.kt")
        || str_ends_with(l, "it.groovy")
        || str_ends_with(l, "integrationtest.groovy")
        || str_ends_with(l, "it.scala")
        || str_ends_with(l, "integrationtest.scala")
}

/// The rule, confidence, test kind and environment of the test-selection
/// hint for a path (lowercased `lp`) and its content (`content`, lowercased
/// `lc`): the first rule that matches, in order.
pub open spec fn test_hint_rule(lp: Seq<char>, content: Seq<char>, lc: Seq<char>) -> (Seq<char>, Seq<char>, Seq<char>, Seq<char>) {
    if (has_infix(lc, "org.testcontainers"@) || has_infix(lc, "@testcontainers"@) || has_infix(lc, "@container"@) || has_infix(lc, "testcontainers-go"@)) {
        ("testcontainers"@, "high"@, "container-integration"@, "docker-or-testcontainers"@)
    } else if (has_infix(lc, "dockercomposecontainer"@) || has_infix(lc, "docker-compose"@) || has_infix(lc, "docker compose"@) || has_infix(lc, "compose.yml"@) || has_infix(lc, "compose.yaml"@)) {
        ("docker-compose-test"@, "high"@, "compose-backed-integration"@, "docker-compose-runtime"@)
    } else if (has_infix(lc, "wiremockserver"@) || has_infix(lc, "wiremockextension"@) || has_infix(lc, "@autoconfigurewiremock"@) || has_infix(lc, "com.github.tomakehurst.wiremock"@) || has_infix(lc, "wiremock.org"@)) {
        ("wiremock-test"@, "high"@, "http-stub-integration"@, "wiremock-runtime"@)
    } else if (has_infix(lc, "org.mockserver"@) || has_infix(lc, "mockservercontainer"@) || has_infix(lc, "clientandserver"@)) {
        ("mockserver-test"@, "high"@, "http-stub-integration"@, "mockserver-runtime"@)
    } else if (has_infix(lc, "@autoconfigurestubrunner"@) || has_infix(lc, "stubrunner"@) || has_infix(lc, "spring-cloud-contract"@) || has_infix(lc, "org.springframework.cloud.contract"@)) {
        ("spring-cloud-contract"@, "high"@, "contract-integration"@, "spring-cloud-contract-runtime"@)
    } else if (has_infix(lc, "jdbc:"@) || has_infix(lc, "r2dbc:"@) || has_infix(lc, "spring.datasource.url"@) || has_infix(lc, "datasource.url"@) || has_infix(lc, "postgresql"@) || has_infix(lc, "mysql"@) || has_infix(lc, "mariadb"@) || has_infix(lc, "oracle.jdbc"@) || has_infix(lc, "mongodb://"@) || has_infix(lc, "redis://"@) || has_infix(lc, "spring.redis"@) || has_infix(lc, "spring.data.redis"@) || has_infix(lc, "kafka.bootstrap"@) || has_infix(lc, "bootstrap.servers"@) || has_infix(lc, "spring.kafka"@) || has_infix(lc, "elasticsearch"@) || has_infix(lc, "opensearch"@) || has_infix(lc, "rabbitmq"@) || has_infix(lc, "amqp://"@) || has_infix(lc, "localstack"@) || has_infix(lc, "minio"@)) {
        ("external-service-config"@, "high"@, "service-backed-integration"@, "database-cache-broker-or-search-service"@)
    } else if (has_infix(lc, "@quarkustest"@) || has_infix(lc, "@quarkusintegrationtest"@) || has_infix(lc, "io.quarkus.test"@)) {
        ("quarkus-test-context"@, "high"@, "quarkus-integration"@, "quarkus-test-runtime"@)
    } else if (has_infix(lc, "@micronauttest"@) || has_infix(lc, "io.micronaut.test"@)) {
        ("micronaut-test-context"@, "high"@, "micronaut-integration"@, "micronaut-test-runtime"@)
    } else if has_infix(content, "@SpringBootTest"@) {
        ("spring-boot-context"@, "high"@, "spring-boot-integration"@, "spring-context"@)
    } else if has_infix(content, "@DataJpaTest"@) || has_infix(content, "@JdbcTest"@) || has_infix(content, "@JooqTest"@) || has_infix(content, "@MybatisTest"@) {
        ("spring-data-slice"@, "high"@, "data-slice-integration"@, "database-or-spring-test-slice"@)
    } else if has_infix(content, "@WebMvcTest"@) || has_infix(content, "@AutoConfigureMockMvc"@) {
        ("spring-web-slice"@, "high"@, "spring-web-slice"@, "spring-test-context"@)
    } else if (has_infix(lc, "@activeprofiles"@) || has_infix(lc, "spring_profiles_active"@) || has_infix(lc, "quarkus.test.profile"@) || has_infix(lc, "micronaut.environments"@)) {
        ("jvm-test-profile"@, "high"@, "profile-backed-test"@, "maven-gradle-or-framework-profile"@)
    } else if (has_infix(lc, "@tag(\"integration\")"@) || has_infix(lc, "@tag(\"e2e\")"@) || has_infix(lc, "@tag(\"contract\")"@) || has_infix(lc, "@tag(\"slow\")"@) || has_infix(lc, "@category(integrationtest"@) || has_infix(lc, "@category(e2etest"@)) {
        ("junit-integration-tag"@, "high"@, "tagged-jvm-integration"@, "junit-tag-or-category-selection"@)
    } else if jvm_integration_path_spec(lp) {
        ("jvm-integration-naming"@, "medium"@, "jvm-integration-by-convention"@, "maven-failsafe-or-gradle-integration-profile"@)
    } else if (has_infix(lc, "pytest.mark.integration"@) || has_infix(lc, "pytest.mark.e2e"@) || has_infix(lc, "pytest.mark.contract"@) || has_infix(lc, "pytest.mark.system"@) || has_infix(lc, "pytest.mark.django_db"@) || has_infix(lc, "pytest.mark.db"@) || has_infix(lc, "pytest.mark.redis"@) || has_infix(lc, "pytest.mark.kafka"@) || has_infix(lc, "pytest.mark.elasticsearch"@)) {
        ("pytest-env-marker"@, "high"@, "pytest-marked-integration"@, "pytest-marker-or-service-runtime"@)
    } else if has_infix(lc, "@playwright/test"@) || has_infix(lc, "playwright/test"@) || has_suffix(lp, ".pw.ts"@) || has_suffix(lp, ".pw.js"@) {
        ("playwright-e2e"@, "high"@, "browser-e2e"@, "browser-runtime-and-app-server"@)
    } else if has_infix(lp, "/cypress/"@) || has_suffix(lp, ".cy.ts"@) || has_suffix(lp, ".cy.tsx"@) || has_suffix(lp, ".cy.js"@) || has_suffix(lp, ".cy.jsx"@) || has_infix(lc, "cy.visit("@) || has_infix(lc, "cypress."@) {
        ("cypress-e2e"@, "high"@, "browser-e2e"@, "browser-runtime-and-app-server"@)
    } else if (has_infix(lp, "/e2e/"@) || has_infix(lp, ".e2e."@) || has_infix(lp, "/integration/"@)) && (has_infix(lc, "vitest"@) || has_infix(lc, "jest"@) || has_infix(lc, "describe("@) || has_infix(lc, "test("@)) {
        ("node-e2e-or-integration"@, "medium"@, "node-e2e-or-integration"@, "node-runtime-and-possibly-app-server"@)
    } else if (has_infix(lc, "//go:build integration"@) || has_infix(lc, "//go:build e2e"@) || has_infix(lc, "//go:build docker"@) || has_infix(lc, "// +build integration"@) || has_infix(lc, "// +build e2e"@) || has_infix(lc, "// +build docker"@)) {
        ("go-integration-build-tag"@, "high"@, "go-tagged-integration"@, "go-build-tags-and-service-runtime"@)
    } else if has_suffix(lp, "_test.go"@) && (has_infix(lp, "integration"@) || has_infix(lp, "/e2e/"@)) {
        ("go-integration-naming"@, "medium"@, "go-integration-by-convention"@, "go-test-selection-or-service-runtime"@)
    } else if has_infix(lc, "#[ignore]"@) {
        ("rust-ignored-test"@, "medium"@, "rust-ignored-or-slow-test"@, "cargo-test-ignored-selection"@)
    } else if has_suffix(lp, ".rs"@) && (has_prefix(lp, "tests/"@) || has_infix(lp, "/tests/"@) || has_infix(lp, "/integration/"@)) {
        ("rust-integration-path"@, "low"@, "rust-integration-by-convention"@, "cargo-test-selection-or-project-specific-runtime"@)
    } else {
        ("no-known-env-heavy-marker"@, "low"@, "unit-or-unknown"@, "not-proven-isolated"@)
    }
}

/// The test-selection hint of a changed test file.
pub fn classify_test_hint(path: &str, content: &str) -> (r: TestSelectionHint)
    ensures
        (r.rule_id@, r.confidence@, r.test_kind@, r.environment_dependency@) == test_hint_rule(lower_seq(path@), content@, lower_seq(content@)),
{
    let lower_path = to_ascii_lower(path);
    let lower_content = to_ascii_lower(content);
    let lp = lower_path.as_str();
    let lc = lower_content.as_str();
    if (str_contains(lc, "org.testcontainers") || str_contains(lc, "@testcontainers") || str_contains(lc, "@container") || str_contains(lc, "testcontainers-go")) {
        test_hint("testcontainers", "high", "container-integration", "docker-or-testcontainers", "Requires Docker/Testcontainers; do not treat failure in a sandbox as a pure code failure without environment evidence.")
    } else if (str_contains(lc, "dockercomposecontainer") || str_contains(lc, "docker-compose") || str_contains(lc, "docker compose") || str_contains(lc, "compose.yml") || str_contains(lc, "compose.yaml")) {
        test_hint("docker-compose-test", "high", "compose-backed-integration", "docker-compose-runtime", "Uses Docker Compose or compose-backed services; verify in an environment with Docker and required service images.")
    } else if (str_contains(lc, "wiremockserver") || str_contains(lc, "wiremockextension") || str_contains(lc, "@autoconfigurewiremock") || str_contains(lc, "com.github.tomakehurst.wiremock") || str_contains(lc, "wiremock.org")) {
        test_hint("wiremock-test", "high", "http-stub-integration", "wiremock-runtime", "Uses WireMock HTTP stubs; sandbox failures may reflect port/runtime setup rather than the changed code.")
    } else if (str_contains(lc, "org.mockserver") || str_contains(lc, "mockservercontainer") || str_contains(lc, "clientandserver")) {
        test_hint("mockserver-test", "high", "http-stub-integration", "mockserver-runtime", "Uses MockServer or its container runtime; verify with the required local or CI service setup.")
    } else if (str_contains(lc, "@autoconfigurestubrunner") || str_contains(lc, "stubrunner") || str_contains(lc, "spring-cloud-contract") || str_contains(lc, "org.springframework.cloud.contract")) {
        test_hint("spring-cloud-contract", "high", "contract-integration", "spring-cloud-contract-runtime", "Uses Spring Cloud Contract or Stub Runner; may require generated stubs, broker settings, or CI contract artifacts.")
    } else if (str_contains(lc, "jdbc:") || str_contains(lc, "r2dbc:") || str_contains(lc, "spring.datasource.url") || str_contains(lc, "datasource.url") || str_contains(lc, "postgresql") || str_contains(lc, "mysql") || str_contains(lc, "mariadb") || str_contains(lc, "oracle.jdbc") || str_contains(lc, "mongodb://") || str_contains(lc, "redis://") || str_contains(lc, "spring.redis") || str_contains(lc, "spring.data.redis") || str_contains(lc, "kafka.bootstrap") || str_contains(lc, "bootstrap.servers") || str_contains(lc, "spring.kafka") || str_contains(lc, "elasticsearch") || str_contains(lc, "opensearch") || str_contains(lc, "rabbitmq") || str_contains(lc, "amqp://") || str_contains(lc, "localstack") || str_contains(lc, "minio")) {
        test_hint("external-service-config", "high", "service-backed-integration", "database-cache-broker-or-search-service", "References database, cache, broker, search, or object-storage service configuration; run with the expected local profile or CI services.")
    } else if (str_contains(lc, "@quarkustest") || str_contains(lc, "@quarkusintegrationtest") || str_contains(lc, "io.quarkus.test")) {
        test_hint("quarkus-test-context", "high", "quarkus-integration", "quarkus-test-runtime", "Loads a Quarkus test context; may require Quarkus profiles, dev services, containers, or CI runtime support.")
    } else if (str_contains(lc, "@micronauttest") || str_contains(lc, "io.micronaut.test")) {
        test_hint("micronaut-test-context", "high", "micronaut-integration", "micronaut-test-runtime", "Loads a Micronaut test context; may require application context configuration or service-backed test resources.")
    } else if str_contains(content, "@SpringBootTest") {
        test_hint("spring-boot-context", "high", "spring-boot-integration", "spring-context", "Loads a Spring Boot application context; may require local profiles, DB, middleware, or CI-provided services.")
    } else if str_contains(content, "@DataJpaTest") || str_contains(content, "@JdbcTest") || str_contains(content, "@JooqTest") || str_contains(content, "@MybatisTest") {
        test_hint("spring-data-slice", "high", "data-slice-integration", "database-or-spring-test-slice", "Loads a data test slice; may require an embedded or configured database.")
    } else if str_contains(content, "@WebMvcTest") || str_contains(content, "@AutoConfigureMockMvc") {
        test_hint("spring-web-slice", "high", "spring-web-slice", "spring-test-context", "Loads a Spring web test slice; usually narrower than full integration but not a pure unit test.")
    } else if (str_contains(lc, "@activeprofiles") || str_contains(lc, "spring_profiles_active") || str_contains(lc, "quarkus.test.profile") || str_contains(lc, "micronaut.environments")) {
        test_hint("jvm-test-profile", "high", "profile-backed-test", "maven-gradle-or-framework-profile", "Selects framework test profiles or environments; use the matching Maven/Gradle profile or CI profile configuration.")
    } else if (str_contains(lc, "@tag(\"integration\")") || str_contains(lc, "@tag(\"e2e\")") || str_contains(lc, "@tag(\"contract\")") || str_contains(lc, "@tag(\"slow\")") || str_contains(lc, "@category(integrationtest") || str_contains(lc, "@category(e2etest")) {
        test_hint("junit-integration-tag", "high", "tagged-jvm-integration", "junit-tag-or-category-selection", "Uses JUnit integration/e2e/contract tags; run with the tag expression and environment expected by the project.")
    } else if path_indicates_jvm_integration(lp) {
        test_hint("jvm-integration-naming", "medium", "jvm-integration-by-convention", "maven-failsafe-or-gradle-integration-profile", "Path or class name follows common JVM integration-test conventions such as *IT or src/integrationTest; run the project integration-test profile if available.")
    } else if (str_contains(lc, "pytest.mark.integration") || str_contains(lc, "pytest.mark.e2e") || str_contains(lc, "pytest.mark.contract") || str_contains(lc, "pytest.mark.system") || str_contains(lc, "pytest.mark.django_db") || str_contains(lc, "pytest.mark.db") || str_contains(lc, "pytest.mark.redis") || str_contains(lc, "pytest.mark.kafka") || str_contains(lc, "pytest.mark.elasticsearch")) {
        test_hint("pytest-env-marker", "high", "pytest-marked-integration", "pytest-marker-or-service-runtime", "Uses pytest markers that usually select integration/e2e/database/service tests; run with the matching marker and required services.")
    } else if str_contains(lc, "@playwright/test") || str_contains(lc, "playwright/test") || str_ends_with(lp, ".pw.ts") || str_ends_with(lp, ".pw.js") {
        test_hint("playwright-e2e", "high", "browser-e2e", "browser-runtime-and-app-server", "Uses Playwright; requires browser runtime and usually a running app server or configured webServer.")
    } else if str_contains(lp, "/cypress/") || str_ends_with(lp, ".cy.ts") || str_ends_with(lp, ".cy.tsx") || str_ends_with(lp, ".cy.js") || str_ends_with(lp, ".cy.jsx") || str_contains(lc, "cy.visit(") || str_contains(lc, "cypress.") {
        test_hint("cypress-e2e", "high", "browser-e2e", "browser-runtime-and-app-server", "Uses Cypress; requires browser runtime and usually a running app server.")
    } else if (str_contains(lp, "/e2e/") || str_contains(lp, ".e2e.") || str_contains(lp, "/integration/")) && (str_contains(lc, "vitest") || str_contains(lc, "jest") || str_contains(lc, "describe(") || str_contains(lc, "test(")) {
        test_hint("node-e2e-or-integration", "medium", "node-e2e-or-integration", "node-runtime-and-possibly-app-server", "Path/content follows common Node e2e or integration-test conventions; verify with the project test script and required runtime services.")
    } else if (str_contains(lc, "//go:build integration") || str_contains(lc, "//go:build e2e") || str_contains(lc, "//go:build docker") || str_contains(lc, "// +build integration") || str_contains(lc, "// +build e2e") || str_contains(lc, "// +build docker")) {
        test_hint("go-integration-build-tag", "high", "go-tagged-integration", "go-build-tags-and-service-runtime", "Uses Go integration/e2e/docker build tags; run go test with the matching tags and required services.")
    } else if str_ends_with(lp, "_test.go") && (str_contains(lp, "integration") || str_contains(lp, "/e2e/")) {
        test_hint("go-integration-naming", "medium", "go-integration-by-convention", "go-test-selection-or-service-runtime", "Go test path suggests integration coverage; check project docs for tags, env vars, or service dependencies.")
    } else if str_contains(lc, "#[ignore]") {
        test_hint("rust-ignored-test", "medium", "rust-ignored-or-slow-test", "cargo-test-ignored-selection", "Rust ignored tests are not run by default and often need explicit `cargo test -- --ignored` plus external setup.")
    } else if str_ends_with(lp, ".rs") && (str_starts_with(lp, "tests/") || str_contains(lp, "/tests/") || str_contains(lp, "/integration/")) {
        test_hint("rust-integration-path", "low", "rust-integration-by-convention", "cargo-test-selection-or-project-specific-runtime", "Rust test path follows Cargo integration-test layout; treat as a planning hint and verify whether external setup is required.")
    } else {
        test_hint("no-known-env-heavy-marker", "low", "unit-or-unknown", "not-proven-isolated", "No known env-heavy marker detected; this is not proof of unit-test isolation. Prefer the narrowest focused test command for this file.")
    }
}

/// The identifier of a summary: kind, path, symbol, rule and first evidence.
pub open spec fn summary_id_spec(
    kind: SummaryKind,
    path: Seq<char>,
    symbol_id: Seq<char>,
    rule_id: Seq<char>,
    first_evidence: Seq<char>,
) -> Seq<char> {
    stable_id_spec(
        "impact-summary/v1"@,
        seq![summary_kind_name_spec(kind), path, symbol_id, rule_id, first_evidence],
    )
}

pub open spec fn text_of(o: Option<&str>) -> Seq<char> {
    match o {
        Some(s) => s@,
        None => Seq::empty(),
    }
}

fn or_empty_text(o: Option<&str>) -> (r: &str)
    ensures
        r@ == text_of(o),
{
    match o {
        Some(s) => s,
        None => {
            proof {
                reveal_strlit("");
            }
            assert(""@ =~= Seq::<char>::empty());
            ""
        },
    }
}

/// A summary record; its evidence sorted and free of duplicates.
/// A summary's evidence is sorted with each identifier once, and its
/// message holds at most 1000 characters, none of them a control character.
pub open spec fn summary_shaped(d: DomainSummary) -> bool {
    &&& crate::strings::strictly_ascending(crate::contracts::string_views(d.evidence_fact_ids@))
    &&& d.message@.len() <= 1000
    &&& forall|i: int| 0 <= i < d.message@.len() ==> !crate::strings::is_control_char(#[trigger] d.message@[i])
}

pub fn make_summary(
    kind: SummaryKind,
    path: &str,
    symbol_id: Option<&str>,
    confidence: Confidence,
    message: String,
    evidence_fact_ids: Vec<String>,
    rule_id: &str,
) -> (d: DomainSummary)
    ensures
        d.summary_kind == kind,
        d.path@ == path@,
        symbol_id is None <==> d.symbol_id is None,
        symbol_id matches Some(s) ==> d.symbol_id matches Some(t) && t@ == s@,
        d.confidence == confidence,
        d.message@ == take_chars(without_controls(message@), 1000),
        crate::strings::strictly_ascending(crate::contracts::string_views(d.evidence_fact_ids@)),
        summary_shaped(d),
        forall|i: int|
            0 <= i < evidence_fact_ids@.len() ==> crate::contracts::string_views(
                d.evidence_fact_ids@,
            ).contains(#[trigger] evidence_fact_ids@[i]@),
        forall|i: int|
            0 <= i < d.evidence_fact_ids@.len() ==> crate::contracts::string_views(
                evidence_fact_ids@,
            ).contains(#[trigger] d.evidence_fact_ids@[i]@),
        d.summary_id@ == summary_id_spec(
            kind,
            path@,
            text_of(symbol_id),
            rule_id@,
            if d.evidence_fact_ids@.len() > 0 {
                d.evidence_fact_ids@[0]@
            } else {
                Seq::empty()
            },
        ),
{
    let evidence = sort_dedup_ids(evidence_fact_ids);
    let first: &str = if evidence.len() > 0 {
        evidence[0].as_str()
    } else {
        proof {
            reveal_strlit("");
        }
        assert(""@ =~= Seq::<char>::empty());
        ""
    };
    let fields: [&str; 5] = [summary_kind_name(kind), path, or_empty_text(symbol_id), rule_id, first];
    let summary_id = stable_id("impact-summary/v1", &fields);
    proof {
        assert(str_views(fields@) =~= seq![
            summary_kind_name_spec(kind),
            path@,
            text_of(symbol_id),
            rule_id@,
            if evidence@.len() > 0 {
                evidence@[0]@
            } else {
                Seq::empty()
            },
        ]);
        crate::strings::lemma_clean_text(message@, 1000);
    }
    DomainSummary {
        summary_id,
        summary_kind: kind,
        path: String::from_str(path),
        symbol_id: match symbol_id {
            Some(s) => Some(String::from_str(s)),
            None => None,
        },
        confidence,
        message: bounded_message(message),
        evidence_fact_ids: evidence,
    }
}

/// The summary of one fact, with the fact as its evidence.
pub fn make_fact_summary(kind: SummaryKind, fact: &NormalizedFact, message: String) -> (d:
    DomainSummary)
    ensures
        d.summary_kind == kind,
        d.path@ == fact.path@,
        d.symbol_id is None,
        d.confidence == fact.confidence,
        d.evidence_fact_ids@.len() == 1,
        d.evidence_fact_ids@[0]@ == fact.fact_id@,
        d.summary_id@ == summary_id_spec(kind, fact.path@, Seq::empty(), fact.rule_id@, fact.fact_id@),
        summary_shaped(d),
        d.message@ == take_chars(without_controls(message@), 1000),
{
    let mut evidence: Vec<String> = Vec::new();
    evidence.push(fact.fact_id.clone());
    let ghost ev = evidence@;
    let d = make_summary(
        kind,
        fact.path.as_str(),
        None,
        fact.confidence,
        message,
        evidence,
        fact.rule_id.as_str(),
    );
    proof {
        single_evidence(d.evidence_fact_ids@, ev, fact.fact_id@);
    }
    d
}

proof fn single_sorted_unique(v: Seq<String>, x: Seq<char>)
    requires
        crate::strings::strictly_ascending(crate::contracts::string_views(v)),
        crate::contracts::string_views(v).contains(x),
        forall|i: int| 0 <= i < v.len() ==> v[i]@ == x,
    ensures
        v.len() == 1,
        v[0]@ == x,
{
    let sv = crate::contracts::string_views(v);
    if v.len() > 1 {
        let t = 1int;
        assert(crate::strings::lex_less(sv[t - 1], sv[t]));
        crate::strings::lemma_lex_asymmetric(v[0]@, v[1]@);
    }
    if v.len() == 0 {
        let w = choose|w: int| 0 <= w < sv.len() && sv[w] == x;
    }
}

proof fn lemma_keep_shaped(old_v: Seq<DomainSummary>, new_v: Seq<DomainSummary>, d: DomainSummary)
    requires
        forall|j: int| 0 <= j < old_v.len() ==> summary_shaped(#[trigger] old_v[j]),
        summary_shaped(d),
        forall|j: int| 0 <= j < new_v.len() ==> #[trigger] new_v[j] == d || old_v.contains(new_v[j]),
    ensures
        forall|j: int| 0 <= j < new_v.len() ==> summary_shaped(#[trigger] new_v[j]),
{
    assert forall|j: int| 0 <= j < new_v.len() implies summary_shaped(#[trigger] new_v[j]) by {
        if new_v[j] != d {
            let w = choose|w: int| 0 <= w < old_v.len() && old_v[w] == new_v[j];
            assert(summary_shaped(old_v[w]));
        }
    }
}

proof fn single_evidence(v: Seq<String>, input: Seq<String>, x: Seq<char>)
    requires
        input.len() == 1,
        input[0]@ == x,
        crate::strings::strictly_ascending(crate::contracts::string_views(v)),
        forall|i: int|
            0 <= i < input.len() ==> crate::contracts::string_views(v).contains(#[trigger] input[i]@),
        forall|i: int|
            0 <= i < v.len() ==> crate::contracts::string_views(input).contains(#[trigger] v[i]@),
    ensures
        v.len() == 1,
        v[0]@ == x,
{
    assert(crate::contracts::string_views(v).contains(input[0]@));
    assert forall|i: int| 0 <= i < v.len() implies v[i]@ == x by {
        assert(crate::contracts::string_views(input).contains(v[i]@));
        let w = choose|w: int| 0 <= w < crate::contracts::string_views(input).len() && crate::contracts::string_views(input)[w] == v[i]@;
        assert(w == 0);
    }
    single_sorted_unique(v, x);
}

/// The value first recorded under `key`, if any.
pub open spec fn detail_spec(details: Seq<(String, String)>, key: Seq<char>) -> Option<Seq<char>>
    decreases details.len(),
{
    if details.len() == 0 {
        None
    } else if details[0].0@ == key {
        Some(details[0].1@)
    } else {
        detail_spec(details.drop_first(), key)
    }
}

/// The value recorded under `key`, if any.
fn detail_value(details: &Vec<(String, String)>, key: &str) -> (r: Option<String>)
    ensures
        r matches Some(v) ==> exists|i: int|
            0 <= i < details@.len() && details@[i].0@ == key@ && details@[i].1@ == v@,
        r is None ==> forall|i: int| 0 <= i < details@.len() ==> details@[i].0@ != key@,
        match r {
            Some(v) => detail_spec(details@, key@) == Some(v@),
            None => detail_spec(details@, key@) is None,
        },
{
    let mut i: usize = 0;
    assert(details@.skip(0) =~= details@);
    while i < details.len()
        invariant
            i <= details@.len(),
            forall|j: int| 0 <= j < i ==> details@[j].0@ != key@,
            detail_spec(details@, key@) == detail_spec(details@.skip(i as int), key@),
        decreases details@.len() - i,
    {
        assert(details@.skip(i as int)[0] == details@[i as int]);
        if str_equal(details[i].0.as_str(), key) {
            return Some(details[i].1.clone());
        }
        assert(details@.skip(i as int).drop_first() =~= details@.skip(i + 1));
        i = i + 1;
    }
    None
}

/// A value, or `unknown` when there is none.
pub open spec fn or_unknown(o: Option<Seq<char>>) -> Seq<char> {
    match o {
        Some(v) => v,
        None => "unknown"@,
    }
}

fn text_or_unknown(o: Option<String>) -> (r: String)
    ensures
        r@ == or_unknown(match o {
            Some(v) => Some(v@),
            None => None,
        }),
{
    match o {
        Some(v) => v,
        None => String::from_str("unknown"),
    }
}

fn line_text(n: u32) -> (r: String)
    ensures
        r@ == crate::strings::decimal(n as nat),
{
    crate::strings::decimal_text(n as u64)
}

/// The message of a text fact's summary: what matched, where, and the
/// text it matched (for a test selection, the test kind and environment
/// dependency it names).
pub open spec fn fact_message_spec(kind: SummaryKind, fact: NormalizedFact) -> Seq<char> {
    match kind {
        SummaryKind::TextQueryMatch => "Configured query "@ + fact.rule_id@ + " matched "@ + fact.path@
            + " at line "@ + crate::strings::decimal(fact.range.start_line as nat) + ": "@ + fact.text@ + "."@,
        SummaryKind::TestSelection => "Configured test selection rule "@ + fact.rule_id@ + " matched "@
            + fact.path@ + ": test kind "@ + or_unknown(detail_spec(fact.details@, "test_kind"@))
            + ", environment dependency "@ + or_unknown(detail_spec(fact.details@, "environment_dependency"@))
            + ", hint "@ + fact.text@ + "."@,
        _ => fact.kind@ + " evidence changed at line "@ + crate::strings::decimal(fact.range.start_line as nat)
            + ": "@ + fact.text@ + "."@,
    }
}

/// The message of a text fact's summary.
fn fact_message(kind: SummaryKind, fact: &NormalizedFact) -> (r: String)
    ensures
        r@ == fact_message_spec(kind, *fact),
{
    match kind {
        SummaryKind::TextQueryMatch => String::from_str("Configured query ").concat(
            fact.rule_id.as_str(),
        ).concat(" matched ").concat(fact.path.as_str()).concat(" at line ").concat(
            line_text(fact.range.start_line).as_str(),
        ).concat(": ").concat(fact.text.as_str()).concat("."),
        SummaryKind::TestSelection => String::from_str("Configured test selection rule ").concat(
            fact.rule_id.as_str(),
        ).concat(" matched ").concat(fact.path.as_str()).concat(": test kind ").concat(
            text_or_unknown(detail_value(&fact.details, "test_kind")).as_str(),
        ).concat(", environment dependency ").concat(
            text_or_unknown(detail_value(&fact.details, "environment_dependency")).as_str(),
        ).concat(", hint ").concat(fact.text.as_str()).concat("."),
        _ => fact.kind.clone().concat(" evidence changed at line ").concat(
            line_text(fact.range.start_line).as_str(),
        ).concat(": ").concat(fact.text.as_str()).concat("."),
    }
}

/// The summary identifier of a public symbol's interface change.
pub open spec fn interface_summary_id(path: Seq<char>, symbol_id: Seq<char>) -> Seq<char> {
    summary_id_spec(SummaryKind::InterfaceChange, path, symbol_id, "public-interface"@, symbol_id)
}

/// A visibility that starts with `pub`.
pub open spec fn is_public_spec(v: Option<String>) -> bool {
    v matches Some(s) && has_prefix(s@, "pub"@)
}

/// The summary a public changed symbol gets: an interface change of the
/// symbol under its interface identifier, with the symbol as its only
/// evidence.
pub open spec fn interface_summary_for(path: Seq<char>, s: crate::contracts::ChangedSymbol, d: DomainSummary) -> bool {
    &&& is_public_spec(s.visibility)
    &&& d.summary_kind == SummaryKind::InterfaceChange
    &&& d.summary_id@ == interface_summary_id(path, s.symbol_id@)
    &&& (d.symbol_id matches Some(t) && t@ == s.symbol_id@)
    &&& d.evidence_fact_ids@.len() == 1
    &&& d.evidence_fact_ids@[0]@ == s.symbol_id@
}

/// An interface change summary is the one of a public changed symbol of
/// the unit.
pub open spec fn from_public_symbol(unit: NormalizedUnitFacts, d: DomainSummary) -> bool {
    d.summary_kind == SummaryKind::InterfaceChange ==> exists|i: int|
        0 <= i < unit.changed_symbols@.len() && interface_summary_for(unit.path@, #[trigger] unit.changed_symbols@[i], d)
}

/// Some summary is an interface change under the symbol's interface
/// identifier.
pub open spec fn has_interface_summary(path: Seq<char>, s: crate::contracts::ChangedSymbol, r: Seq<DomainSummary>) -> bool {
    exists|j: int|
        0 <= j < r.len() && (#[trigger] r[j]).summary_id@ == interface_summary_id(path, s.symbol_id@)
            && r[j].summary_kind == SummaryKind::InterfaceChange
}

proof fn lemma_keep_all(old_v: Seq<DomainSummary>, new_v: Seq<DomainSummary>, d: DomainSummary, p: spec_fn(DomainSummary) -> bool)
    requires
        forall|j: int| 0 <= j < old_v.len() ==> #[trigger] p(old_v[j]),
        p(d),
        forall|j: int| 0 <= j < new_v.len() ==> #[trigger] new_v[j] == d || old_v.contains(new_v[j]),
    ensures
        forall|j: int| 0 <= j < new_v.len() ==> #[trigger] p(new_v[j]),
{
    assert forall|j: int| 0 <= j < new_v.len() implies #[trigger] p(new_v[j]) by {
        if new_v[j] != d {
            let w = choose|w: int| 0 <= w < old_v.len() && old_v[w] == new_v[j];
            assert(p(old_v[w]));
        }
    }
}

proof fn lemma_keep_interface(path: Seq<char>, s: crate::contracts::ChangedSymbol, old_v: Seq<DomainSummary>, new_v: Seq<DomainSummary>)
    requires
        has_interface_summary(path, s, old_v),
        forall|x: DomainSummary| old_v.contains(x) ==> #[trigger] new_v.contains(x),
    ensures
        has_interface_summary(path, s, new_v),
{
    let j = choose|j: int|
        0 <= j < old_v.len() && (#[trigger] old_v[j]).summary_id@ == interface_summary_id(path, s.symbol_id@)
            && old_v[j].summary_kind == SummaryKind::InterfaceChange;
    assert(old_v.contains(old_v[j]));
    assert(new_v.contains(old_v[j]));
    let k = choose|k: int| 0 <= k < new_v.len() && new_v[k] == old_v[j];
    assert(new_v[k].summary_id@ == interface_summary_id(path, s.symbol_id@));
}

proof fn lemma_keep_rest(unit: NormalizedUnitFacts, old_v: Seq<DomainSummary>, new_v: Seq<DomainSummary>, d: DomainSummary)
    requires
        d.summary_kind != SummaryKind::InterfaceChange,
        forall|k: int| 0 <= k < old_v.len() ==> from_public_symbol(unit, #[trigger] old_v[k]),
        forall|j: int|
            0 <= j < unit.changed_symbols@.len() && is_public_spec((#[trigger] unit.changed_symbols@[j]).visibility) ==> has_interface_summary(
                unit.path@,
                unit.changed_symbols@[j],
                old_v,
            ),
        forall|j: int| 0 <= j < new_v.len() ==> #[trigger] new_v[j] == d || old_v.contains(new_v[j]),
        forall|x: DomainSummary| old_v.contains(x) ==> #[trigger] new_v.contains(x),
    ensures
        forall|k: int| 0 <= k < new_v.len() ==> from_public_symbol(unit, #[trigger] new_v[k]),
        forall|j: int|
            0 <= j < unit.changed_symbols@.len() && is_public_spec((#[trigger] unit.changed_symbols@[j]).visibility) ==> has_interface_summary(
                unit.path@,
                unit.changed_symbols@[j],
                new_v,
            ),
{
    lemma_keep_all(old_v, new_v, d, |x: DomainSummary| from_public_symbol(unit, x));
    assert forall|j: int|
        0 <= j < unit.changed_symbols@.len() && is_public_spec((#[trigger] unit.changed_symbols@[j]).visibility) implies has_interface_summary(
            unit.path@,
            unit.changed_symbols@[j],
            new_v,
        ) by {
        lemma_keep_interface(unit.path@, unit.changed_symbols@[j], old_v, new_v);
    }
}

fn is_public(v: &Option<String>) -> (r: bool)
    ensures
        r == is_public_spec(*v),
{
    match v {
        Some(s) => str_starts_with(s.as_str(), "pub"),
        None => false,
    }
}

fn add_summary(summaries: &mut Vec<DomainSummary>, d: DomainSummary)
    requires
        keyed_sorted(old(summaries)@),
    ensures
        forall|j: int| 0 <= j < final(summaries)@.len() ==> #[trigger] final(summaries)@[j] == d || old(summaries)@.contains(final(summaries)@[j]),
        keyed_sorted(final(summaries)@),
        final(summaries)@.len() <= old(summaries)@.len() + 1,
        crate::keyed::keys_of(final(summaries)@).contains(d.summary_id@),
        forall|k: Seq<char>| #[trigger]
            crate::keyed::keys_of(old(summaries)@).contains(k) ==> crate::keyed::keys_of(final(summaries)@).contains(k),
        forall|x: DomainSummary| old(summaries)@.contains(x) ==> #[trigger] final(summaries)@.contains(x),
        !crate::keyed::keys_of(old(summaries)@).contains(d.summary_id@) ==> final(summaries)@.contains(d),
{
    let ghost before = summaries@;
    let ghost item = d;
    insert_absent(summaries, d);
    proof {
        if crate::keyed::keys_of(before).contains(item.key_of()) {
        } else {
            let p = choose|p: int| 0 <= p <= before.len() && summaries@ == #[trigger] before.insert(p, item);
            assert(summaries@[p] == item);
            assert forall|x: DomainSummary| before.contains(x) implies #[trigger] summaries@.contains(x) by {
                let w = choose|w: int| 0 <= w < before.len() && before[w] == x;
                if w < p {
                    assert(summaries@[w] == x);
                } else {
                    assert(summaries@[w + 1] == x);
                }
            }
            assert(crate::keyed::keys_of(summaries@)[p] == item.summary_id@);
            assert forall|k: Seq<char>| #[trigger]
                crate::keyed::keys_of(before).contains(k) implies crate::keyed::keys_of(summaries@).contains(k) by {
                let w = choose|w: int| 0 <= w < crate::keyed::keys_of(before).len() && crate::keyed::keys_of(before)[w] == k;
                if w < p {
                    assert(crate::keyed::keys_of(summaries@)[w] == k);
                } else {
                    assert(crate::keyed::keys_of(summaries@)[w + 1] == k);
                }
            }
        }
    }
}

/// The domain summaries of one unit, sorted by identifier.
pub fn summarize_unit(unit: &NormalizedUnitFacts, source: Option<&str>) -> (r: Vec<DomainSummary>)
    ensures
        keyed_sorted(r@),
        r@.len() <= unit.changed_symbols@.len() + unit.facts@.len() + 1,
        forall|i: int|
            0 <= i < unit.changed_symbols@.len() && is_public_spec((#[trigger] unit.changed_symbols@[i]).visibility) ==> crate::keyed::keys_of(r@).contains(
                interface_summary_id(unit.path@, unit.changed_symbols@[i].symbol_id@),
            ),
        forall|j: int| 0 <= j < r@.len() ==> summary_shaped(#[trigger] r@[j]),
        !is_test_like_path_spec(unit.path@) ==> r@.len() <= unit.changed_symbols@.len() + unit.facts@.len(),
        forall|i: int|
            0 <= i < unit.changed_symbols@.len() && is_public_spec((#[trigger] unit.changed_symbols@[i]).visibility)
                ==> has_interface_summary(unit.path@, unit.changed_symbols@[i], r@),
        forall|j: int| 0 <= j < r@.len() ==> from_public_symbol(*unit, #[trigger] r@[j]),
{
    let mut summaries: Vec<DomainSummary> = Vec::new();
    let mut i: usize = 0;
    while i < unit.changed_symbols.len()
        invariant
            i <= unit.changed_symbols@.len(),
            keyed_sorted(summaries@),
            summaries@.len() <= i,
            forall|j: int| 0 <= j < summaries@.len() ==> summary_shaped(#[trigger] summaries@[j]),
            forall|j: int|
                0 <= j < i && is_public_spec((#[trigger] unit.changed_symbols@[j]).visibility) ==> crate::keyed::keys_of(summaries@).contains(
                    interface_summary_id(unit.path@, unit.changed_symbols@[j].symbol_id@),
                ),
            forall|k: int| 0 <= k < summaries@.len() ==> (#[trigger] summaries@[k]).summary_kind == SummaryKind::InterfaceChange,
            forall|k: int| 0 <= k < summaries@.len() ==> from_public_symbol(*unit, #[trigger] summaries@[k]),
            forall|j: int|
                0 <= j < i && is_public_spec((#[trigger] unit.changed_symbols@[j]).visibility) ==> has_interface_summary(
                    unit.path@,
                    unit.changed_symbols@[j],
                    summaries@,
                ),
        decreases unit.changed_symbols@.len() - i,
    {
        let symbol = &unit.changed_symbols[i];
        if is_public(&symbol.visibility) {
            let message = String::from_str("Public ").concat(symbol.kind.as_str()).concat(" ").concat(
                symbol.name.as_str(),
            ).concat(" changed.");
            let mut evidence: Vec<String> = Vec::new();
            evidence.push(symbol.symbol_id.clone());
            let ghost ev = evidence@;
            let d = make_summary(
                SummaryKind::InterfaceChange,
                unit.path.as_str(),
                Some(symbol.symbol_id.as_str()),
                symbol.confidence,
                message,
                evidence,
                "public-interface",
            );
            proof {
                single_evidence(d.evidence_fact_ids@, ev, symbol.symbol_id@);
                assert(d.summary_id@ == interface_summary_id(unit.path@, symbol.symbol_id@));
            }
            let ghost before_add = summaries@;
            let ghost added = d;
            add_summary(&mut summaries, d);
            proof {
                lemma_keep_shaped(before_add, summaries@, added);
                let sym = unit.changed_symbols@[i as int];
                assert(interface_summary_for(unit.path@, sym, added));
                lemma_keep_all(before_add, summaries@, added, |x: DomainSummary| x.summary_kind == SummaryKind::InterfaceChange);
                lemma_keep_all(before_add, summaries@, added, |x: DomainSummary| from_public_symbol(*unit, x));
                assert forall|j: int|
                    0 <= j < i && is_public_spec((#[trigger] unit.changed_symbols@[j]).visibility) implies has_interface_summary(
                        unit.path@,
                        unit.changed_symbols@[j],
                        summaries@,
                    ) by {
                    lemma_keep_interface(unit.path@, unit.changed_symbols@[j], before_add, summaries@);
                }
                if crate::keyed::keys_of(before_add).contains(added.summary_id@) {
                    let w = choose|w: int|
                        0 <= w < crate::keyed::keys_of(before_add).len() && crate::keyed::keys_of(before_add)[w] == added.summary_id@;
                    assert(before_add[w].summary_id@ == added.summary_id@);
                    assert(before_add.contains(before_add[w]));
                    assert(summaries@.contains(before_add[w]));
                    let k = choose|k: int| 0 <= k < summaries@.len() && summaries@[k] == before_add[w];
                    assert(summaries@[k].summary_kind == SummaryKind::InterfaceChange);
                    assert(has_interface_summary(unit.path@, sym, summaries@));
                } else {
                    assert(summaries@.contains(added));
                    let k = choose|k: int| 0 <= k < summaries@.len() && summaries@[k] == added;
                    assert(summaries@[k].summary_id@ == interface_summary_id(unit.path@, sym.symbol_id@));
                    assert(has_interface_summary(unit.path@, sym, summaries@));
                }
            }
        }
        i = i + 1;
    }
    let mut i: usize = 0;
    let ghost base = summaries@.len();
    while i < unit.facts.len()
        invariant
            i <= unit.facts@.len(),
            keyed_sorted(summaries@),
            summaries@.len() <= unit.changed_symbols@.len() + i,
            forall|j: int| 0 <= j < summaries@.len() ==> summary_shaped(#[trigger] summaries@[j]),
            forall|j: int|
                0 <= j < unit.changed_symbols@.len() && is_public_spec((#[trigger] unit.changed_symbols@[j]).visibility) ==> crate::keyed::keys_of(summaries@).contains(
                    interface_summary_id(unit.path@, unit.changed_symbols@[j].symbol_id@),
                ),
            forall|k: int| 0 <= k < summaries@.len() ==> from_public_symbol(*unit, #[trigger] summaries@[k]),
            forall|j: int|
                0 <= j < unit.changed_symbols@.len() && is_public_spec((#[trigger] unit.changed_symbols@[j]).visibility) ==> has_interface_summary(
                    unit.path@,
                    unit.changed_symbols@[j],
                    summaries@,
                ),
        decreases unit.facts@.len() - i,
    {
        let fact = &unit.facts[i];
        if str_equal(fact.kind.as_str(), "import") {
            let message = String::from_str("Import changed: ").concat(fact.text.as_str()).concat(".");
            let made = make_fact_summary(SummaryKind::DependencyChange, fact, message);
            let ghost before_add = summaries@;
            let ghost added = made;
            add_summary(&mut summaries, made);
            proof {
                lemma_keep_shaped(before_add, summaries@, added);
                lemma_keep_rest(*unit, before_add, summaries@, added);
            }
        } else {
            match text_summary_kind(fact.kind.as_str()) {
                None => {},
                Some(kind) => {
                    let message = fact_message(kind, fact);
                    let summary = if kind == SummaryKind::TestSelection {
                        let confidence = match detail_value(&fact.details, "confidence") {
                            Some(v) => confidence_from_text(v.as_str()),
                            None => fact.confidence,
                        };
                        let mut evidence: Vec<String> = Vec::new();
                        evidence.push(fact.fact_id.clone());
                        make_summary(
                            kind,
                            fact.path.as_str(),
                            None,
                            confidence,
                            message,
                            evidence,
                            fact.rule_id.as_str(),
                        )
                    } else {
                        make_fact_summary(kind, fact, message)
                    };
                    let ghost before_add = summaries@;
                    let ghost added = summary;
                    add_summary(&mut summaries, summary);
                    proof {
                        lemma_keep_shaped(before_add, summaries@, added);
                        lemma_keep_rest(*unit, before_add, summaries@, added);
                    }
                },
            }
        }
        i = i + 1;
    }
    if is_test_like_path(unit.path.as_str()) {
        if let Some(source) = source {
            let selection = classify_test_hint(unit.path.as_str(), source);
            let mut evidence: Vec<String> = Vec::new();
            let mut k: usize = 0;
            while k < unit.facts.len()
                invariant
                    k <= unit.facts@.len(),
                decreases unit.facts@.len() - k,
            {
                let f = &unit.facts[k];
                if str_equal(f.kind.as_str(), "text:test-marker") || str_equal(
                    f.kind.as_str(),
                    "text:test-hint",
                ) {
                    evidence.push(f.fact_id.clone());
                }
                k = k + 1;
            }
            if evidence.len() == 0 {
                let mut k: usize = 0;
                while k < unit.changed_symbols.len()
                    invariant
                        k <= unit.changed_symbols@.len(),
                    decreases unit.changed_symbols@.len() - k,
                {
                    evidence.push(unit.changed_symbols[k].symbol_id.clone());
                    k = k + 1;
                }
            }
            let message = String::from_str("Test selection ").concat(selection.rule_id).concat(
                " indicates ",
            ).concat(selection.test_kind).concat(" with environment ").concat(
                selection.environment_dependency,
            ).concat(".");
            let d = make_summary(
                SummaryKind::TestSelection,
                unit.path.as_str(),
                None,
                confidence_from_text(selection.confidence),
                message,
                evidence,
                selection.rule_id,
            );
            let ghost before_add = summaries@;
            let ghost added = d;
            add_summary(&mut summaries, d);
            proof {
                lemma_keep_shaped(before_add, summaries@, added);
                lemma_keep_rest(*unit, before_add, summaries@, added);
            }
        }
    }
    summaries
}

} // verus!
