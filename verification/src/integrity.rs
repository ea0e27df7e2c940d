//! Integrity of stored file facts: their canonical order, the checks a
//! stored payload must pass, and the digests that name and seal it.
use vstd::prelude::*;
use vstd::utf8::encode_utf8;
use crate::contracts::SourceRange;
use crate::digest::{hex_seq, sha256_hex_of_bytes, sha256_of};
use crate::model::{be_bytes, component, file_fact_key_valid, push_be, push_component, FileFactKey};
use crate::ordering::{
    lemma_ord_opt_text_antisymmetric, lemma_ord_text_antisymmetric,
    lemma_ord_texts_antisymmetric, ord_bool, ord_opt_text, ord_range, ord_text, ord_texts,
    order_bool, order_opt_text, order_range, order_text, order_texts, then, CanonicalOrder,
};
use crate::strings::{char_is_control, decimal, is_control_char, push_decimal, str_equal};
use crate::ordering::{
    is_sorted_by_order, is_strictly_sorted_by_order, sorted_by_order, stable_sort,
    strictly_sorted_by_order,
};
use crate::rust_syntax::{RustFileFacts, 
    RustAttributeFact, RustCallSiteFact, RustImportFact, RustLocalSymbolFact,
    RustModuleDeclarationFact, RustReferenceFact,
};

verus! {

/// The texts of a list of strings.
pub open spec fn views(v: Seq<String>) -> Seq<Seq<char>> {
    Seq::new(v.len(), |i: int| v[i]@)
}

/// The text of an optional string.
pub open spec fn opt_view(o: Option<String>) -> Option<Seq<char>> {
    match o {
        Some(s) => Some(s@),
        None => None,
    }
}

impl CanonicalOrder for RustLocalSymbolFact {
    open spec fn order_of(&self, other: &Self) -> int {
        then(ord_range(self.range, other.range), then(ord_text(self.kind@, other.kind@), then(ord_text(self.name@, other.name@), ord_text(self.local_id@, other.local_id@))))
    }

    proof fn lemma_antisymmetric(a: &Self, b: &Self) {
        lemma_ord_text_antisymmetric(a.kind@, b.kind@);
        lemma_ord_text_antisymmetric(a.name@, b.name@);
        lemma_ord_text_antisymmetric(a.local_id@, b.local_id@);
    }

    fn order(&self, other: &Self) -> (r: i8) {
        let o = order_range(&self.range, &other.range);
        if o != 0 {
            return o;
        }
        let o = order_text(self.kind.as_str(), other.kind.as_str());
        if o != 0 {
            return o;
        }
        let o = order_text(self.name.as_str(), other.name.as_str());
        if o != 0 {
            return o;
        }
        order_text(self.local_id.as_str(), other.local_id.as_str())
    }
}

impl CanonicalOrder for RustImportFact {
    open spec fn order_of(&self, other: &Self) -> int {
        then(ord_range(self.range, other.range), then(ord_texts(views(self.segments@), views(other.segments@)), then(ord_opt_text(opt_view(self.alias), opt_view(other.alias)), then(ord_bool(self.glob, other.glob), ord_bool(self.public, other.public)))))
    }

    proof fn lemma_antisymmetric(a: &Self, b: &Self) {
        lemma_ord_texts_antisymmetric(views(a.segments@), views(b.segments@));
        lemma_ord_opt_text_antisymmetric(opt_view(a.alias), opt_view(b.alias));
    }

    fn order(&self, other: &Self) -> (r: i8) {
        let o = order_range(&self.range, &other.range);
        if o != 0 {
            return o;
        }
        let o = order_texts(&self.segments, &other.segments);
        if o != 0 {
            return o;
        }
        let o = order_opt_text(&self.alias, &other.alias);
        if o != 0 {
            return o;
        }
        let o = order_bool(self.glob, other.glob);
        if o != 0 {
            return o;
        }
        order_bool(self.public, other.public)
    }
}

impl CanonicalOrder for RustReferenceFact {
    open spec fn order_of(&self, other: &Self) -> int {
        then(ord_range(self.range, other.range), then(ord_text(self.role@, other.role@), then(ord_texts(views(self.qualifier@), views(other.qualifier@)), ord_text(self.name@, other.name@))))
    }

    proof fn lemma_antisymmetric(a: &Self, b: &Self) {
        lemma_ord_text_antisymmetric(a.role@, b.role@);
        lemma_ord_texts_antisymmetric(views(a.qualifier@), views(b.qualifier@));
        lemma_ord_text_antisymmetric(a.name@, b.name@);
    }

    fn order(&self, other: &Self) -> (r: i8) {
        let o = order_range(&self.range, &other.range);
        if o != 0 {
            return o;
        }
        let o = order_text(self.role.as_str(), other.role.as_str());
        if o != 0 {
            return o;
        }
        let o = order_texts(&self.qualifier, &other.qualifier);
        if o != 0 {
            return o;
        }
        order_text(self.name.as_str(), other.name.as_str())
    }
}

impl CanonicalOrder for RustCallSiteFact {
    open spec fn order_of(&self, other: &Self) -> int {
        then(ord_range(self.range, other.range), then(ord_text(self.call_kind@, other.call_kind@), then(ord_texts(views(self.qualifier@), views(other.qualifier@)), ord_text(self.callee@, other.callee@))))
    }

    proof fn lemma_antisymmetric(a: &Self, b: &Self) {
        lemma_ord_text_antisymmetric(a.call_kind@, b.call_kind@);
        lemma_ord_texts_antisymmetric(views(a.qualifier@), views(b.qualifier@));
        lemma_ord_text_antisymmetric(a.callee@, b.callee@);
    }

    fn order(&self, other: &Self) -> (r: i8) {
        let o = order_range(&self.range, &other.range);
        if o != 0 {
            return o;
        }
        let o = order_text(self.call_kind.as_str(), other.call_kind.as_str());
        if o != 0 {
            return o;
        }
        let o = order_texts(&self.qualifier, &other.qualifier);
        if o != 0 {
            return o;
        }
        order_text(self.callee.as_str(), other.callee.as_str())
    }
}

impl CanonicalOrder for RustModuleDeclarationFact {
    open spec fn order_of(&self, other: &Self) -> int {
        then(ord_range(self.range, other.range), ord_text(self.name@, other.name@))
    }

    proof fn lemma_antisymmetric(a: &Self, b: &Self) {
        lemma_ord_text_antisymmetric(a.name@, b.name@);
    }

    fn order(&self, other: &Self) -> (r: i8) {
        let o = order_range(&self.range, &other.range);
        if o != 0 {
            return o;
        }
        order_text(self.name.as_str(), other.name.as_str())
    }
}

impl CanonicalOrder for RustAttributeFact {
    open spec fn order_of(&self, other: &Self) -> int {
        then(ord_range(self.range, other.range), then(ord_text(self.name@, other.name@), ord_texts(views(self.arguments@), views(other.arguments@))))
    }

    proof fn lemma_antisymmetric(a: &Self, b: &Self) {
        lemma_ord_text_antisymmetric(a.name@, b.name@);
        lemma_ord_texts_antisymmetric(views(a.arguments@), views(b.arguments@));
    }

    fn order(&self, other: &Self) -> (r: i8) {
        let o = order_range(&self.range, &other.range);
        if o != 0 {
            return o;
        }
        let o = order_text(self.name.as_str(), other.name.as_str());
        if o != 0 {
            return o;
        }
        order_texts(&self.arguments, &other.arguments)
    }
}

/// A stored text: present, at most `maximum` characters, and free of
/// control characters.
pub open spec fn stored_text_valid(s: Seq<char>, maximum: nat) -> bool {
    &&& 0 < s.len() <= maximum
    &&& forall|i: int| 0 <= i < s.len() ==> !is_control_char(#[trigger] s[i])
}

/// A one-based range that lies in a source of `source_bytes` bytes and does
/// not run backwards.
pub open spec fn range_within(r: SourceRange, source_bytes: nat) -> bool {
    &&& r.start_line != 0
    &&& r.start_column != 0
    &&& r.end_line != 0
    &&& r.end_column != 0
    &&& r.start_byte <= r.end_byte
    &&& r.end_byte <= source_bytes
    &&& r.start_line <= r.end_line
    &&& (r.start_line == r.end_line ==> r.start_column <= r.end_column)
}

/// At most 256 path segments, each a stored text of at most 1000
/// characters.
pub open spec fn segments_valid(s: Seq<String>) -> bool {
    &&& s.len() <= 256
    &&& forall|i: int| 0 <= i < s.len() ==> stored_text_valid(#[trigger] s[i]@, 1000)
}

/// Whether `s` holds a control character.
fn has_control_char(s: &str) -> (r: bool)
    ensures
        r == exists|i: int| 0 <= i < s@.len() && is_control_char(#[trigger] s@[i]),
{
    let n = s.unicode_len();
    let mut i: usize = 0;
    while i < n
        invariant
            n == s@.len(),
            i <= n,
            forall|j: int| 0 <= j < i ==> !is_control_char(#[trigger] s@[j]),
        decreases n - i,
    {
        if char_is_control(s.get_char(i)) {
            assert(is_control_char(s@[i as int]));
            return true;
        }
        i = i + 1;
    }
    false
}

/// The message of a text that is empty or too long.
pub open spec fn text_length_message(context: Seq<char>, maximum: nat) -> Seq<char> {
    context + " is empty or exceeds "@ + decimal(maximum) + " characters"@
}

/// The message of a text with a control character.
pub open spec fn text_control_message(context: Seq<char>) -> Seq<char> {
    context + " contains control characters"@
}

/// Checks a stored text; the error names `context`.
pub fn validate_text(value: &str, maximum_chars: usize, context: &str) -> (r: Result<(), String>)
    ensures
        r is Ok <==> stored_text_valid(value@, maximum_chars as nat),
        r matches Err(m) ==> m@ == (if 0 < value@.len() <= maximum_chars {
            text_control_message(context@)
        } else {
            text_length_message(context@, maximum_chars as nat)
        }),
{
    let length = value.unicode_len();
    if length == 0 || length > maximum_chars {
        let mut message = String::from_str(context);
        message.append(" is empty or exceeds ");
        push_decimal(&mut message, maximum_chars as u64);
        message.append(" characters");
        return Err(message);
    }
    if has_control_char(value) {
        let mut message = String::from_str(context);
        message.append(" contains control characters");
        return Err(message);
    }
    Ok(())
}

/// Checks that a range lies within the source and does not run backwards.
pub fn validate_range(range: &SourceRange, source_bytes: usize) -> (r: Result<(), String>)
    ensures
        r is Ok <==> range_within(*range, source_bytes as nat),
        r matches Err(m) ==> m@ == "file facts contain an invalid source range"@,
{
    if range.start_line == 0 || range.start_column == 0 || range.end_line == 0
        || range.end_column == 0 || range.start_byte > range.end_byte
        || range.end_byte > source_bytes || range.start_line > range.end_line || (
    range.start_line == range.end_line && range.start_column > range.end_column) {
        return Err(String::from_str("file facts contain an invalid source range"));
    }
    Ok(())
}

/// Checks a list of path segments; the errors name `context`.
pub fn validate_segments(segments: &Vec<String>, context: &str) -> (r: Result<(), String>)
    ensures
        r is Ok <==> segments_valid(segments@),
{
    if segments.len() > 256 {
        let mut message = String::from_str(context);
        message.append(" segment count exceeds 256");
        return Err(message);
    }
    let mut i: usize = 0;
    while i < segments.len()
        invariant
            i <= segments@.len(),
            segments@.len() <= 256,
            forall|k: int| 0 <= k < i ==> stored_text_valid(#[trigger] segments@[k]@, 1000),
        decreases segments@.len() - i,
    {
        match validate_text(segments[i].as_str(), 1000, context) {
            Err(e) => return Err(e),
            Ok(()) => {},
        }
        i = i + 1;
    }
    Ok(())
}

fn validate_optional_text(value: &Option<String>, maximum_chars: usize, context: &str) -> (r: Result<(), String>)
    ensures
        r is Ok <==> (value matches Some(v) ==> stored_text_valid(v@, maximum_chars as nat)),
{
    match value {
        Some(v) => validate_text(v.as_str(), maximum_chars, context),
        None => Ok(()),
    }
}

pub open spec fn symbol_entry_valid(s: RustLocalSymbolFact, source_bytes: nat) -> bool {
    &&& range_within(s.range, source_bytes)
    &&& stored_text_valid(s.local_id@, 128)
    &&& stored_text_valid(s.kind@, 128)
    &&& stored_text_valid(s.name@, 1000)
    &&& stored_text_valid(s.signature@, 1000)
}

pub open spec fn import_entry_valid(i: RustImportFact, source_bytes: nat) -> bool {
    &&& range_within(i.range, source_bytes)
    &&& segments_valid(i.segments@)
    &&& (i.alias matches Some(a) ==> stored_text_valid(a@, 1000))
}

pub open spec fn reference_entry_valid(r: RustReferenceFact, source_bytes: nat) -> bool {
    &&& range_within(r.range, source_bytes)
    &&& stored_text_valid(r.name@, 1000)
    &&& stored_text_valid(r.role@, 128)
    &&& segments_valid(r.qualifier@)
}

pub open spec fn call_entry_valid(c: RustCallSiteFact, source_bytes: nat) -> bool {
    &&& range_within(c.range, source_bytes)
    &&& stored_text_valid(c.callee@, 1000)
    &&& stored_text_valid(c.call_kind@, 128)
    &&& segments_valid(c.qualifier@)
}

pub open spec fn module_entry_valid(m: RustModuleDeclarationFact, source_bytes: nat) -> bool {
    &&& range_within(m.range, source_bytes)
    &&& stored_text_valid(m.name@, 1000)
    &&& (m.path_override matches Some(p) ==> stored_text_valid(p@, 1000))
}

pub open spec fn attribute_entry_valid(a: RustAttributeFact, source_bytes: nat) -> bool {
    &&& range_within(a.range, source_bytes)
    &&& stored_text_valid(a.name@, 1000)
    &&& a.arguments@.len() <= 64
    &&& forall|k: int| 0 <= k < a.arguments@.len() ==> stored_text_valid(#[trigger] a.arguments@[k]@, 1000)
}

/// Each list is in canonical order; recovery ranges and limitations hold
/// no repeats.
pub open spec fn in_canonical_order(f: RustFileFacts) -> bool {
    &&& sorted_by_order(f.symbols@)
    &&& sorted_by_order(f.imports@)
    &&& sorted_by_order(f.references@)
    &&& sorted_by_order(f.calls@)
    &&& sorted_by_order(f.module_declarations@)
    &&& sorted_by_order(f.attributes@)
    &&& strictly_sorted_by_order(f.recovery_ranges@)
    &&& strictly_sorted_by_order(f.limitations@)
}

/// The number of facts, saturated at the largest `usize`.
pub open spec fn fact_count(f: RustFileFacts) -> int {
    let total = f.symbols@.len() + f.imports@.len() + f.references@.len() + f.calls@.len()
        + f.module_declarations@.len() + f.attributes@.len();
    if total > usize::MAX {
        usize::MAX as int
    } else {
        total as int
    }
}

/// No two symbols share a local id.
pub open spec fn local_ids_distinct(s: Seq<RustLocalSymbolFact>) -> bool {
    forall|i: int, j: int| 0 <= i < j < s.len() ==> (#[trigger] s[i]).local_id@ != (#[trigger] s[j]).local_id@
}

/// Some symbol has the local id `id`.
pub open spec fn has_symbol_id(s: Seq<RustLocalSymbolFact>, id: Seq<char>) -> bool {
    exists|j: int| 0 <= j < s.len() && (#[trigger] s[j]).local_id@ == id
}

/// Every owner named by a symbol is a symbol of the file.
pub open spec fn owners_exist(s: Seq<RustLocalSymbolFact>) -> bool {
    forall|i: int| 0 <= i < s.len() ==> ((#[trigger] s[i]).owner_local_id matches Some(o) ==> has_symbol_id(s, o@))
}

/// A stored file-facts payload that may be trusted.
pub open spec fn file_facts_valid(f: RustFileFacts) -> bool {
    let sb = f.metrics.source_bytes as nat;
    &&& in_canonical_order(f)
    &&& f.metrics.facts_emitted == fact_count(f)
    &&& forall|i: int| 0 <= i < f.symbols@.len() ==> symbol_entry_valid(#[trigger] f.symbols@[i], sb)
    &&& local_ids_distinct(f.symbols@)
    &&& owners_exist(f.symbols@)
    &&& forall|i: int| 0 <= i < f.imports@.len() ==> import_entry_valid(#[trigger] f.imports@[i], sb)
    &&& forall|i: int| 0 <= i < f.references@.len() ==> reference_entry_valid(#[trigger] f.references@[i], sb)
    &&& forall|i: int| 0 <= i < f.calls@.len() ==> call_entry_valid(#[trigger] f.calls@[i], sb)
    &&& forall|i: int| 0 <= i < f.module_declarations@.len() ==> module_entry_valid(#[trigger] f.module_declarations@[i], sb)
    &&& forall|i: int| 0 <= i < f.attributes@.len() ==> attribute_entry_valid(#[trigger] f.attributes@[i], sb)
    &&& forall|i: int| 0 <= i < f.recovery_ranges@.len() ==> range_within(#[trigger] f.recovery_ranges@[i], sb)
    &&& f.limitations@.len() <= 1000
    &&& forall|i: int| 0 <= i < f.limitations@.len() ==> stored_text_valid(#[trigger] f.limitations@[i]@, 200)
}

fn check_symbol(s: &RustLocalSymbolFact, source_bytes: usize) -> (r: Result<(), String>)
    ensures
        r is Ok <==> symbol_entry_valid(*s, source_bytes as nat),
{
    if let Err(e) = validate_range(&s.range, source_bytes) {
        return Err(e);
    }
    if let Err(e) = validate_text(s.local_id.as_str(), 128, "local symbol id") {
        return Err(e);
    }
    if let Err(e) = validate_text(s.kind.as_str(), 128, "symbol kind") {
        return Err(e);
    }
    if let Err(e) = validate_text(s.name.as_str(), 1000, "symbol name") {
        return Err(e);
    }
    validate_text(s.signature.as_str(), 1000, "symbol signature")
}

/// Whether some symbol has the local id `id`.
fn find_symbol_id(symbols: &Vec<RustLocalSymbolFact>, id: &str) -> (r: bool)
    ensures
        r == has_symbol_id(symbols@, id@),
{
    let mut j: usize = 0;
    while j < symbols.len()
        invariant
            j <= symbols@.len(),
            forall|k: int| 0 <= k < j ==> (#[trigger] symbols@[k]).local_id@ != id@,
        decreases symbols@.len() - j,
    {
        if str_equal(symbols[j].local_id.as_str(), id) {
            assert(symbols@[j as int].local_id@ == id@);
            return true;
        }
        j = j + 1;
    }
    false
}

fn check_symbols(symbols: &Vec<RustLocalSymbolFact>, source_bytes: usize) -> (r: Result<(), String>)
    ensures
        r is Ok <==> {
            &&& forall|i: int| 0 <= i < symbols@.len() ==> symbol_entry_valid(#[trigger] symbols@[i], source_bytes as nat)
            &&& local_ids_distinct(symbols@)
            &&& owners_exist(symbols@)
        },
{
    let mut i: usize = 0;
    while i < symbols.len()
        invariant
            i <= symbols@.len(),
            forall|k: int| 0 <= k < i ==> symbol_entry_valid(#[trigger] symbols@[k], source_bytes as nat),
            local_ids_distinct(symbols@.take(i as int)),
        decreases symbols@.len() - i,
    {
        if let Err(e) = check_symbol(&symbols[i], source_bytes) {
            return Err(e);
        }
        let mut j: usize = 0;
        while j < i
            invariant
                j <= i < symbols@.len(),
                forall|k: int| 0 <= k < j ==> (#[trigger] symbols@[k]).local_id@ != symbols@[i as int].local_id@,
            decreases i - j,
        {
            if str_equal(symbols[j].local_id.as_str(), symbols[i].local_id.as_str()) {
                return Err(String::from_str("file facts contain duplicate local symbol ids"));
            }
            j = j + 1;
        }
        proof {
            let t = symbols@.take(i + 1);
            assert forall|a: int, b: int| 0 <= a < b < t.len() implies (#[trigger] t[a]).local_id@ != (#[trigger] t[b]).local_id@ by {
                if b < i {
                    assert(t[a] == symbols@.take(i as int)[a] && t[b] == symbols@.take(i as int)[b]);
                }
            }
        }
        i = i + 1;
    }
    assert(symbols@.take(symbols@.len() as int) =~= symbols@);
    let mut i: usize = 0;
    while i < symbols.len()
        invariant
            i <= symbols@.len(),
            forall|k: int| 0 <= k < i ==> ((#[trigger] symbols@[k]).owner_local_id matches Some(o) ==> has_symbol_id(symbols@, o@)),
        decreases symbols@.len() - i,
    {
        match &symbols[i].owner_local_id {
            Some(owner) => {
                if !find_symbol_id(symbols, owner.as_str()) {
                    return Err(String::from_str("local symbol owner does not exist"));
                }
            },
            None => {},
        }
        i = i + 1;
    }
    Ok(())
}

fn check_imports(imports: &Vec<RustImportFact>, source_bytes: usize) -> (r: Result<(), String>)
    ensures
        r is Ok <==> forall|i: int| 0 <= i < imports@.len() ==> import_entry_valid(#[trigger] imports@[i], source_bytes as nat),
{
    let mut i: usize = 0;
    while i < imports.len()
        invariant
            i <= imports@.len(),
            forall|k: int| 0 <= k < i ==> import_entry_valid(#[trigger] imports@[k], source_bytes as nat),
        decreases imports@.len() - i,
    {
        let item = &imports[i];
        if let Err(e) = validate_range(&item.range, source_bytes) {
            return Err(e);
        }
        if let Err(e) = validate_segments(&item.segments, "import") {
            return Err(e);
        }
        if let Err(e) = validate_optional_text(&item.alias, 1000, "import alias") {
            return Err(e);
        }
        i = i + 1;
    }
    Ok(())
}

fn check_references(references: &Vec<RustReferenceFact>, source_bytes: usize) -> (r: Result<(), String>)
    ensures
        r is Ok <==> forall|i: int| 0 <= i < references@.len() ==> reference_entry_valid(#[trigger] references@[i], source_bytes as nat),
{
    let mut i: usize = 0;
    while i < references.len()
        invariant
            i <= references@.len(),
            forall|k: int| 0 <= k < i ==> reference_entry_valid(#[trigger] references@[k], source_bytes as nat),
        decreases references@.len() - i,
    {
        let item = &references[i];
        if let Err(e) = validate_range(&item.range, source_bytes) {
            return Err(e);
        }
        if let Err(e) = validate_text(item.name.as_str(), 1000, "reference name") {
            return Err(e);
        }
        if let Err(e) = validate_text(item.role.as_str(), 128, "reference role") {
            return Err(e);
        }
        if let Err(e) = validate_segments(&item.qualifier, "reference qualifier") {
            return Err(e);
        }
        i = i + 1;
    }
    Ok(())
}

fn check_calls(calls: &Vec<RustCallSiteFact>, source_bytes: usize) -> (r: Result<(), String>)
    ensures
        r is Ok <==> forall|i: int| 0 <= i < calls@.len() ==> call_entry_valid(#[trigger] calls@[i], source_bytes as nat),
{
    let mut i: usize = 0;
    while i < calls.len()
        invariant
            i <= calls@.len(),
            forall|k: int| 0 <= k < i ==> call_entry_valid(#[trigger] calls@[k], source_bytes as nat),
        decreases calls@.len() - i,
    {
        let item = &calls[i];
        if let Err(e) = validate_range(&item.range, source_bytes) {
            return Err(e);
        }
        if let Err(e) = validate_text(item.callee.as_str(), 1000, "call callee") {
            return Err(e);
        }
        if let Err(e) = validate_text(item.call_kind.as_str(), 128, "call kind") {
            return Err(e);
        }
        if let Err(e) = validate_segments(&item.qualifier, "call qualifier") {
            return Err(e);
        }
        i = i + 1;
    }
    Ok(())
}

fn check_modules(modules: &Vec<RustModuleDeclarationFact>, source_bytes: usize) -> (r: Result<(), String>)
    ensures
        r is Ok <==> forall|i: int| 0 <= i < modules@.len() ==> module_entry_valid(#[trigger] modules@[i], source_bytes as nat),
{
    let mut i: usize = 0;
    while i < modules.len()
        invariant
            i <= modules@.len(),
            forall|k: int| 0 <= k < i ==> module_entry_valid(#[trigger] modules@[k], source_bytes as nat),
        decreases modules@.len() - i,
    {
        let item = &modules[i];
        if let Err(e) = validate_range(&item.range, source_bytes) {
            return Err(e);
        }
        if let Err(e) = validate_text(item.name.as_str(), 1000, "module name") {
            return Err(e);
        }
        if let Err(e) = validate_optional_text(&item.path_override, 1000, "module path override") {
            return Err(e);
        }
        i = i + 1;
    }
    Ok(())
}

fn check_attribute(item: &RustAttributeFact, source_bytes: usize) -> (r: Result<(), String>)
    ensures
        r is Ok <==> attribute_entry_valid(*item, source_bytes as nat),
{
    if let Err(e) = validate_range(&item.range, source_bytes) {
        return Err(e);
    }
    if let Err(e) = validate_text(item.name.as_str(), 1000, "attribute name") {
        return Err(e);
    }
    if item.arguments.len() > 64 {
        return Err(String::from_str("attribute argument count exceeds 64"));
    }
    let mut k: usize = 0;
    while k < item.arguments.len()
        invariant
            k <= item.arguments@.len(),
            forall|j: int| 0 <= j < k ==> stored_text_valid(#[trigger] item.arguments@[j]@, 1000),
        decreases item.arguments@.len() - k,
    {
        if let Err(e) = validate_text(item.arguments[k].as_str(), 1000, "attribute argument") {
            return Err(e);
        }
        k = k + 1;
    }
    Ok(())
}

fn check_attributes(attributes: &Vec<RustAttributeFact>, source_bytes: usize) -> (r: Result<(), String>)
    ensures
        r is Ok <==> forall|i: int| 0 <= i < attributes@.len() ==> attribute_entry_valid(#[trigger] attributes@[i], source_bytes as nat),
{
    let mut i: usize = 0;
    while i < attributes.len()
        invariant
            i <= attributes@.len(),
            forall|k: int| 0 <= k < i ==> attribute_entry_valid(#[trigger] attributes@[k], source_bytes as nat),
        decreases attributes@.len() - i,
    {
        if let Err(e) = check_attribute(&attributes[i], source_bytes) {
            return Err(e);
        }
        i = i + 1;
    }
    Ok(())
}

fn check_recovery_ranges(ranges: &Vec<SourceRange>, source_bytes: usize) -> (r: Result<(), String>)
    ensures
        r is Ok <==> forall|i: int| 0 <= i < ranges@.len() ==> range_within(#[trigger] ranges@[i], source_bytes as nat),
{
    let mut i: usize = 0;
    while i < ranges.len()
        invariant
            i <= ranges@.len(),
            forall|k: int| 0 <= k < i ==> range_within(#[trigger] ranges@[k], source_bytes as nat),
        decreases ranges@.len() - i,
    {
        if let Err(e) = validate_range(&ranges[i], source_bytes) {
            return Err(e);
        }
        i = i + 1;
    }
    Ok(())
}

fn check_limitations(limitations: &Vec<String>) -> (r: Result<(), String>)
    ensures
        r is Ok <==> {
            &&& limitations@.len() <= 1000
            &&& forall|i: int| 0 <= i < limitations@.len() ==> stored_text_valid(#[trigger] limitations@[i]@, 200)
        },
{
    if limitations.len() > 1000 {
        return Err(String::from_str("file facts limitation count exceeds 1000"));
    }
    let mut i: usize = 0;
    while i < limitations.len()
        invariant
            i <= limitations@.len(),
            forall|k: int| 0 <= k < i ==> stored_text_valid(#[trigger] limitations@[k]@, 200),
        decreases limitations@.len() - i,
    {
        if let Err(e) = validate_text(limitations[i].as_str(), 200, "file facts limitation") {
            return Err(e);
        }
        i = i + 1;
    }
    Ok(())
}

/// Whether each list of the payload is in canonical order.
pub fn is_in_canonical_order(f: &RustFileFacts) -> (r: bool)
    ensures
        r == in_canonical_order(*f),
{
    is_sorted_by_order(&f.symbols) && is_sorted_by_order(&f.imports) && is_sorted_by_order(
        &f.references,
    ) && is_sorted_by_order(&f.calls) && is_sorted_by_order(&f.module_declarations)
        && is_sorted_by_order(&f.attributes) && is_strictly_sorted_by_order(&f.recovery_ranges)
        && is_strictly_sorted_by_order(&f.limitations)
}

/// The number of facts of the payload, saturated at the largest `usize`.
pub fn count_facts(f: &RustFileFacts) -> (n: usize)
    ensures
        n as int == fact_count(*f),
{
    f.symbols.len().saturating_add(f.imports.len()).saturating_add(f.references.len()).saturating_add(
        f.calls.len(),
    ).saturating_add(f.module_declarations.len()).saturating_add(f.attributes.len())
}

/// Checks a file-facts payload before it is stored or after it is read:
/// canonical order, the fact count, every range and text, distinct local
/// ids and existing owners.
pub fn validate_file_facts(facts: &RustFileFacts) -> (r: Result<(), String>)
    ensures
        r is Ok <==> file_facts_valid(*facts),
{
    if !is_in_canonical_order(facts) {
        return Err(String::from_str("file facts vectors must be deterministically sorted"));
    }
    if facts.metrics.facts_emitted != count_facts(facts) {
        return Err(String::from_str("file facts metric count does not match payload"));
    }
    let source_bytes = facts.metrics.source_bytes;
    if let Err(e) = check_symbols(&facts.symbols, source_bytes) {
        return Err(e);
    }
    if let Err(e) = check_imports(&facts.imports, source_bytes) {
        return Err(e);
    }
    if let Err(e) = check_references(&facts.references, source_bytes) {
        return Err(e);
    }
    if let Err(e) = check_calls(&facts.calls, source_bytes) {
        return Err(e);
    }
    if let Err(e) = check_modules(&facts.module_declarations, source_bytes) {
        return Err(e);
    }
    if let Err(e) = check_attributes(&facts.attributes, source_bytes) {
        return Err(e);
    }
    if let Err(e) = check_recovery_ranges(&facts.recovery_ranges, source_bytes) {
        return Err(e);
    }
    check_limitations(&facts.limitations)
}

/// Drops repeated ranges from a sorted list.
pub fn dedup_ranges(v: Vec<SourceRange>) -> (r: Vec<SourceRange>)
    requires
        sorted_by_order(v@),
    ensures
        strictly_sorted_by_order(r@),
        r@.to_set() == v@.to_set(),
        strictly_sorted_by_order(v@) ==> r@ == v@,
{
    if is_strictly_sorted_by_order(&v) {
        return v;
    }
    let mut out: Vec<SourceRange> = Vec::new();
    let mut i: usize = 0;
    assert(v@.take(0).to_set() =~= out@.to_set());
    while i < v.len()
        invariant
            i <= v@.len(),
            sorted_by_order(v@),
            strictly_sorted_by_order(out@),
            i > 0 ==> out@.len() > 0 && out@.last() == v@[i - 1],
            i == 0 ==> out@.len() == 0,
            out@.to_set() == v@.take(i as int).to_set(),
        decreases v@.len() - i,
    {
        let x = v[i];
        let ghost before = out@;
        proof {
            assert(v@.take(i + 1) =~= v@.take(i as int).push(x));
            v@.take(i as int).lemma_push_to_set_commute(x);
        }
        if out.len() > 0 && order_range(&out[out.len() - 1], &x) == 0 {
            proof {
                assert(out@[out@.len() - 1] == x);
                assert(out@.to_set().contains(x));
                assert(out@.to_set().insert(x) =~= out@.to_set());
            }
        } else {
            proof {
                if i > 0 {
                    assert(v@[i - 1].order_of(&v@[(i - 1) + 1]) <= 0);
                }
                before.lemma_push_to_set_commute(x);
            }
            out.push(x);
            assert forall|j: int| 0 <= j < out@.len() - 1 implies (#[trigger] out@[j]).order_of(&out@[j + 1]) < 0 by {
                if j < before.len() - 1 {
                    assert(out@[j] == before[j] && out@[j + 1] == before[j + 1]);
                }
            }
        }
        i = i + 1;
    }
    assert(v@.take(v@.len() as int) =~= v@);
    out
}

/// Drops repeated texts from a sorted list.
pub fn dedup_texts(v: Vec<String>) -> (r: Vec<String>)
    requires
        sorted_by_order(v@),
    ensures
        strictly_sorted_by_order(r@),
        views(r@).to_set() == views(v@).to_set(),
        strictly_sorted_by_order(v@) ==> r@ == v@,
{
    if is_strictly_sorted_by_order(&v) {
        return v;
    }
    let mut out: Vec<String> = Vec::new();
    let mut i: usize = 0;
    assert(views(v@.take(0)).to_set() =~= views(out@).to_set());
    while i < v.len()
        invariant
            i <= v@.len(),
            sorted_by_order(v@),
            strictly_sorted_by_order(out@),
            i > 0 ==> out@.len() > 0 && out@.last()@ == v@[i - 1]@,
            i == 0 ==> out@.len() == 0,
            views(out@).to_set() == views(v@.take(i as int)).to_set(),
        decreases v@.len() - i,
    {
        let x = v[i].clone();
        let ghost before = out@;
        proof {
            assert(views(v@.take(i + 1)) =~= views(v@.take(i as int)).push(x@));
            views(v@.take(i as int)).lemma_push_to_set_commute(x@);
        }
        if out.len() > 0 && order_text(out[out.len() - 1].as_str(), x.as_str()) == 0 {
            proof {
                lemma_ord_text_antisymmetric(out@.last()@, x@);
                assert(views(out@)[out@.len() - 1] == x@);
                assert(views(out@).to_set().contains(x@));
                assert(views(out@).to_set().insert(x@) =~= views(out@).to_set());
            }
        } else {
            proof {
                if i > 0 {
                    assert(v@[i - 1].order_of(&v@[(i - 1) + 1]) <= 0);
                    lemma_ord_text_antisymmetric(v@[i - 1]@, x@);
                }
                views(before).lemma_push_to_set_commute(x@);
            }
            out.push(x);
            proof {
                assert(views(out@) =~= views(before).push(x@));
            }
            assert forall|j: int| 0 <= j < out@.len() - 1 implies (#[trigger] out@[j]).order_of(&out@[j + 1]) < 0 by {
                if j < before.len() - 1 {
                    assert(out@[j] == before[j] && out@[j + 1] == before[j + 1]);
                }
            }
        }
        i = i + 1;
    }
    assert(v@.take(v@.len() as int) =~= v@);
    out
}

/// The ranges sorted, each once.
pub fn sorted_unique_ranges(v: Vec<SourceRange>) -> (r: Vec<SourceRange>)
    ensures
        strictly_sorted_by_order(r@),
        r@.to_set() == v@.to_set(),
        strictly_sorted_by_order(v@) ==> r@ == v@,
{
    let ghost before_sort = v@;
    let sorted = stable_sort(v);
    proof {
        lemma_same_multiset_same_set(sorted@, before_sort);
        if strictly_sorted_by_order(before_sort) {
            lemma_strict_is_sorted(before_sort);
        }
    }
    dedup_ranges(sorted)
}

/// The texts sorted, each once.
pub fn sorted_unique_texts(v: Vec<String>) -> (r: Vec<String>)
    ensures
        strictly_sorted_by_order(r@),
        views(r@).to_set() == views(v@).to_set(),
        strictly_sorted_by_order(v@) ==> r@ == v@,
{
    let ghost before_sort = v@;
    let sorted = stable_sort(v);
    proof {
        lemma_same_multiset_same_views(sorted@, before_sort);
        if strictly_sorted_by_order(before_sort) {
            lemma_strict_is_sorted(before_sort);
        }
    }
    dedup_texts(sorted)
}

/// Two payloads with the same lists, quality and metrics.
pub open spec fn same_payload(a: RustFileFacts, b: RustFileFacts) -> bool {
    &&& a.parse_quality == b.parse_quality
    &&& a.metrics == b.metrics
    &&& a.symbols@ == b.symbols@
    &&& a.imports@ == b.imports@
    &&& a.references@ == b.references@
    &&& a.calls@ == b.calls@
    &&& a.module_declarations@ == b.module_declarations@
    &&& a.attributes@ == b.attributes@
    &&& a.recovery_ranges@ == b.recovery_ranges@
    &&& a.limitations@ == b.limitations@
}

/// The payload with each list in canonical order and repeated recovery
/// ranges and limitations dropped. A payload already in canonical order
/// comes back unchanged.
pub fn canonical_file_facts(facts: RustFileFacts) -> (r: RustFileFacts)
    ensures
        in_canonical_order(r),
        in_canonical_order(facts) ==> same_payload(r, facts),
        r.parse_quality == facts.parse_quality,
        r.metrics == facts.metrics,
        r.symbols@.to_multiset() == facts.symbols@.to_multiset(),
        r.imports@.to_multiset() == facts.imports@.to_multiset(),
        r.references@.to_multiset() == facts.references@.to_multiset(),
        r.calls@.to_multiset() == facts.calls@.to_multiset(),
        r.module_declarations@.to_multiset() == facts.module_declarations@.to_multiset(),
        r.attributes@.to_multiset() == facts.attributes@.to_multiset(),
        r.recovery_ranges@.to_set() == facts.recovery_ranges@.to_set(),
        views(r.limitations@).to_set() == views(facts.limitations@).to_set(),
{
    let ghost before_sort = facts;
    let RustFileFacts {
        parse_quality,
        symbols,
        imports,
        references,
        calls,
        module_declarations,
        attributes,
        recovery_ranges,
        limitations,
        metrics,
    } = facts;
    let r = RustFileFacts {
        parse_quality,
        symbols: stable_sort(symbols),
        imports: stable_sort(imports),
        references: stable_sort(references),
        calls: stable_sort(calls),
        module_declarations: stable_sort(module_declarations),
        attributes: stable_sort(attributes),
        recovery_ranges: sorted_unique_ranges(recovery_ranges),
        limitations: sorted_unique_texts(limitations),
        metrics,
    };
    r
}

proof fn lemma_same_multiset_same_set<T>(a: Seq<T>, b: Seq<T>)
    requires
        a.to_multiset() == b.to_multiset(),
    ensures
        a.to_set() == b.to_set(),
{
    a.to_multiset_ensures();
    b.to_multiset_ensures();
    assert forall|x: T| a.to_set().contains(x) <==> b.to_set().contains(x) by {
        assert(a.contains(x) <==> a.to_multiset().count(x) > 0);
        assert(b.contains(x) <==> b.to_multiset().count(x) > 0);
    }
    assert(a.to_set() =~= b.to_set());
}

pub proof fn lemma_same_multiset_same_views(a: Seq<String>, b: Seq<String>)
    requires
        a.to_multiset() == b.to_multiset(),
    ensures
        views(a).to_set() == views(b).to_set(),
{
    a.to_multiset_ensures();
    b.to_multiset_ensures();
    assert forall|t: Seq<char>| views(a).to_set().contains(t) implies views(b).to_set().contains(t) by {
        let i = choose|i: int| 0 <= i < views(a).len() && views(a)[i] == t;
        assert(a.contains(a[i]));
        assert(a.to_multiset().count(a[i]) > 0);
        assert(b.contains(a[i]));
        let j = choose|j: int| 0 <= j < b.len() && b[j] == a[i];
        assert(views(b)[j] == t);
    }
    assert forall|t: Seq<char>| views(b).to_set().contains(t) implies views(a).to_set().contains(t) by {
        let i = choose|i: int| 0 <= i < views(b).len() && views(b)[i] == t;
        assert(b.contains(b[i]));
        assert(b.to_multiset().count(b[i]) > 0);
        assert(a.contains(b[i]));
        let j = choose|j: int| 0 <= j < a.len() && a[j] == b[i];
        assert(views(a)[j] == t);
    }
    assert(views(a).to_set() =~= views(b).to_set());
}

proof fn lemma_strict_is_sorted<T: CanonicalOrder>(v: Seq<T>)
    requires
        strictly_sorted_by_order(v),
    ensures
        sorted_by_order(v),
{
    assert forall|i: int| 0 <= i < v.len() - 1 implies (#[trigger] v[i]).order_of(&v[i + 1]) <= 0 by {
        assert(v[i].order_of(&v[i + 1]) < 0);
    }
}

/// The bytes hashed to name a file-fact key.
pub open spec fn file_fact_key_message(k: FileFactKey) -> Seq<u8> {
    component(encode_utf8("file-facts/v1"@)) + component(encode_utf8(k.language@)) + component(
        encode_utf8(k.content_sha256@),
    ) + component(encode_utf8(k.grammar_version@)) + component(encode_utf8(k.query_digest@))
        + component(encode_utf8(k.adapter_version@)) + component(
        encode_utf8(k.normalization_rules_digest@),
    ) + component(be_bytes(k.schema_version as nat, 2))
}

/// The name of a file-fact key: the lowercase hexadecimal SHA-256 of its
/// length-prefixed components. Refused, with the key's own reason, when the
/// key is invalid.
pub fn file_fact_key_digest(key: &FileFactKey) -> (r: Result<String, String>)
    ensures
        r is Ok <==> file_fact_key_valid(*key),
        r matches Ok(d) ==> d@ == hex_seq(sha256_of(file_fact_key_message(*key))) && d@.len() == 64,
{
    if let Err(error) = key.validate() {
        return Err(error.message());
    }
    let mut message: Vec<u8> = Vec::new();
    push_component(&mut message, "file-facts/v1".as_bytes());
    push_component(&mut message, key.language.as_str().as_bytes());
    push_component(&mut message, key.content_sha256.as_str().as_bytes());
    push_component(&mut message, key.grammar_version.as_str().as_bytes());
    push_component(&mut message, key.query_digest.as_str().as_bytes());
    push_component(&mut message, key.adapter_version.as_str().as_bytes());
    push_component(&mut message, key.normalization_rules_digest.as_str().as_bytes());
    let mut version: Vec<u8> = Vec::new();
    push_be(&mut version, key.schema_version as u64, 2);
    assert(version@ =~= be_bytes(key.schema_version as nat, 2));
    push_component(&mut message, version.as_slice());
    assert(message@ =~= file_fact_key_message(*key));
    Ok(sha256_hex_of_bytes(message.as_slice()))
}

/// The lowercase hexadecimal SHA-256 of a stored payload.
pub fn payload_digest(payload: &[u8]) -> (r: String)
    ensures
        r@ == hex_seq(sha256_of(payload@)),
{
    sha256_hex_of_bytes(payload)
}

/// The serialised rows of a repository graph, group by group.
#[derive(Debug, Clone, PartialEq, Eq)]
pub struct CanonicalGraphRows {
    pub identity: String,
    pub completeness: String,
    pub files: Vec<String>,
    pub modules: Vec<String>,
    pub symbols: Vec<String>,
    pub edges: Vec<String>,
    pub limitations: Vec<String>,
}

/// The components of each row, in order.
pub open spec fn row_components(rows: Seq<Seq<char>>) -> Seq<u8>
    decreases rows.len(),
{
    if rows.len() == 0 {
        Seq::empty()
    } else {
        row_components(rows.drop_last()) + component(encode_utf8(rows.last()))
    }
}

/// A group: its row count as eight big-endian bytes, then its rows.
pub open spec fn group_message(rows: Seq<Seq<char>>) -> Seq<u8> {
    component(be_bytes(rows.len(), 8)) + row_components(rows)
}

/// The opening of the application root: its label, identity and
/// completeness.
pub open spec fn root_header(identity: Seq<char>, completeness: Seq<char>) -> Seq<u8> {
    component(encode_utf8("repository-graph-application-root/v1"@)) + component(
        encode_utf8(identity),
    ) + component(encode_utf8(completeness))
}

/// Every byte hashed into the application root of the rows.
pub open spec fn graph_rows_message(rows: CanonicalGraphRows) -> Seq<u8> {
    root_header(rows.identity@, rows.completeness@) + group_message(views(rows.files@))
        + group_message(views(rows.modules@)) + group_message(views(rows.symbols@)) + group_message(
        views(rows.edges@),
    ) + group_message(views(rows.limitations@))
}

/// Hashes graph rows as they are streamed out, group by group.
#[derive(Debug, Clone)]
pub struct GraphRowsRootHasher {
    message: Vec<u8>,
}

impl View for GraphRowsRootHasher {
    type V = Seq<u8>;

    /// The bytes hashed so far.
    closed spec fn view(&self) -> Seq<u8> {
        self.message@
    }
}

impl GraphRowsRootHasher {
    /// Starts the root with the identity and completeness.
    pub fn new(identity: &str, completeness: &str) -> (r: Self)
        ensures
            r@ == root_header(identity@, completeness@),
    {
        let mut message: Vec<u8> = Vec::new();
        push_component(&mut message, "repository-graph-application-root/v1".as_bytes());
        push_component(&mut message, identity.as_bytes());
        push_component(&mut message, completeness.as_bytes());
        assert(message@ =~= root_header(identity@, completeness@));
        GraphRowsRootHasher { message }
    }

    /// Opens a group of `row_count` rows.
    pub fn start_group(&mut self, row_count: usize)
        ensures
            final(self)@ == old(self)@ + component(be_bytes(row_count as nat, 8)),
    {
        let mut count: Vec<u8> = Vec::new();
        push_be(&mut count, row_count as u64, 8);
        assert(count@ =~= be_bytes(row_count as nat, 8));
        push_component(&mut self.message, count.as_slice());
    }

    /// Adds one canonical row.
    pub fn push_row(&mut self, canonical_row: &str)
        ensures
            final(self)@ == old(self)@ + component(encode_utf8(canonical_row@)),
    {
        push_component(&mut self.message, canonical_row.as_bytes());
    }

    /// The root: the lowercase hexadecimal SHA-256 of everything hashed.
    pub fn finish(self) -> (r: String)
        ensures
            r@ == hex_seq(sha256_of(self@)),
    {
        sha256_hex_of_bytes(self.message.as_slice())
    }
}

fn push_group(hasher: &mut GraphRowsRootHasher, rows: &Vec<String>)
    ensures
        final(hasher)@ == old(hasher)@ + group_message(views(rows@)),
{
    hasher.start_group(rows.len());
    let ghost start = hasher@;
    let mut i: usize = 0;
    while i < rows.len()
        invariant
            i <= rows@.len(),
            hasher@ == start + row_components(views(rows@.take(i as int))),
        decreases rows@.len() - i,
    {
        hasher.push_row(rows[i].as_str());
        proof {
            let t = views(rows@.take(i + 1));
            assert(t.drop_last() =~= views(rows@.take(i as int)));
            assert(t.last() == rows@[i as int]@);
        }
        i = i + 1;
    }
    assert(rows@.take(rows@.len() as int) =~= rows@);
}

/// The application root of a graph's canonical rows.
pub fn graph_rows_root(rows: &CanonicalGraphRows) -> (r: String)
    ensures
        r@ == hex_seq(sha256_of(graph_rows_message(*rows))),
{
    let mut hasher = GraphRowsRootHasher::new(rows.identity.as_str(), rows.completeness.as_str());
    push_group(&mut hasher, &rows.files);
    push_group(&mut hasher, &rows.modules);
    push_group(&mut hasher, &rows.symbols);
    push_group(&mut hasher, &rows.edges);
    push_group(&mut hasher, &rows.limitations);
    assert(hasher@ =~= graph_rows_message(*rows));
    hasher.finish()
}

/// Whether two optional texts are the same.
pub fn opt_text_equal(a: &Option<String>, b: &Option<String>) -> (r: bool)
    ensures
        r == (opt_view(*a) == opt_view(*b)),
{
    match (a, b) {
        (None, None) => true,
        (Some(x), Some(y)) => str_equal(x.as_str(), y.as_str()),
        _ => false,
    }
}

/// Whether two lists of texts are the same.
pub fn texts_equal(a: &Vec<String>, b: &Vec<String>) -> (r: bool)
    ensures
        r == (views(a@) == views(b@)),
{
    if a.len() != b.len() {
        assert(views(a@).len() != views(b@).len());
        return false;
    }
    let mut i: usize = 0;
    while i < a.len()
        invariant
            a@.len() == b@.len(),
            i <= a@.len(),
            forall|k: int| 0 <= k < i ==> a@[k]@ == b@[k]@,
        decreases a@.len() - i,
    {
        if !str_equal(a[i].as_str(), b[i].as_str()) {
            assert(views(a@)[i as int] != views(b@)[i as int]);
            return false;
        }
        i = i + 1;
    }
    assert(views(a@) =~= views(b@));
    true
}

/// A record compared field by field, texts by their characters.
pub trait SameFact: Sized {
    spec fn same_as(&self, other: &Self) -> bool;

    fn equals(&self, other: &Self) -> (r: bool)
        ensures
            r == self.same_as(other),
    ;
}

/// Two lists of records that agree position by position.
pub open spec fn all_same<T: SameFact>(a: Seq<T>, b: Seq<T>) -> bool {
    a.len() == b.len() && forall|i: int| 0 <= i < a.len() ==> (#[trigger] a[i]).same_as(&b[i])
}

/// Whether two lists of records agree position by position.
pub fn lists_equal<T: SameFact>(a: &Vec<T>, b: &Vec<T>) -> (r: bool)
    ensures
        r == all_same(a@, b@),
{
    if a.len() != b.len() {
        return false;
    }
    let mut i: usize = 0;
    while i < a.len()
        invariant
            a@.len() == b@.len(),
            i <= a@.len(),
            forall|k: int| 0 <= k < i ==> (#[trigger] a@[k]).same_as(&b@[k]),
        decreases a@.len() - i,
    {
        if !a[i].equals(&b[i]) {
            return false;
        }
        i = i + 1;
    }
    true
}

impl SameFact for RustLocalSymbolFact {
    open spec fn same_as(&self, other: &Self) -> bool {
        self.local_id@ == other.local_id@
        && self.kind@ == other.kind@
        && self.name@ == other.name@
        && opt_view(self.owner_local_id) == opt_view(other.owner_local_id)
        && self.signature@ == other.signature@
        && opt_view(self.visibility) == opt_view(other.visibility)
        && self.range == other.range
    }

    fn equals(&self, other: &Self) -> (r: bool) {
        str_equal(self.local_id.as_str(), other.local_id.as_str())
            && str_equal(self.kind.as_str(), other.kind.as_str())
            && str_equal(self.name.as_str(), other.name.as_str())
            && opt_text_equal(&self.owner_local_id, &other.owner_local_id)
            && str_equal(self.signature.as_str(), other.signature.as_str())
            && opt_text_equal(&self.visibility, &other.visibility)
            && self.range == other.range
    }
}

impl SameFact for RustImportFact {
    open spec fn same_as(&self, other: &Self) -> bool {
        views(self.segments@) == views(other.segments@)
        && opt_view(self.alias) == opt_view(other.alias)
        && self.glob == other.glob
        && self.public == other.public
        && self.range == other.range
    }

    fn equals(&self, other: &Self) -> (r: bool) {
        texts_equal(&self.segments, &other.segments)
            && opt_text_equal(&self.alias, &other.alias)
            && self.glob == other.glob
            && self.public == other.public
            && self.range == other.range
    }
}

impl SameFact for RustReferenceFact {
    open spec fn same_as(&self, other: &Self) -> bool {
        self.name@ == other.name@
        && views(self.qualifier@) == views(other.qualifier@)
        && self.role@ == other.role@
        && opt_view(self.owner_local_id) == opt_view(other.owner_local_id)
        && self.range == other.range
    }

    fn equals(&self, other: &Self) -> (r: bool) {
        str_equal(self.name.as_str(), other.name.as_str())
            && texts_equal(&self.qualifier, &other.qualifier)
            && str_equal(self.role.as_str(), other.role.as_str())
            && opt_text_equal(&self.owner_local_id, &other.owner_local_id)
            && self.range == other.range
    }
}

impl SameFact for RustCallSiteFact {
    open spec fn same_as(&self, other: &Self) -> bool {
        self.callee@ == other.callee@
        && views(self.qualifier@) == views(other.qualifier@)
        && self.call_kind@ == other.call_kind@
        && opt_view(self.caller_local_id) == opt_view(other.caller_local_id)
        && self.range == other.range
    }

    fn equals(&self, other: &Self) -> (r: bool) {
        str_equal(self.callee.as_str(), other.callee.as_str())
            && texts_equal(&self.qualifier, &other.qualifier)
            && str_equal(self.call_kind.as_str(), other.call_kind.as_str())
            && opt_text_equal(&self.caller_local_id, &other.caller_local_id)
            && self.range == other.range
    }
}

impl SameFact for RustModuleDeclarationFact {
    open spec fn same_as(&self, other: &Self) -> bool {
        self.name@ == other.name@
        && self.inline == other.inline
        && opt_view(self.path_override) == opt_view(other.path_override)
        && opt_view(self.owner_local_id) == opt_view(other.owner_local_id)
        && self.range == other.range
    }

    fn equals(&self, other: &Self) -> (r: bool) {
        str_equal(self.name.as_str(), other.name.as_str())
            && self.inline == other.inline
            && opt_text_equal(&self.path_override, &other.path_override)
            && opt_text_equal(&self.owner_local_id, &other.owner_local_id)
            && self.range == other.range
    }
}

impl SameFact for RustAttributeFact {
    open spec fn same_as(&self, other: &Self) -> bool {
        self.name@ == other.name@
        && views(self.arguments@) == views(other.arguments@)
        && self.range == other.range
    }

    fn equals(&self, other: &Self) -> (r: bool) {
        str_equal(self.name.as_str(), other.name.as_str())
            && texts_equal(&self.arguments, &other.arguments)
            && self.range == other.range
    }
}

/// Two payloads with the same quality, metrics and facts.
pub open spec fn payload_matches(a: RustFileFacts, b: RustFileFacts) -> bool {
    &&& a.parse_quality == b.parse_quality
    &&& a.metrics == b.metrics
    &&& all_same(a.symbols@, b.symbols@)
    &&& all_same(a.imports@, b.imports@)
    &&& all_same(a.references@, b.references@)
    &&& all_same(a.calls@, b.calls@)
    &&& all_same(a.module_declarations@, b.module_declarations@)
    &&& all_same(a.attributes@, b.attributes@)
    &&& a.recovery_ranges@ == b.recovery_ranges@
    &&& views(a.limitations@) == views(b.limitations@)
}

fn ranges_equal(a: &Vec<SourceRange>, b: &Vec<SourceRange>) -> (r: bool)
    ensures
        r == (a@ == b@),
{
    if a.len() != b.len() {
        return false;
    }
    let mut i: usize = 0;
    while i < a.len()
        invariant
            a@.len() == b@.len(),
            i <= a@.len(),
            forall|k: int| 0 <= k < i ==> a@[k] == b@[k],
        decreases a@.len() - i,
    {
        if a[i] != b[i] {
            return false;
        }
        i = i + 1;
    }
    assert(a@ =~= b@);
    true
}

/// Whether two payloads hold the same facts.
pub fn payloads_equal(a: &RustFileFacts, b: &RustFileFacts) -> (r: bool)
    ensures
        r == payload_matches(*a, *b),
{
    a.parse_quality == b.parse_quality && a.metrics == b.metrics && lists_equal(&a.symbols, &b.symbols)
        && lists_equal(&a.imports, &b.imports) && lists_equal(&a.references, &b.references)
        && lists_equal(&a.calls, &b.calls) && lists_equal(&a.module_declarations, &b.module_declarations)
        && lists_equal(&a.attributes, &b.attributes) && ranges_equal(&a.recovery_ranges, &b.recovery_ranges)
        && texts_equal(&a.limitations, &b.limitations)
}

} // verus!
