//! The classifier: it shapes enriched items into a bounded oracle request,
//! validates the structured response all-or-nothing, resolves each cabinet
//! and shelf assignment — reusing existing rows, or creating new ones once
//! per distinct name within the batch — and commits exactly one item row per
//! input. It also owns the deterministic opaque-directory heuristic.
use vstd::prelude::*;

use crate::database::{
    Database, Item, StoreError, StoreV, with_new_cabinet, with_new_item, with_new_shelf, CabinetV,
    ShelfV, ItemV,
};
use crate::models::{
    BatchAnalysisRequest, BatchAnalysisResponse, CabinetAssignment, CabinetAssignmentV,
    CabinetInfo, ItemAnalysis, ItemAnalysisV, ItemMetadata, ItemMetadataV, ProcessingItem,
    ProcessingItemV, SampledItem, SampledItemV, ShelfAssignment, ShelfAssignmentV, ShelfInfo,
    view_analyses, view_processing_items, view_samples,
};
use crate::providers::LLMProvider;
use crate::text::str_eq;

verus! {

/// A digit character, by code point.
pub open spec fn spec_char_is_digit(c: char) -> bool {
    48 <= c as int <= 57
}

/// The character sequence holds at least one decimal digit.
pub open spec fn spec_has_digit(s: Seq<char>) -> bool {
    exists|i: int| 0 <= i < s.len() && spec_char_is_digit(#[trigger] s[i])
}

/// Directory names treated as opaque outright: build output, dependency
/// caches, version-control internals and the like.
pub open spec fn name_is_denied(name: Seq<char>) -> bool {
    ||| name == "node_modules"@
    ||| name == "__pycache__"@
    ||| name == ".git"@
    ||| name == ".svn"@
    ||| name == "target"@
    ||| name == "dist"@
    ||| name == "build"@
    ||| name == "out"@
    ||| name == ".idea"@
    ||| name == ".vscode"@
    ||| name == "vendor"@
    ||| name == "deps"@
    ||| name == ".cache"@
    ||| name == "tmp"@
    ||| name == "temp"@
}

/// How many sampled children carry a digit in their name.
pub open spec fn count_digit_names(items: Seq<SampledItemV>) -> nat
    decreases items.len(),
{
    if items.len() == 0 {
        0
    } else {
        count_digit_names(items.drop_last()) + if spec_has_digit(items.last().name) {
            1nat
        } else {
            0nat
        }
    }
}

/// The extensions the sampled children carry, in sample order.
pub open spec fn exts_of(items: Seq<SampledItemV>) -> Seq<Seq<char>>
    decreases items.len(),
{
    if items.len() == 0 {
        Seq::empty()
    } else {
        exts_of(items.drop_last()) + match items.last().extension {
            Some(e) => seq![e],
            None => Seq::empty(),
        }
    }
}

/// How many of the given extensions equal `e`.
pub open spec fn count_matching(exts: Seq<Seq<char>>, e: Seq<char>) -> nat
    decreases exts.len(),
{
    if exts.len() == 0 {
        0
    } else {
        count_matching(exts.drop_last(), e) + if exts.last() == e {
            1nat
        } else {
            0nat
        }
    }
}

/// The opaque-directory heuristic: a directory is opaque if its name is on
/// the deny-list, or if it has at least five sampled children, more than 80%
/// of their names carry a digit, and — among the children that carry an
/// extension — more than 80% share the extension of the first such child.
pub open spec fn spec_opaque_directory(name: Seq<char>, items: Seq<SampledItemV>) -> bool {
    ||| name_is_denied(name)
    ||| {
        let exts = exts_of(items);
        &&& items.len() >= 5
        &&& 5 * count_digit_names(items) > 4 * items.len()
        &&& exts.len() > 0
        &&& 5 * count_matching(exts, exts[0]) > 4 * exts.len()
    }
}

/// A directory on the deny-list is opaque no matter what it holds: its
/// sampled children play no part in the judgment.
pub proof fn lemma_denied_name_opaque(name: Seq<char>, items: Seq<SampledItemV>)
    requires
        name_is_denied(name),
    ensures
        spec_opaque_directory(name, items),
{
}

fn contains_digit(s: &str) -> (r: bool)
    ensures
        r == spec_has_digit(s@),
{
    let n = s.unicode_len();
    for i in 0..n
        invariant
            n == s@.len(),
            forall|j: int| 0 <= j < i ==> !spec_char_is_digit(#[trigger] s@[j]),
    {
        let c = s.get_char(i);
        let cu = c as u32;
        if cu >= 48 && cu <= 57 {
            return true;
        }
    }
    false
}

/// The classifier: batches enriched items, consults the oracle, validates
/// its answer and commits the judgments to the store.
pub struct BatchProcessor {
    provider: LLMProvider,
    base_path: String,
}

impl BatchProcessor {
    /// A classifier for the given oracle and scanned root.
    pub fn new(provider: LLMProvider, base_path: String) -> (r: BatchProcessor)
        ensures
            r.provider_spec().provider_spec() == provider.provider_spec(),
            r.provider_spec().model_name_spec() == provider.model_name_spec(),
            r.base_path_spec() == base_path@,
    {
        BatchProcessor { provider, base_path }
    }

    /// The oracle this classifier consults.
    pub closed spec fn provider_spec(&self) -> LLMProvider {
        self.provider
    }

    /// The root whose entries this classifier files.
    pub closed spec fn base_path_spec(&self) -> Seq<char> {
        self.base_path@
    }

    /// Decide the opaque-directory heuristic for one sampled directory.
    pub fn is_likely_opaque_directory(name: &str, sampled_items: &[SampledItem]) -> (r: bool)
        ensures
            r == spec_opaque_directory(name@, view_samples(sampled_items@)),
    {
        if str_eq(name, "node_modules") || str_eq(name, "__pycache__") || str_eq(name, ".git")
            || str_eq(name, ".svn") || str_eq(name, "target") || str_eq(name, "dist") || str_eq(
            name,
            "build",
        ) || str_eq(name, "out") || str_eq(name, ".idea") || str_eq(name, ".vscode") || str_eq(
            name,
            "vendor",
        ) || str_eq(name, "deps") || str_eq(name, ".cache") || str_eq(name, "tmp") || str_eq(
            name,
            "temp",
        ) {
            return true;
        }
        let ghost samples = view_samples(sampled_items@);
        let n = sampled_items.len();
        if n < 5 {
            return false;
        }
        let mut digit_count: usize = 0;
        let mut ext_total: usize = 0;
        let mut ext_same: usize = 0;
        let mut first_ext: Option<String> = None;
        for i in 0..n
            invariant
                n == sampled_items@.len(),
                n == samples.len(),
                samples == view_samples(sampled_items@),
                digit_count == count_digit_names(samples.subrange(0, i as int)),
                digit_count <= i,
                ext_total == exts_of(samples.subrange(0, i as int)).len(),
                ext_same <= ext_total <= i,
                match first_ext {
                    Some(ref f) => {
                        let exts = exts_of(samples.subrange(0, i as int));
                        &&& exts.len() > 0
                        &&& f@ == exts[0]
                        &&& ext_same == count_matching(exts, exts[0])
                    },
                    None => exts_of(samples.subrange(0, i as int)).len() == 0,
                },
        {
            let ghost prevsub = samples.subrange(0, i as int);
            let ghost nextsub = samples.subrange(0, i as int + 1);
            proof {
                assert(nextsub.drop_last() =~= prevsub);
                assert(nextsub.last() == samples[i as int]);
                assert(samples[i as int] == sampled_items@[i as int]@);
            }
            if contains_digit(sampled_items[i].name.as_str()) {
                digit_count = digit_count + 1;
            }
            match sampled_items[i].extension {
                Some(ref e) => {
                    proof {
                        assert(exts_of(nextsub) =~= exts_of(prevsub).push(e@));
                        assert(exts_of(nextsub) == exts_of(prevsub).push(e@));
                        assert(exts_of(nextsub).drop_last() =~= exts_of(prevsub));
                        assert(exts_of(nextsub).drop_last() == exts_of(prevsub));
                        assert(exts_of(nextsub).last() == e@);
                    }
                    match first_ext {
                        Some(ref f) => {
                            if str_eq(e.as_str(), f.as_str()) {
                                ext_same = ext_same + 1;
                            }
                            proof {
                                let e0 = exts_of(prevsub)[0];
                                assert(exts_of(nextsub)[0] == e0);
                                assert(count_matching(exts_of(nextsub), e0) == count_matching(
                                    exts_of(prevsub),
                                    e0,
                                ) + if e@ == e0 {
                                    1nat
                                } else {
                                    0nat
                                });
                            }
                        },
                        None => {
                            first_ext = Some(e.clone());
                            ext_same = 1;
                            proof {
                                assert(exts_of(prevsub).len() == 0);
                                assert(exts_of(nextsub).len() == 1);
                                assert(exts_of(nextsub)[0] == e@);
                                assert(count_matching(exts_of(prevsub), e@) == 0);
                                assert(count_matching(exts_of(nextsub), e@) == 1);
                            }
                        },
                    }
                    ext_total = ext_total + 1;
                },
                None => {
                    proof {
                        assert(exts_of(nextsub) =~= exts_of(prevsub));
                        assert(exts_of(nextsub) == exts_of(prevsub));
                    }
                },
            }
        }
        proof {
            assert(samples.subrange(0, n as int) =~= samples);
        }
        if 5 * (digit_count as u128) > 4 * (n as u128) {
            if ext_total > 0 {
                5 * (ext_same as u128) > 4 * (ext_total as u128)
            } else {
                false
            }
        } else {
            false
        }
    }
}

/// Why a whole batch was rejected. A batch is all-or-nothing: any of these
/// leaves the store exactly as it was.
#[derive(Debug, PartialEq, Eq, Structural, Clone, Copy)]
pub enum AssignmentError {
    /// The assignment tag was neither `existing` nor `new`.
    InvalidType,
    /// An `existing` assignment carried id zero.
    ZeroId,
    /// An `existing` assignment named an id that resolves to no row, neither
    /// in the store nor among the rows this batch created.
    Unresolved,
    /// A `new` assignment left the name or the description empty.
    EmptyNew,
}

/// Why a whole batch was rejected.
#[derive(Debug, PartialEq, Eq, Structural, Clone, Copy)]
pub enum BatchError {
    /// The response holds a different number of judgments than the request
    /// holds items.
    CountMismatch,
    /// A response judgment carries an id that is not its request item's id.
    IdMismatch,
    /// A cabinet assignment was invalid.
    Cabinet(AssignmentError),
    /// A shelf assignment was invalid.
    Shelf(AssignmentError),
    /// The store refused a row the batch needed to write.
    Store(StoreError),
}

/// First match in the batch-local cabinet cache: new-cabinet name to the id
/// created for it.
pub open spec fn cache_lookup(c: Seq<(Seq<char>, int)>, name: Seq<char>) -> Option<int>
    decreases c.len(),
{
    if c.len() == 0 {
        None
    } else if c[0].0 == name {
        Some(c[0].1)
    } else {
        cache_lookup(c.drop_first(), name)
    }
}

/// First match in the batch-local shelf cache: cabinet id and new-shelf name
/// to the id created for the pair.
pub open spec fn shelf_cache_lookup(
    c: Seq<(int, Seq<char>, int)>,
    cabinet_id: int,
    name: Seq<char>,
) -> Option<int>
    decreases c.len(),
{
    if c.len() == 0 {
        None
    } else if c[0].0 == cabinet_id && c[0].1 == name {
        Some(c[0].2)
    } else {
        shelf_cache_lookup(c.drop_first(), cabinet_id, name)
    }
}

/// Resolve one cabinet assignment against the working store and the
/// batch-local cache: reuse an existing row by id, reuse the cache for a
/// repeated `new` name, or create a fresh cabinet.
pub open spec fn resolve_cabinet(
    store: StoreV,
    cc: Seq<(Seq<char>, int)>,
    a: CabinetAssignmentV,
    ts: Seq<char>,
) -> Result<(StoreV, Seq<(Seq<char>, int)>, int), BatchError> {
    if a.assignment_type == "existing"@ {
        if a.existing_id == 0 {
            Err(BatchError::Cabinet(AssignmentError::ZeroId))
        } else if !store.has_cabinet_id(a.existing_id) {
            Err(BatchError::Cabinet(AssignmentError::Unresolved))
        } else {
            Ok((store, cc, a.existing_id))
        }
    } else if a.assignment_type == "new"@ {
        if a.new_name.len() == 0 || a.new_description.len() == 0 {
            Err(BatchError::Cabinet(AssignmentError::EmptyNew))
        } else {
            match cache_lookup(cc, a.new_name) {
                Some(id) => Ok((store, cc, id)),
                None => {
                    if store.has_cabinet_name(a.new_name) {
                        Err(BatchError::Store(StoreError::DuplicateCabinetName))
                    } else if store.next_cabinet_id == i64::MAX {
                        Err(BatchError::Store(StoreError::IdsExhausted))
                    } else {
                        let id = store.next_cabinet_id;
                        Ok(
                            (
                                with_new_cabinet(store, id, a.new_name, a.new_description, ts),
                                cc.push((a.new_name, id)),
                                id,
                            ),
                        )
                    }
                },
            }
        }
    } else {
        Err(BatchError::Cabinet(AssignmentError::InvalidType))
    }
}

/// Resolve one shelf assignment against the working store and the
/// batch-local cache, under the cabinet the item was assigned to.
pub open spec fn resolve_shelf(
    store: StoreV,
    sc: Seq<(int, Seq<char>, int)>,
    cabinet_id: int,
    a: ShelfAssignmentV,
    ts: Seq<char>,
) -> Result<(StoreV, Seq<(int, Seq<char>, int)>, int), BatchError> {
    if a.assignment_type == "existing"@ {
        if a.existing_id == 0 {
            Err(BatchError::Shelf(AssignmentError::ZeroId))
        } else if !store.has_shelf_id(a.existing_id) {
            Err(BatchError::Shelf(AssignmentError::Unresolved))
        } else {
            Ok((store, sc, a.existing_id))
        }
    } else if a.assignment_type == "new"@ {
        if a.new_name.len() == 0 || a.new_description.len() == 0 {
            Err(BatchError::Shelf(AssignmentError::EmptyNew))
        } else {
            match shelf_cache_lookup(sc, cabinet_id, a.new_name) {
                Some(id) => Ok((store, sc, id)),
                None => {
                    if !store.has_cabinet_id(cabinet_id) {
                        Err(BatchError::Store(StoreError::UnknownCabinet))
                    } else if store.has_shelf_name(cabinet_id, a.new_name) {
                        Err(BatchError::Store(StoreError::DuplicateShelfName))
                    } else if store.next_shelf_id == i64::MAX {
                        Err(BatchError::Store(StoreError::IdsExhausted))
                    } else {
                        let id = store.next_shelf_id;
                        Ok(
                            (
                                with_new_shelf(
                                    store,
                                    ShelfV {
                                        id,
                                        cabinet_id,
                                        name: a.new_name,
                                        description: a.new_description,
                                        created_at: ts,
                                    },
                                ),
                                sc.push((cabinet_id, a.new_name, id)),
                                id,
                            ),
                        )
                    }
                },
            }
        }
    } else {
        Err(BatchError::Shelf(AssignmentError::InvalidType))
    }
}

/// The item row one judgment commits, before the store assigns its id:
/// path, name and type from the scanned item; description and optional
/// rename from the oracle; the opaque flag from the local heuristic; the
/// batch timestamp.
pub open spec fn spec_item_row(
    item: ProcessingItemV,
    analysis: ItemAnalysisV,
    shelf_id: int,
    ts: Seq<char>,
) -> ItemV {
    ItemV {
        id: None,
        shelf_id,
        path: match item {
            ProcessingItemV::File(f) => f.path,
            ProcessingItemV::Directory(d) => d.path,
        },
        original_name: match item {
            ProcessingItemV::File(f) => f.name,
            ProcessingItemV::Directory(d) => d.name,
        },
        suggested_name: if analysis.suggested_name.len() == 0 {
            None
        } else {
            Some(analysis.suggested_name)
        },
        description: analysis.description,
        file_type: match item {
            ProcessingItemV::File(f) => f.file_type,
            ProcessingItemV::Directory(_) => "directory"@,
        },
        is_opaque_dir: match item {
            ProcessingItemV::File(_) => false,
            ProcessingItemV::Directory(d) => spec_opaque_directory(d.name, d.sampled_items),
        },
        processed_at: ts,
    }
}

/// Commit one judgment: resolve its cabinet, then its shelf, then insert
/// the item row, threading the working store and both caches.
pub open spec fn commit_step(
    store: StoreV,
    cc: Seq<(Seq<char>, int)>,
    sc: Seq<(int, Seq<char>, int)>,
    item: ProcessingItemV,
    analysis: ItemAnalysisV,
    ts: Seq<char>,
) -> Result<(StoreV, Seq<(Seq<char>, int)>, Seq<(int, Seq<char>, int)>), BatchError> {
    match resolve_cabinet(store, cc, analysis.cabinet, ts) {
        Err(e) => Err(e),
        Ok((store1, cc1, cabinet_id)) => match resolve_shelf(store1, sc, cabinet_id, analysis.shelf, ts) {
            Err(e) => Err(e),
            Ok((store2, sc1, shelf_id)) => {
                let row = spec_item_row(item, analysis, shelf_id, ts);
                if !store2.has_shelf_id(shelf_id) {
                    Err(BatchError::Store(StoreError::UnknownShelf))
                } else if store2.has_item_path(row.path) {
                    Err(BatchError::Store(StoreError::DuplicateItemPath))
                } else if store2.next_item_id == i64::MAX {
                    Err(BatchError::Store(StoreError::IdsExhausted))
                } else {
                    Ok(
                        (
                            with_new_item(
                                store2,
                                ItemV { id: Some(store2.next_item_id), ..row },
                            ),
                            cc1,
                            sc1,
                        ),
                    )
                }
            },
        },
    }
}

/// Commit the judgments from position `i` on, stopping at the first
/// failure.
pub open spec fn commit_from(
    store: StoreV,
    cc: Seq<(Seq<char>, int)>,
    sc: Seq<(int, Seq<char>, int)>,
    items: Seq<ProcessingItemV>,
    analyses: Seq<ItemAnalysisV>,
    ts: Seq<char>,
    i: int,
) -> Result<StoreV, BatchError>
    decreases items.len() - i,
{
    if i < 0 || i >= items.len() {
        Ok(store)
    } else {
        match commit_step(store, cc, sc, items[i], analyses[i], ts) {
            Err(e) => Err(e),
            Ok((store2, cc2, sc2)) => commit_from(store2, cc2, sc2, items, analyses, ts, i + 1),
        }
    }
}

/// Every judgment carries the decimal rendering of its position: the only
/// ordering contract of the oracle exchange.
pub open spec fn ids_match(analyses: Seq<ItemAnalysisV>) -> bool {
    forall|i: int|
        0 <= i < analyses.len() ==> (#[trigger] analyses[i]).id == crate::text::dec_str(i as nat)
}

/// The whole batch commit: count check, id correspondence check, then the
/// left-to-right fold with empty batch-local caches.
pub open spec fn spec_commit_batch(
    store: StoreV,
    items: Seq<ProcessingItemV>,
    analyses: Seq<ItemAnalysisV>,
    ts: Seq<char>,
) -> Result<StoreV, BatchError> {
    if analyses.len() != items.len() {
        Err(BatchError::CountMismatch)
    } else if !ids_match(analyses) {
        Err(BatchError::IdMismatch)
    } else {
        commit_from(
            store,
            Seq::empty(),
            Seq::empty(),
            items,
            analyses,
            ts,
            0,
        )
    }
}

/// The views of the batch-local cabinet cache rows.
pub open spec fn view_cab_cache(v: Seq<(String, i64)>) -> Seq<(Seq<char>, int)> {
    v.map_values(|p: (String, i64)| (p.0@, p.1 as int))
}

/// The views of the batch-local shelf cache rows.
pub open spec fn view_shelf_cache(v: Seq<(i64, String, i64)>) -> Seq<(int, Seq<char>, int)> {
    v.map_values(|p: (i64, String, i64)| (p.0 as int, p.1@, p.2 as int))
}

fn cab_cache_lookup(c: &Vec<(String, i64)>, name: &str) -> (r: Option<i64>)
    ensures
        match r {
            Some(id) => cache_lookup(view_cab_cache(c@), name@) == Some(id as int),
            None => cache_lookup(view_cab_cache(c@), name@) is None,
        },
{
    let ghost m = view_cab_cache(c@);
    proof {
        assert(m.skip(0) =~= m);
    }
    let n = c.len();
    for i in 0..n
        invariant
            n == c@.len(),
            m == view_cab_cache(c@),
            m.len() == n,
            cache_lookup(m, name@) == cache_lookup(m.skip(i as int), name@),
    {
        proof {
            assert(m.skip(i as int)[0] == m[i as int]);
            assert(m.skip(i as int).drop_first() =~= m.skip(i as int + 1));
        }
        if str_eq(c[i].0.as_str(), name) {
            return Some(c[i].1);
        }
    }
    proof {
        assert(m.skip(n as int).len() == 0);
    }
    None
}

fn shelf_cache_lookup_exec(c: &Vec<(i64, String, i64)>, cabinet_id: i64, name: &str) -> (r: Option<
    i64,
>)
    ensures
        match r {
            Some(id) => shelf_cache_lookup(view_shelf_cache(c@), cabinet_id as int, name@) == Some(
                id as int,
            ),
            None => shelf_cache_lookup(view_shelf_cache(c@), cabinet_id as int, name@) is None,
        },
{
    let ghost m = view_shelf_cache(c@);
    proof {
        assert(m.skip(0) =~= m);
    }
    let n = c.len();
    for i in 0..n
        invariant
            n == c@.len(),
            m == view_shelf_cache(c@),
            m.len() == n,
            shelf_cache_lookup(m, cabinet_id as int, name@) == shelf_cache_lookup(
                m.skip(i as int),
                cabinet_id as int,
                name@,
            ),
    {
        proof {
            assert(m.skip(i as int)[0] == m[i as int]);
            assert(m.skip(i as int).drop_first() =~= m.skip(i as int + 1));
        }
        if c[i].0 == cabinet_id && str_eq(c[i].1.as_str(), name) {
            return Some(c[i].2);
        }
    }
    proof {
        assert(m.skip(n as int).len() == 0);
    }
    None
}

fn resolve_cabinet_exec(
    work: &mut Database,
    cc: &mut Vec<(String, i64)>,
    a: &CabinetAssignment,
    ts: &str,
) -> (r: Result<i64, BatchError>)
    requires
        old(work)@.wf(),
    ensures
        final(work)@.wf(),
        match r {
            Ok(id) => resolve_cabinet(old(work)@, view_cab_cache(old(cc)@), a@, ts@) == Ok::<
                _,
                BatchError,
            >((final(work)@, view_cab_cache(final(cc)@), id as int)),
            Err(e) => resolve_cabinet(old(work)@, view_cab_cache(old(cc)@), a@, ts@) == Err::<
                (StoreV, Seq<(Seq<char>, int)>, int),
                _,
            >(e) && final(work)@ == old(work)@ && final(cc)@ == old(cc)@,
        },
{
    if str_eq(a.assignment_type.as_str(), "existing") {
        if a.existing_id == 0 {
            return Err(BatchError::Cabinet(AssignmentError::ZeroId));
        }
        if !work.cabinet_exists(a.existing_id) {
            return Err(BatchError::Cabinet(AssignmentError::Unresolved));
        }
        Ok(a.existing_id)
    } else if str_eq(a.assignment_type.as_str(), "new") {
        if a.new_name.as_str().is_empty() || a.new_description.as_str().is_empty() {
            return Err(BatchError::Cabinet(AssignmentError::EmptyNew));
        }
        match cab_cache_lookup(cc, a.new_name.as_str()) {
            Some(id) => Ok(id),
            None => {
                match work.create_cabinet_at(a.new_name.as_str(), a.new_description.as_str(), ts) {
                    Ok(id) => {
                        let ghost prev = cc@;
                        cc.push((a.new_name.clone(), id));
                        proof {
                            assert(view_cab_cache(cc@) =~= view_cab_cache(prev).push(
                                (a.new_name@, id as int),
                            ));
                        }
                        Ok(id)
                    },
                    Err(e) => Err(BatchError::Store(e)),
                }
            },
        }
    } else {
        Err(BatchError::Cabinet(AssignmentError::InvalidType))
    }
}

fn resolve_shelf_exec(
    work: &mut Database,
    sc: &mut Vec<(i64, String, i64)>,
    cabinet_id: i64,
    a: &ShelfAssignment,
    ts: &str,
) -> (r: Result<i64, BatchError>)
    requires
        old(work)@.wf(),
    ensures
        final(work)@.wf(),
        match r {
            Ok(id) => resolve_shelf(
                old(work)@,
                view_shelf_cache(old(sc)@),
                cabinet_id as int,
                a@,
                ts@,
            ) == Ok::<_, BatchError>((final(work)@, view_shelf_cache(final(sc)@), id as int)),
            Err(e) => resolve_shelf(
                old(work)@,
                view_shelf_cache(old(sc)@),
                cabinet_id as int,
                a@,
                ts@,
            ) == Err::<(StoreV, Seq<(int, Seq<char>, int)>, int), _>(e) && final(work)@ == old(
                work,
            )@ && final(sc)@ == old(sc)@,
        },
{
    if str_eq(a.assignment_type.as_str(), "existing") {
        if a.existing_id == 0 {
            return Err(BatchError::Shelf(AssignmentError::ZeroId));
        }
        if !work.shelf_exists(a.existing_id) {
            return Err(BatchError::Shelf(AssignmentError::Unresolved));
        }
        Ok(a.existing_id)
    } else if str_eq(a.assignment_type.as_str(), "new") {
        if a.new_name.as_str().is_empty() || a.new_description.as_str().is_empty() {
            return Err(BatchError::Shelf(AssignmentError::EmptyNew));
        }
        match shelf_cache_lookup_exec(sc, cabinet_id, a.new_name.as_str()) {
            Some(id) => Ok(id),
            None => {
                match work.create_shelf_at(
                    cabinet_id,
                    a.new_name.as_str(),
                    a.new_description.as_str(),
                    ts,
                ) {
                    Ok(id) => {
                        let ghost prev = sc@;
                        sc.push((cabinet_id, a.new_name.clone(), id));
                        proof {
                            assert(view_shelf_cache(sc@) =~= view_shelf_cache(prev).push(
                                (cabinet_id as int, a.new_name@, id as int),
                            ));
                        }
                        Ok(id)
                    },
                    Err(e) => Err(BatchError::Store(e)),
                }
            },
        }
    } else {
        Err(BatchError::Shelf(AssignmentError::InvalidType))
    }
}

fn build_item_row(item: &ProcessingItem, analysis: &ItemAnalysis, shelf_id: i64, now: &str) -> (r:
    Item)
    ensures
        r@ == spec_item_row(item@, analysis@, shelf_id as int, now@),
{
    let (path, original_name, file_type) = match item {
        ProcessingItem::File(f) => (f.path.clone(), f.name.clone(), f.file_type.clone()),
        ProcessingItem::Directory(d) => (d.path.clone(), d.name.clone(), "directory".to_owned()),
    };
    let is_opaque_dir = match item {
        ProcessingItem::Directory(d) => BatchProcessor::is_likely_opaque_directory(
            d.name.as_str(),
            d.sampled_items.as_slice(),
        ),
        _ => false,
    };
    let suggested_name = if analysis.suggested_name.as_str().is_empty() {
        None
    } else {
        Some(analysis.suggested_name.clone())
    };
    Item {
        id: None,
        shelf_id,
        path,
        original_name,
        suggested_name,
        description: analysis.description.clone(),
        file_type,
        is_opaque_dir,
        processed_at: now.to_owned(),
    }
}

impl BatchProcessor {
    /// Validate one oracle response against its batch and commit it to the
    /// store with an explicit timestamp, all-or-nothing: on any error the
    /// store is exactly as it was, and the result is precisely what the
    /// commit fold says of the inputs.
    pub fn store_batch_results_at(
        db: &mut Database,
        items: &Vec<ProcessingItem>,
        response: &BatchAnalysisResponse,
        now: &str,
    ) -> (r: Result<(), BatchError>)
        requires
            old(db)@.wf(),
        ensures
            final(db)@.wf(),
            match r {
                Ok(_) => spec_commit_batch(
                    old(db)@,
                    view_processing_items(items@),
                    view_analyses(response.items@),
                    now@,
                ) == Ok::<StoreV, BatchError>(final(db)@),
                Err(e) => spec_commit_batch(
                    old(db)@,
                    view_processing_items(items@),
                    view_analyses(response.items@),
                    now@,
                ) == Err::<StoreV, BatchError>(e) && final(db)@ == old(db)@,
            },
    {
        let ghost itemsv = view_processing_items(items@);
        let ghost analysesv = view_analyses(response.items@);
        let n = items.len();
        if response.items.len() != n {
            return Err(BatchError::CountMismatch);
        }
        for i in 0..n
            invariant
                n == items@.len(),
                n == response.items@.len(),
                itemsv == view_processing_items(items@),
                analysesv == view_analyses(response.items@),
                analysesv.len() == n,
                old(db)@.wf(),
                db@ == old(db)@,
                forall|j: int|
                    0 <= j < i ==> (#[trigger] analysesv[j]).id == crate::text::dec_str(j as nat),
        {
            let expected = crate::text::u64_to_string(i as u64);
            if !str_eq(response.items[i].id.as_str(), expected.as_str()) {
                proof {
                    assert(analysesv[i as int].id != crate::text::dec_str(i as nat));
                    assert(!ids_match(analysesv));
                }
                return Err(BatchError::IdMismatch);
            }
            proof {
                assert(analysesv[i as int].id == crate::text::dec_str(i as nat));
            }
        }
        proof {
            assert(ids_match(analysesv));
        }
        let mut work = db.clone();
        let mut cab_cache: Vec<(String, i64)> = Vec::new();
        let mut shelf_cache: Vec<(i64, String, i64)> = Vec::new();
        proof {
            assert(view_cab_cache(cab_cache@) =~= Seq::<(Seq<char>, int)>::empty());
            assert(view_shelf_cache(shelf_cache@) =~= Seq::<(int, Seq<char>, int)>::empty());
        }
        for i in 0..n
            invariant
                n == items@.len(),
                n == response.items@.len(),
                itemsv == view_processing_items(items@),
                analysesv == view_analyses(response.items@),
                analysesv.len() == n,
                ids_match(analysesv),
                work@.wf(),
                db@ == old(db)@,
                old(db)@.wf(),
                commit_from(
                    old(db)@,
                    Seq::empty(),
                    Seq::empty(),
                    itemsv,
                    analysesv,
                    now@,
                    0,
                ) == commit_from(
                    work@,
                    view_cab_cache(cab_cache@),
                    view_shelf_cache(shelf_cache@),
                    itemsv,
                    analysesv,
                    now@,
                    i as int,
                ),
        {
            let ghost store_pre = work@;
            let ghost cc_pre = view_cab_cache(cab_cache@);
            let ghost sc_pre = view_shelf_cache(shelf_cache@);
            proof {
                assert(itemsv[i as int] == items@[i as int]@);
                assert(analysesv[i as int] == response.items@[i as int]@);
            }
            let analysis = &response.items[i];
            let cabinet_id = match resolve_cabinet_exec(
                &mut work,
                &mut cab_cache,
                &analysis.cabinet,
                now,
            ) {
                Ok(id) => id,
                Err(e) => {
                    proof {
                        assert(commit_step(
                            store_pre,
                            cc_pre,
                            sc_pre,
                            itemsv[i as int],
                            analysesv[i as int],
                            now@,
                        ) == Err::<
                            (StoreV, Seq<(Seq<char>, int)>, Seq<(int, Seq<char>, int)>),
                            BatchError,
                        >(e));
                    }
                    return Err(e);
                },
            };
            let ghost store_mid = work@;
            let ghost cc_mid = view_cab_cache(cab_cache@);
            let shelf_id = match resolve_shelf_exec(
                &mut work,
                &mut shelf_cache,
                cabinet_id,
                &analysis.shelf,
                now,
            ) {
                Ok(id) => id,
                Err(e) => {
                    proof {
                        assert(commit_step(
                            store_pre,
                            cc_pre,
                            sc_pre,
                            itemsv[i as int],
                            analysesv[i as int],
                            now@,
                        ) == Err::<
                            (StoreV, Seq<(Seq<char>, int)>, Seq<(int, Seq<char>, int)>),
                            BatchError,
                        >(e));
                    }
                    return Err(e);
                },
            };
            let ghost store_mid2 = work@;
            let ghost sc_mid = view_shelf_cache(shelf_cache@);
            let row = build_item_row(&items[i], analysis, shelf_id, now);
            match work.insert_item(&row) {
                Ok(_) => {
                    proof {
                        assert(work@ == with_new_item(
                            store_mid2,
                            ItemV {
                                id: Some(store_mid2.next_item_id),
                                ..spec_item_row(
                                    itemsv[i as int],
                                    analysesv[i as int],
                                    shelf_id as int,
                                    now@,
                                )
                            },
                        ));
                        assert(commit_step(
                            store_pre,
                            cc_pre,
                            sc_pre,
                            itemsv[i as int],
                            analysesv[i as int],
                            now@,
                        ) == Ok::<_, BatchError>((work@, cc_mid, sc_mid)));
                    }
                },
                Err(e) => {
                    proof {
                        assert(commit_step(
                            store_pre,
                            cc_pre,
                            sc_pre,
                            itemsv[i as int],
                            analysesv[i as int],
                            now@,
                        ) == Err::<
                            (StoreV, Seq<(Seq<char>, int)>, Seq<(int, Seq<char>, int)>),
                            BatchError,
                        >(BatchError::Store(e)));
                    }
                    return Err(BatchError::Store(e));
                },
            }
        }
        *db = work;
        Ok(())
    }

    /// Validate one oracle response against its batch and commit it,
    /// stamping the batch with the current wall-clock time.
    pub fn store_batch_results(
        db: &mut Database,
        items: &Vec<ProcessingItem>,
        response: &BatchAnalysisResponse,
    ) -> (r: Result<(), BatchError>)
        requires
            old(db)@.wf(),
        ensures
            final(db)@.wf(),
            match r {
                Ok(_) => exists|ts: Seq<char>|
                    #[trigger] spec_commit_batch(
                        old(db)@,
                        view_processing_items(items@),
                        view_analyses(response.items@),
                        ts,
                    ) == Ok::<StoreV, BatchError>(final(db)@),
                Err(e) => (exists|ts: Seq<char>|
                    #[trigger] spec_commit_batch(
                        old(db)@,
                        view_processing_items(items@),
                        view_analyses(response.items@),
                        ts,
                    ) == Err::<StoreV, BatchError>(e)) && final(db)@ == old(db)@,
            },
    {
        let now = crate::database::now_rfc3339();
        let r = Self::store_batch_results_at(db, items, response, now.as_str());
        proof {
            let outcome = spec_commit_batch(
                old(db)@,
                view_processing_items(items@),
                view_analyses(response.items@),
                now@,
            );
            match r {
                Ok(_) => assert(outcome == Ok::<StoreV, BatchError>(db@)),
                Err(e) => assert(outcome == Err::<StoreV, BatchError>(e)),
            }
        }
        r
    }
}

proof fn lemma_commit_from_items(
    store: StoreV,
    cc: Seq<(Seq<char>, int)>,
    sc: Seq<(int, Seq<char>, int)>,
    items: Seq<ProcessingItemV>,
    analyses: Seq<ItemAnalysisV>,
    ts: Seq<char>,
    i: int,
    t: StoreV,
)
    requires
        0 <= i <= items.len(),
        analyses.len() == items.len(),
        commit_from(store, cc, sc, items, analyses, ts, i) == Ok::<StoreV, BatchError>(t),
    ensures
        t.items.len() == store.items.len() + (items.len() - i),
        forall|j: int| 0 <= j < store.items.len() ==> t.items[j] == store.items[j],
    decreases items.len() - i,
{
    if i < items.len() {
        let step = commit_step(store, cc, sc, items[i], analyses[i], ts);
        let (store2, cc2, sc2) = step->Ok_0;
        assert(store2.items.len() == store.items.len() + 1 && forall|j: int|
            0 <= j < store.items.len() ==> store2.items[j] == store.items[j]) by {
            let r_cab = resolve_cabinet(store, cc, analyses[i].cabinet, ts);
            let (s1, cc1, cabinet_id) = r_cab->Ok_0;
            assert(s1.items == store.items);
            let r_sh = resolve_shelf(s1, sc, cabinet_id, analyses[i].shelf, ts);
            let (s2, sc1, shelf_id) = r_sh->Ok_0;
            assert(s2.items == store.items);
        }
        lemma_commit_from_items(store2, cc2, sc2, items, analyses, ts, i + 1, t);
    }
}

/// One committed batch persists exactly one item row per input item: the
/// store's item table grows by the batch size, and every previously
/// recorded row stands untouched.
pub proof fn lemma_one_item_row_per_input(
    s: StoreV,
    items: Seq<ProcessingItemV>,
    analyses: Seq<ItemAnalysisV>,
    ts: Seq<char>,
    t: StoreV,
)
    requires
        spec_commit_batch(s, items, analyses, ts) == Ok::<StoreV, BatchError>(t),
    ensures
        t.items.len() == s.items.len() + items.len(),
        forall|j: int| 0 <= j < s.items.len() ==> t.items[j] == s.items[j],
{
    lemma_commit_from_items(
        s,
        Seq::empty(),
        Seq::empty(),
        items,
        analyses,
        ts,
        0,
        t,
    );
}

proof fn lemma_no_shelf_under_fresh_cabinet(s: StoreV, name: Seq<char>)
    requires
        s.wf(),
    ensures
        !s.has_shelf_name(s.next_cabinet_id, name),
        !s.has_shelf_in_cabinet(s.next_cabinet_id),
{
    assert forall|i: int| 0 <= i < s.shelves.len() implies (
    #[trigger] s.shelves[i]).cabinet_id != s.next_cabinet_id by {
        assert(s.has_cabinet_id(s.shelves[i].cabinet_id));
        let k = choose|k: int|
            0 <= k < s.cabinets.len() && (#[trigger] s.cabinets[k]).id == s.shelves[i].cabinet_id;
        assert(s.cabinets[k].id < s.next_cabinet_id);
    }
}

/// Batch-local deduplication of new cabinets: when two items of one batch
/// both ask for a new cabinet under the same name (each with a new shelf),
/// and the batch commits, exactly one cabinet row is created — the name was
/// free before, one row carries it after — and both committed items sit on
/// shelves of that single cabinet.
pub proof fn lemma_batch_local_cabinet_dedup(
    s: StoreV,
    items: Seq<ProcessingItemV>,
    analyses: Seq<ItemAnalysisV>,
    ts: Seq<char>,
    t: StoreV,
)
    requires
        s.wf(),
        items.len() == 2,
        analyses.len() == 2,
        analyses[0].cabinet.assignment_type == "new"@,
        analyses[1].cabinet.assignment_type == "new"@,
        analyses[0].cabinet.new_name == analyses[1].cabinet.new_name,
        analyses[0].shelf.assignment_type == "new"@,
        analyses[1].shelf.assignment_type == "new"@,
        spec_commit_batch(s, items, analyses, ts) == Ok::<StoreV, BatchError>(t),
    ensures
        !s.has_cabinet_name(analyses[0].cabinet.new_name),
        t.cabinets.len() == s.cabinets.len() + 1,
        t.cabinets.last().name == analyses[0].cabinet.new_name,
        t.items.len() == s.items.len() + 2,
        exists|k: int|
            0 <= k < t.shelves.len() && (#[trigger] t.shelves[k]).id == t.items[t.items.len()
                - 2].shelf_id && t.shelves[k].cabinet_id == t.cabinets.last().id,
        exists|k: int|
            0 <= k < t.shelves.len() && (#[trigger] t.shelves[k]).id == t.items[t.items.len()
                - 1].shelf_id && t.shelves[k].cabinet_id == t.cabinets.last().id,
{
    reveal_strlit("new");
    reveal_strlit("existing");
    assert("new"@ != "existing"@) by {
        assert("new"@.len() == 3);
        assert("existing"@.len() == 8);
    }
    let n = analyses[0].cabinet.new_name;
    let a0 = analyses[0];
    let a1 = analyses[1];
    let cid = s.next_cabinet_id;

    // step 0: the first judgment creates the cabinet and its shelf.
    let r_cab0 = resolve_cabinet(s, Seq::empty(), a0.cabinet, ts);
    assert(cache_lookup(Seq::empty(), n) is None);
    assert(!s.has_cabinet_name(n)) by {
        if s.has_cabinet_name(n) {
            assert(commit_from(s, Seq::empty(), Seq::empty(), items, analyses, ts, 0) is Err);
        }
    }
    let store1 = with_new_cabinet(s, cid, n, a0.cabinet.new_description, ts);
    let cc1 = Seq::<(Seq<char>, int)>::empty().push((n, cid));
    assert(r_cab0 == Ok::<_, BatchError>((store1, cc1, cid))) by {
        if a0.cabinet.new_name.len() == 0 || a0.cabinet.new_description.len() == 0 {
            assert(commit_from(s, Seq::empty(), Seq::empty(), items, analyses, ts, 0) is Err);
        }
        if s.next_cabinet_id == i64::MAX {
            assert(commit_from(s, Seq::empty(), Seq::empty(), items, analyses, ts, 0) is Err);
        }
    }
    assert(store1.cabinets.last().id == cid && store1.cabinets.last().name == n);
    assert(store1.has_cabinet_id(cid));

    lemma_no_shelf_under_fresh_cabinet(s, a0.shelf.new_name);
    assert(!store1.has_shelf_name(cid, a0.shelf.new_name)) by {
        if store1.has_shelf_name(cid, a0.shelf.new_name) {
            assert(s.has_shelf_name(cid, a0.shelf.new_name)) by {
                let k = choose|k: int|
                    0 <= k < store1.shelves.len() && (#[trigger] store1.shelves[k]).cabinet_id
                        == cid && store1.shelves[k].name == a0.shelf.new_name;
                assert(s.shelves[k].cabinet_id == cid && s.shelves[k].name == a0.shelf.new_name);
            }
        }
    }
    let sid0 = s.next_shelf_id;
    let shelf0 = ShelfV {
        id: sid0,
        cabinet_id: cid,
        name: a0.shelf.new_name,
        description: a0.shelf.new_description,
        created_at: ts,
    };
    let store2 = with_new_shelf(store1, shelf0);
    let sc1 = Seq::<(int, Seq<char>, int)>::empty().push((cid, a0.shelf.new_name, sid0));
    let r_sh0 = resolve_shelf(store1, Seq::empty(), cid, a0.shelf, ts);
    assert(shelf_cache_lookup(Seq::empty(), cid, a0.shelf.new_name) is None);
    assert(r_sh0 == Ok::<_, BatchError>((store2, sc1, sid0))) by {
        if a0.shelf.new_name.len() == 0 || a0.shelf.new_description.len() == 0 {
            assert(commit_from(s, Seq::empty(), Seq::empty(), items, analyses, ts, 0) is Err);
        }
        if store1.next_shelf_id == i64::MAX {
            assert(commit_from(s, Seq::empty(), Seq::empty(), items, analyses, ts, 0) is Err);
        }
    }
    assert(store2.has_shelf_id(sid0)) by {
        assert(store2.shelves.last().id == sid0);
    }
    let row0 = spec_item_row(items[0], a0, sid0, ts);
    let step0 = commit_step(s, Seq::empty(), Seq::empty(), items[0], a0, ts);
    let store3 = with_new_item(store2, ItemV { id: Some(store2.next_item_id), ..row0 });
    assert(step0 == Ok::<_, BatchError>((store3, cc1, sc1))) by {
        if store2.has_item_path(row0.path) {
            assert(commit_from(s, Seq::empty(), Seq::empty(), items, analyses, ts, 0) is Err);
        }
        if store2.next_item_id == i64::MAX {
            assert(commit_from(s, Seq::empty(), Seq::empty(), items, analyses, ts, 0) is Err);
        }
    }
    assert(commit_from(s, Seq::empty(), Seq::empty(), items, analyses, ts, 0) == commit_from(
        store3,
        cc1,
        sc1,
        items,
        analyses,
        ts,
        1,
    ));

    // step 1: the repeated new-cabinet name hits the batch-local cache.
    assert(cache_lookup(cc1, n) == Some(cid)) by {
        assert(cc1[0] == (n, cid));
    }
    let r_cab1 = resolve_cabinet(store3, cc1, a1.cabinet, ts);
    assert(r_cab1 == Ok::<_, BatchError>((store3, cc1, cid))) by {
        if a1.cabinet.new_name.len() == 0 || a1.cabinet.new_description.len() == 0 {
            assert(commit_from(store3, cc1, sc1, items, analyses, ts, 1) is Err);
        }
    }
    assert(store3.cabinets == s.cabinets.push(CabinetV {
        id: cid,
        name: n,
        description: a0.cabinet.new_description,
        created_at: ts,
    }));
    assert(store3.shelves == store1.shelves.push(shelf0));

    let r_sh1 = resolve_shelf(store3, sc1, cid, a1.shelf, ts);
    if a1.shelf.new_name == a0.shelf.new_name {
        // cache hit: the very shelf created for the first item.
        assert(shelf_cache_lookup(sc1, cid, a1.shelf.new_name) == Some(sid0)) by {
            assert(sc1[0] == (cid, a0.shelf.new_name, sid0));
        }
        assert(r_sh1 == Ok::<_, BatchError>((store3, sc1, sid0))) by {
            if a1.shelf.new_name.len() == 0 || a1.shelf.new_description.len() == 0 {
                assert(commit_from(store3, cc1, sc1, items, analyses, ts, 1) is Err);
            }
        }
        let row1 = spec_item_row(items[1], a1, sid0, ts);
        let store4 = with_new_item(store3, ItemV { id: Some(store3.next_item_id), ..row1 });
        assert(commit_step(store3, cc1, sc1, items[1], a1, ts) == Ok::<_, BatchError>(
            (store4, cc1, sc1),
        )) by {
            assert(store3.has_shelf_id(sid0)) by {
                assert(store3.shelves.last().id == sid0);
            }
            if store3.has_item_path(row1.path) {
                assert(commit_from(store3, cc1, sc1, items, analyses, ts, 1) is Err);
            }
            if store3.next_item_id == i64::MAX {
                assert(commit_from(store3, cc1, sc1, items, analyses, ts, 1) is Err);
            }
        }
        assert(commit_from(store4, cc1, sc1, items, analyses, ts, 2) == Ok::<StoreV, BatchError>(
            store4,
        ));
        assert(t == store4);
        assert(t.cabinets == s.cabinets.push(store1.cabinets.last()));
        assert(t.items.len() == s.items.len() + 2);
        assert(t.items[t.items.len() - 2].shelf_id == sid0);
        assert(t.items[t.items.len() - 1].shelf_id == sid0);
        let k = store1.shelves.len() as int;
        assert(t.shelves[k] == shelf0);
        assert(t.cabinets.last().id == cid);
    } else {
        // distinct shelf name: a second shelf is created, still under the
        // one cabinet from the cache.
        assert(shelf_cache_lookup(sc1, cid, a1.shelf.new_name) is None) by {
            assert(sc1[0] == (cid, a0.shelf.new_name, sid0));
            assert(sc1.drop_first().len() == 0);
            assert(shelf_cache_lookup(sc1.drop_first(), cid, a1.shelf.new_name) is None);
        }
        assert(store3.has_cabinet_id(cid)) by {
            assert(store3.cabinets.last().id == cid);
        }
        assert(!store3.has_shelf_name(cid, a1.shelf.new_name)) by {
            lemma_no_shelf_under_fresh_cabinet(s, a1.shelf.new_name);
            if store3.has_shelf_name(cid, a1.shelf.new_name) {
                let k = choose|k: int|
                    0 <= k < store3.shelves.len() && (#[trigger] store3.shelves[k]).cabinet_id
                        == cid && store3.shelves[k].name == a1.shelf.new_name;
                if k < s.shelves.len() {
                    assert(s.shelves[k].cabinet_id == cid && s.shelves[k].name
                        == a1.shelf.new_name);
                } else {
                    assert(store3.shelves[k] == shelf0);
                }
            }
        }
        let sid1 = store3.next_shelf_id;
        let shelf1 = ShelfV {
            id: sid1,
            cabinet_id: cid,
            name: a1.shelf.new_name,
            description: a1.shelf.new_description,
            created_at: ts,
        };
        let store4 = with_new_shelf(store3, shelf1);
        let sc2 = sc1.push((cid, a1.shelf.new_name, sid1));
        assert(r_sh1 == Ok::<_, BatchError>((store4, sc2, sid1))) by {
            if a1.shelf.new_name.len() == 0 || a1.shelf.new_description.len() == 0 {
                assert(commit_from(store3, cc1, sc1, items, analyses, ts, 1) is Err);
            }
            if store3.next_shelf_id == i64::MAX {
                assert(commit_from(store3, cc1, sc1, items, analyses, ts, 1) is Err);
            }
        }
        let row1 = spec_item_row(items[1], a1, sid1, ts);
        let store5 = with_new_item(store4, ItemV { id: Some(store4.next_item_id), ..row1 });
        assert(commit_step(store3, cc1, sc1, items[1], a1, ts) == Ok::<_, BatchError>(
            (store5, cc1, sc2),
        )) by {
            assert(store4.has_shelf_id(sid1)) by {
                assert(store4.shelves.last().id == sid1);
            }
            if store4.has_item_path(row1.path) {
                assert(commit_from(store3, cc1, sc1, items, analyses, ts, 1) is Err);
            }
            if store4.next_item_id == i64::MAX {
                assert(commit_from(store3, cc1, sc1, items, analyses, ts, 1) is Err);
            }
        }
        assert(commit_from(store5, cc1, sc2, items, analyses, ts, 2) == Ok::<StoreV, BatchError>(
            store5,
        ));
        assert(t == store5);
        assert(t.cabinets == s.cabinets.push(store1.cabinets.last()));
        assert(t.items.len() == s.items.len() + 2);
        assert(t.items[t.items.len() - 2].shelf_id == sid0);
        assert(t.items[t.items.len() - 1].shelf_id == sid1);
        let k0 = store1.shelves.len() as int;
        assert(t.shelves[k0] == shelf0);
        let k1 = t.shelves.len() - 1;
        assert(t.shelves[k1] == shelf1);
        assert(t.cabinets.last().id == cid);
    }
}

/// The names of the sampled children, in sample order.
pub open spec fn sample_names(items: Seq<SampledItemV>) -> Seq<Seq<char>> {
    items.map_values(|s: SampledItemV| s.name)
}

/// The request entry for one enriched item at one batch position: files
/// carry their extension, size and preview; directories carry their sampled
/// child names and the heuristic's verdict in the type tag.
pub open spec fn spec_item_metadata(idx: nat, item: ProcessingItemV) -> ItemMetadataV {
    match item {
        ProcessingItemV::File(f) => ItemMetadataV {
            id: crate::text::dec_str(idx),
            name: f.name,
            item_type: "file"@,
            extension: match f.extension {
                Some(e) => e,
                None => Seq::empty(),
            },
            size_bytes: f.size,
            sampled_contents: Seq::empty(),
            content_preview: match f.content_preview {
                Some(p) => p,
                None => Seq::empty(),
            },
        },
        ProcessingItemV::Directory(d) => ItemMetadataV {
            id: crate::text::dec_str(idx),
            name: d.name,
            item_type: if spec_opaque_directory(d.name, d.sampled_items) {
                "likely_opaque_directory"@
            } else {
                "directory"@
            },
            extension: Seq::empty(),
            size_bytes: 0,
            sampled_contents: sample_names(d.sampled_items),
            content_preview: Seq::empty(),
        },
    }
}

/// The whole oracle request for one batch: each item's entry at its
/// position, and the current catalog for reuse.
pub open spec fn spec_request(
    items: Seq<ProcessingItemV>,
    cabs: Seq<CabinetV>,
    shelves: Seq<ShelfV>,
) -> crate::models::BatchAnalysisRequestV {
    crate::models::BatchAnalysisRequestV {
        items: Seq::new(items.len(), |i: int| spec_item_metadata(i as nat, items[i])),
        existing_cabinets: cabs.map_values(
            |c: CabinetV| crate::models::CabinetInfoV {
                id: c.id,
                name: c.name,
                description: c.description,
            },
        ),
        existing_shelves: shelves.map_values(
            |sh: ShelfV| crate::models::ShelfInfoV {
                id: sh.id,
                cabinet_id: sh.cabinet_id,
                name: sh.name,
                description: sh.description,
            },
        ),
    }
}

impl BatchProcessor {
    /// Shape one enriched item into its request entry for position `idx`.
    pub fn build_item_metadata(idx: usize, item: &ProcessingItem) -> (r: ItemMetadata)
        ensures
            r@ == spec_item_metadata(idx as nat, item@),
    {
        let id = crate::text::u64_to_string(idx as u64);
        match item {
            ProcessingItem::File(f) => {
                let extension = match f.extension {
                    Some(ref e) => e.clone(),
                    None => String::new(),
                };
                let content_preview = match f.content_preview {
                    Some(ref p) => p.clone(),
                    None => String::new(),
                };
                let r = ItemMetadata {
                    id,
                    name: f.name.clone(),
                    item_type: "file".to_owned(),
                    extension,
                    size_bytes: f.size,
                    sampled_contents: Vec::new(),
                    content_preview,
                };
                proof {
                    assert(crate::models::view_string_seq(r.sampled_contents@) =~= Seq::<
                        Seq<char>,
                    >::empty());
                }
                r
            },
            ProcessingItem::Directory(d) => {
                let ghost names = sample_names(d@.sampled_items);
                let n = d.sampled_items.len();
                let mut sampled: Vec<String> = Vec::new();
                proof {
                    assert(crate::models::view_string_seq(sampled@) =~= names.subrange(0, 0));
                }
                for i in 0..n
                    invariant
                        n == d.sampled_items@.len(),
                        names == sample_names(d@.sampled_items),
                        names.len() == n,
                        crate::models::view_string_seq(sampled@) =~= names.subrange(0, i as int),
                {
                    let ghost prev = sampled@;
                    sampled.push(d.sampled_items[i].name.clone());
                    proof {
                        assert(sampled@ == prev.push(d.sampled_items@[i as int].name));
                        crate::models::lemma_view_string_seq_push(
                            prev,
                            d.sampled_items@[i as int].name,
                        );
                        assert(names[i as int] == d@.sampled_items[i as int].name);
                        assert(d@.sampled_items[i as int] == d.sampled_items@[i as int]@);
                        assert(crate::models::view_string_seq(sampled@) =~= names.subrange(
                            0,
                            i as int + 1,
                        ));
                    }
                }
                proof {
                    assert(names.subrange(0, n as int) =~= names);
                }
                let opaque = BatchProcessor::is_likely_opaque_directory(
                    d.name.as_str(),
                    d.sampled_items.as_slice(),
                );
                let item_type = if opaque {
                    "likely_opaque_directory".to_owned()
                } else {
                    "directory".to_owned()
                };
                ItemMetadata {
                    id,
                    name: d.name.clone(),
                    item_type,
                    extension: String::new(),
                    size_bytes: 0,
                    sampled_contents: sampled,
                    content_preview: String::new(),
                }
            },
        }
    }

    /// Shape one batch and the current catalog into the oracle request.
    pub fn build_batch_request(
        items: &Vec<ProcessingItem>,
        cabinets: &Vec<crate::database::Cabinet>,
        shelves: &Vec<crate::database::Shelf>,
    ) -> (r: BatchAnalysisRequest)
        ensures
            r@ == spec_request(
                view_processing_items(items@),
                crate::database::view_cabinets(cabinets@),
                crate::database::view_shelves(shelves@),
            ),
    {
        let ghost target = spec_request(
            view_processing_items(items@),
            crate::database::view_cabinets(cabinets@),
            crate::database::view_shelves(shelves@),
        );
        let n = items.len();
        let mut metadata: Vec<ItemMetadata> = Vec::new();
        proof {
            assert(crate::models::view_metadata(metadata@) =~= target.items.subrange(0, 0));
        }
        for i in 0..n
            invariant
                n == items@.len(),
                target == spec_request(
                    view_processing_items(items@),
                    crate::database::view_cabinets(cabinets@),
                    crate::database::view_shelves(shelves@),
                ),
                target.items.len() == n,
                crate::models::view_metadata(metadata@) =~= target.items.subrange(0, i as int),
        {
            let ghost prev = metadata@;
            let m = BatchProcessor::build_item_metadata(i, &items[i]);
            let ghost mg = m;
            metadata.push(m);
            proof {
                assert(metadata@ == prev.push(mg));
                crate::models::lemma_view_metadata_push(prev, mg);
                assert(view_processing_items(items@)[i as int] == items@[i as int]@);
                assert(mg@ == spec_item_metadata(i as nat, items@[i as int]@));
                assert(target.items[i as int] == mg@);
                assert(crate::models::view_metadata(metadata@) =~= target.items.subrange(
                    0,
                    i as int + 1,
                ));
            }
        }
        proof {
            assert(target.items.subrange(0, n as int) =~= target.items);
        }
        let cn = cabinets.len();
        let mut infos: Vec<CabinetInfo> = Vec::new();
        proof {
            assert(crate::models::view_cabinet_infos(infos@) =~= target.existing_cabinets.subrange(
                0,
                0,
            ));
        }
        for i in 0..cn
            invariant
                cn == cabinets@.len(),
                target == spec_request(
                    view_processing_items(items@),
                    crate::database::view_cabinets(cabinets@),
                    crate::database::view_shelves(shelves@),
                ),
                target.existing_cabinets.len() == cn,
                crate::models::view_cabinet_infos(infos@) =~= target.existing_cabinets.subrange(
                    0,
                    i as int,
                ),
        {
            let ghost prev = infos@;
            let c = &cabinets[i];
            let row = CabinetInfo {
                id: c.id,
                name: c.name.clone(),
                description: c.description.clone(),
            };
            let ghost rowg = row;
            infos.push(row);
            proof {
                assert(infos@ == prev.push(rowg));
                crate::models::lemma_view_cabinet_infos_push(prev, rowg);
                assert(crate::database::view_cabinets(cabinets@)[i as int]
                    == cabinets@[i as int]@);
                assert(target.existing_cabinets[i as int] == rowg@);
                assert(crate::models::view_cabinet_infos(infos@)
                    =~= target.existing_cabinets.subrange(0, i as int + 1));
            }
        }
        proof {
            assert(target.existing_cabinets.subrange(0, cn as int) =~= target.existing_cabinets);
        }
        let sn = shelves.len();
        let mut shelf_infos: Vec<ShelfInfo> = Vec::new();
        proof {
            assert(crate::models::view_shelf_infos(shelf_infos@)
                =~= target.existing_shelves.subrange(0, 0));
        }
        for i in 0..sn
            invariant
                sn == shelves@.len(),
                target == spec_request(
                    view_processing_items(items@),
                    crate::database::view_cabinets(cabinets@),
                    crate::database::view_shelves(shelves@),
                ),
                target.existing_shelves.len() == sn,
                crate::models::view_shelf_infos(shelf_infos@) =~= target.existing_shelves.subrange(
                    0,
                    i as int,
                ),
        {
            let ghost prev = shelf_infos@;
            let sh = &shelves[i];
            let row = ShelfInfo {
                id: sh.id,
                cabinet_id: sh.cabinet_id,
                name: sh.name.clone(),
                description: sh.description.clone(),
            };
            let ghost rowg = row;
            shelf_infos.push(row);
            proof {
                assert(shelf_infos@ == prev.push(rowg));
                crate::models::lemma_view_shelf_infos_push(prev, rowg);
                assert(crate::database::view_shelves(shelves@)[i as int] == shelves@[i as int]@);
                assert(target.existing_shelves[i as int] == rowg@);
                assert(crate::models::view_shelf_infos(shelf_infos@)
                    =~= target.existing_shelves.subrange(0, i as int + 1));
            }
        }
        proof {
            assert(target.existing_shelves.subrange(0, sn as int) =~= target.existing_shelves);
        }
        BatchAnalysisRequest {
            items: metadata,
            existing_cabinets: infos,
            existing_shelves: shelf_infos,
        }
    }
}

/// How many items one oracle call may carry.
pub const BATCH_SIZE: usize = 10;

/// Split `len` items into consecutive bounded batches: each range is
/// non-empty and at most `size` wide, the first starts at zero, each starts
/// where the previous one ended, and the last ends at `len`.
pub fn chunk_ranges(len: usize, size: usize) -> (r: Vec<(usize, usize)>)
    requires
        size > 0,
    ensures
        len == 0 ==> r@.len() == 0,
        len > 0 ==> r@.len() > 0,
        forall|k: int|
            0 <= k < r@.len() ==> (#[trigger] r@[k]).0 < r@[k].1 <= len && r@[k].1 - r@[k].0
                <= size,
        r@.len() > 0 ==> r@[0].0 == 0 && r@[r@.len() - 1].1 == len,
        forall|k: int| 0 < k < r@.len() ==> (#[trigger] r@[k]).0 == r@[k - 1].1,
{
    let mut out: Vec<(usize, usize)> = Vec::new();
    let mut start: usize = 0;
    while start < len
        invariant
            start <= len,
            size > 0,
            out@.len() == 0 ==> start == 0,
            out@.len() > 0 ==> chunks_chained(out@, len, size) && out@[out@.len() - 1].1 == start
                && out@[0].0 == 0,
        decreases len - start,
    {
        let end = if len - start < size {
            len
        } else {
            start + size
        };
        out.push((start, end));
        start = end;
    }
    out
}

/// The ranges are non-empty, bounded by `size`, and consecutive.
pub open spec fn chunks_chained(r: Seq<(usize, usize)>, len: usize, size: usize) -> bool {
    &&& forall|k: int|
        0 <= k < r.len() ==> (#[trigger] r[k]).0 < r[k].1 <= len && r[k].1 - r[k].0 <= size
    &&& forall|k: int| 0 < k < r.len() ==> (#[trigger] r[k]).0 == r[k - 1].1
}

/// Lines joined by a newline.
pub open spec fn spec_join_lines(lines: Seq<Seq<char>>) -> Seq<char>
    decreases lines.len(),
{
    if lines.len() == 0 {
        Seq::empty()
    } else if lines.len() == 1 {
        lines[0]
    } else {
        spec_join_lines(lines.drop_last()) + "\n"@ + lines.last()
    }
}

/// Parts joined by a comma and a space.
pub open spec fn spec_join_comma(parts: Seq<Seq<char>>) -> Seq<char>
    decreases parts.len(),
{
    if parts.len() == 0 {
        Seq::empty()
    } else if parts.len() == 1 {
        parts[0]
    } else {
        spec_join_comma(parts.drop_last()) + ", "@ + parts.last()
    }
}

/// One cabinet's line in the prompt catalog.
pub open spec fn spec_cabinet_line(c: crate::models::CabinetInfoV) -> Seq<char> {
    "- "@ + c.name + " (ID: "@ + crate::text::dec_str_i64(c.id) + "): "@ + c.description
}

/// The prompt's cabinet catalog: one line per cabinet, or a marker when
/// none exist yet.
pub open spec fn spec_format_cabinets(cabs: Seq<crate::models::CabinetInfoV>) -> Seq<char> {
    if cabs.len() == 0 {
        "None yet"@
    } else {
        spec_join_lines(cabs.map_values(|c: crate::models::CabinetInfoV| spec_cabinet_line(c)))
    }
}

/// One shelf's line in the prompt catalog.
pub open spec fn spec_shelf_line(sh: crate::models::ShelfInfoV) -> Seq<char> {
    "- Cabinet "@ + crate::text::dec_str_i64(sh.cabinet_id) + ", "@ + sh.name + " (ID: "@
        + crate::text::dec_str_i64(sh.id) + "): "@ + sh.description
}

/// The prompt's shelf catalog: one line per shelf, or a marker when none
/// exist yet.
pub open spec fn spec_format_shelves(shelves: Seq<crate::models::ShelfInfoV>) -> Seq<char> {
    if shelves.len() == 0 {
        "None yet"@
    } else {
        spec_join_lines(shelves.map_values(|sh: crate::models::ShelfInfoV| spec_shelf_line(sh)))
    }
}

/// One request item's line in the prompt: position, name and type, then its
/// extension, size, a bounded sample of directory contents, and the preview,
/// each only when present.
pub open spec fn spec_item_line(m: ItemMetadataV) -> Seq<char> {
    let head = m.id + ": "@ + m.name + " ("@ + m.item_type + ")"@;
    let with_ext = if m.extension.len() > 0 {
        head + "."@ + m.extension
    } else {
        head
    };
    let with_size = if m.size_bytes > 0 {
        with_ext + ", "@ + crate::text::dec_str(m.size_bytes) + " bytes"@
    } else {
        with_ext
    };
    let sample = if m.sampled_contents.len() <= 5 {
        m.sampled_contents
    } else {
        m.sampled_contents.subrange(0, 5)
    };
    let with_sample = if m.sampled_contents.len() > 0 {
        with_size + ", contains: ["@ + spec_join_comma(sample) + "...]"@
    } else {
        with_size
    };
    if m.content_preview.len() > 0 {
        with_sample + ", "@ + m.content_preview
    } else {
        with_sample
    }
}

/// The prompt's item listing: one line per request item.
pub open spec fn spec_format_items(items: Seq<ItemMetadataV>) -> Seq<char> {
    spec_join_lines(items.map_values(|m: ItemMetadataV| spec_item_line(m)))
}

fn item_line(m: &ItemMetadata) -> (r: String)
    ensures
        r@ == spec_item_line(m@),
{
    let mut out: String = m.id.clone();
    out.append(": ");
    out.append(m.name.as_str());
    out.append(" (");
    out.append(m.item_type.as_str());
    out.append(")");
    if !m.extension.as_str().is_empty() {
        out.append(".");
        out.append(m.extension.as_str());
    }
    if m.size_bytes > 0 {
        out.append(", ");
        out.append(crate::text::u64_to_string(m.size_bytes).as_str());
        out.append(" bytes");
    }
    if m.sampled_contents.len() > 0 {
        let ghost contents = crate::models::view_string_seq(m.sampled_contents@);
        let ghost sample = if contents.len() <= 5 {
            contents
        } else {
            contents.subrange(0, 5)
        };
        out.append(", contains: [");
        let limit = if m.sampled_contents.len() <= 5 {
            m.sampled_contents.len()
        } else {
            5
        };
        proof {
            if contents.len() <= 5 {
                assert(sample =~= contents.subrange(0, limit as int));
            }
        }
        let ghost before = out@;
        for k in 0..limit
            invariant
                limit <= m.sampled_contents@.len(),
                limit <= 5,
                contents == crate::models::view_string_seq(m.sampled_contents@),
                contents.len() == m.sampled_contents@.len(),
                sample == (if contents.len() <= 5 {
                    contents
                } else {
                    contents.subrange(0, 5)
                }),
                sample =~= contents.subrange(0, limit as int),
                out@ == before + spec_join_comma(sample.subrange(0, k as int)),
        {
            if k > 0 {
                out.append(", ");
            }
            out.append(m.sampled_contents[k].as_str());
            proof {
                let sub = sample.subrange(0, k as int + 1);
                assert(sub.drop_last() =~= sample.subrange(0, k as int));
                assert(sub.last() == contents[k as int]);
                assert(contents[k as int] == m.sampled_contents@[k as int]@);
                if k == 0 {
                    assert(Seq::<char>::empty() + sub.last() =~= sub.last());
                    assert(out@ == before + spec_join_comma(sub));
                }
            }
        }
        proof {
            assert(sample.subrange(0, limit as int) =~= sample);
        }
        out.append("...]");
    }
    if !m.content_preview.as_str().is_empty() {
        out.append(", ");
        out.append(m.content_preview.as_str());
    }
    out
}

impl BatchProcessor {
    /// Render the cabinet catalog for the oracle prompt.
    pub fn format_cabinets(cabinets: &[CabinetInfo]) -> (r: String)
        ensures
            r@ == spec_format_cabinets(crate::models::view_cabinet_infos(cabinets@)),
    {
        let ghost cabsv = crate::models::view_cabinet_infos(cabinets@);
        let ghost lines = cabsv.map_values(
            |c: crate::models::CabinetInfoV| spec_cabinet_line(c),
        );
        let n = cabinets.len();
        if n == 0 {
            return "None yet".to_owned();
        }
        let mut out = String::new();
        for i in 0..n
            invariant
                n == cabinets@.len(),
                n > 0,
                cabsv == crate::models::view_cabinet_infos(cabinets@),
                lines == cabsv.map_values(
                    |c: crate::models::CabinetInfoV| spec_cabinet_line(c),
                ),
                lines.len() == n,
                out@ == spec_join_lines(lines.subrange(0, i as int)),
        {
            if i > 0 {
                out.append("\n");
            }
            let c = &cabinets[i];
            out.append("- ");
            out.append(c.name.as_str());
            out.append(" (ID: ");
            out.append(crate::text::i64_to_string(c.id).as_str());
            out.append("): ");
            out.append(c.description.as_str());
            proof {
                let sub = lines.subrange(0, i as int + 1);
                assert(sub.drop_last() =~= lines.subrange(0, i as int));
                assert(sub.last() == lines[i as int]);
                assert(cabsv[i as int] == cabinets@[i as int]@);
                assert(lines[i as int] == spec_cabinet_line(cabsv[i as int]));
                if i == 0 {
                    assert(Seq::<char>::empty() + sub.last() =~= sub.last());
                    assert(out@ =~= sub.last());
                }
                assert(out@ == spec_join_lines(sub));
            }
        }
        proof {
            assert(lines.subrange(0, n as int) =~= lines);
        }
        out
    }

    /// Render the shelf catalog for the oracle prompt.
    pub fn format_shelves(shelves: &[ShelfInfo]) -> (r: String)
        ensures
            r@ == spec_format_shelves(crate::models::view_shelf_infos(shelves@)),
    {
        let ghost shelvesv = crate::models::view_shelf_infos(shelves@);
        let ghost lines = shelvesv.map_values(
            |sh: crate::models::ShelfInfoV| spec_shelf_line(sh),
        );
        let n = shelves.len();
        if n == 0 {
            return "None yet".to_owned();
        }
        let mut out = String::new();
        for i in 0..n
            invariant
                n == shelves@.len(),
                n > 0,
                shelvesv == crate::models::view_shelf_infos(shelves@),
                lines == shelvesv.map_values(
                    |sh: crate::models::ShelfInfoV| spec_shelf_line(sh),
                ),
                lines.len() == n,
                out@ == spec_join_lines(lines.subrange(0, i as int)),
        {
            if i > 0 {
                out.append("\n");
            }
            let sh = &shelves[i];
            out.append("- Cabinet ");
            out.append(crate::text::i64_to_string(sh.cabinet_id).as_str());
            out.append(", ");
            out.append(sh.name.as_str());
            out.append(" (ID: ");
            out.append(crate::text::i64_to_string(sh.id).as_str());
            out.append("): ");
            out.append(sh.description.as_str());
            proof {
                let sub = lines.subrange(0, i as int + 1);
                assert(sub.drop_last() =~= lines.subrange(0, i as int));
                assert(sub.last() == lines[i as int]);
                assert(shelvesv[i as int] == shelves@[i as int]@);
                assert(lines[i as int] == spec_shelf_line(shelvesv[i as int]));
                if i == 0 {
                    assert(Seq::<char>::empty() + sub.last() =~= sub.last());
                    assert(out@ =~= sub.last());
                }
                assert(out@ == spec_join_lines(sub));
            }
        }
        proof {
            assert(lines.subrange(0, n as int) =~= lines);
        }
        out
    }

    /// Render the item listing for the oracle prompt.
    pub fn format_items(items: &[ItemMetadata]) -> (r: String)
        ensures
            r@ == spec_format_items(crate::models::view_metadata(items@)),
    {
        let ghost itemsv = crate::models::view_metadata(items@);
        let ghost lines = itemsv.map_values(|m: ItemMetadataV| spec_item_line(m));
        let n = items.len();
        let mut out = String::new();
        proof {
            assert(lines.subrange(0, 0) =~= Seq::<Seq<char>>::empty());
        }
        for i in 0..n
            invariant
                n == items@.len(),
                itemsv == crate::models::view_metadata(items@),
                lines == itemsv.map_values(|m: ItemMetadataV| spec_item_line(m)),
                lines.len() == n,
                out@ == spec_join_lines(lines.subrange(0, i as int)),
        {
            if i > 0 {
                out.append("\n");
            }
            let line = item_line(&items[i]);
            out.append(line.as_str());
            proof {
                let sub = lines.subrange(0, i as int + 1);
                assert(sub.drop_last() =~= lines.subrange(0, i as int));
                assert(sub.last() == lines[i as int]);
                assert(itemsv[i as int] == items@[i as int]@);
                assert(lines[i as int] == spec_item_line(itemsv[i as int]));
                if i == 0 {
                    assert(Seq::<char>::empty() + sub.last() =~= sub.last());
                    assert(out@ =~= sub.last());
                }
                assert(out@ == spec_join_lines(sub));
            }
        }
        proof {
            assert(lines.subrange(0, n as int) =~= lines);
        }
        out
    }
}

} // verus!