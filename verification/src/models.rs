//! The data shapes that flow through the pipeline: enriched scan records,
//! the classification request and response, and the derived reorganization
//! plan.
use vstd::prelude::*;

verus! {

/// One sampled child of a scanned directory.
pub struct SampledItem {
    pub name: String,
    pub is_file: bool,
    pub extension: Option<String>,
}

/// Mathematical image of a `SampledItem`.
pub struct SampledItemV {
    pub name: Seq<char>,
    pub is_file: bool,
    pub extension: Option<Seq<char>>,
}

impl View for SampledItem {
    type V = SampledItemV;

    open spec fn view(&self) -> SampledItemV {
        SampledItemV {
            name: self.name@,
            is_file: self.is_file,
            extension: match self.extension {
                Some(ref e) => Some(e@),
                None => None,
            },
        }
    }
}

impl Clone for SampledItem {
    fn clone(&self) -> (c: Self)
        ensures
            c == *self,
    {
        SampledItem {
            name: self.name.clone(),
            is_file: self.is_file,
            extension: match self.extension {
                Some(ref e) => Some(e.clone()),
                None => None,
            },
        }
    }
}

/// A file readied for classification: metadata and a bounded preview.
pub struct EnrichedFile {
    pub path: String,
    pub name: String,
    pub extension: Option<String>,
    pub file_type: String,
    pub size: u64,
    pub content_preview: Option<String>,
}

/// Mathematical image of an `EnrichedFile`.
pub struct EnrichedFileV {
    pub path: Seq<char>,
    pub name: Seq<char>,
    pub extension: Option<Seq<char>>,
    pub file_type: Seq<char>,
    pub size: nat,
    pub content_preview: Option<Seq<char>>,
}

impl View for EnrichedFile {
    type V = EnrichedFileV;

    open spec fn view(&self) -> EnrichedFileV {
        EnrichedFileV {
            path: self.path@,
            name: self.name@,
            extension: match self.extension {
                Some(ref e) => Some(e@),
                None => None,
            },
            file_type: self.file_type@,
            size: self.size as nat,
            content_preview: match self.content_preview {
                Some(ref p) => Some(p@),
                None => None,
            },
        }
    }
}

/// A directory readied for classification: its name and a bounded sample of
/// its children.
pub struct EnrichedDirectory {
    pub path: String,
    pub name: String,
    pub sampled_items: Vec<SampledItem>,
}

/// Mathematical image of an `EnrichedDirectory`.
pub struct EnrichedDirectoryV {
    pub path: Seq<char>,
    pub name: Seq<char>,
    pub sampled_items: Seq<SampledItemV>,
}

/// The views of a sequence of sampled children.
pub open spec fn view_samples(v: Seq<SampledItem>) -> Seq<SampledItemV> {
    v.map_values(|s: SampledItem| s@)
}

impl View for EnrichedDirectory {
    type V = EnrichedDirectoryV;

    open spec fn view(&self) -> EnrichedDirectoryV {
        EnrichedDirectoryV {
            path: self.path@,
            name: self.name@,
            sampled_items: view_samples(self.sampled_items@),
        }
    }
}

impl Clone for EnrichedFile {
    fn clone(&self) -> (c: Self)
        ensures
            c == *self,
    {
        EnrichedFile {
            path: self.path.clone(),
            name: self.name.clone(),
            extension: match self.extension {
                Some(ref e) => Some(e.clone()),
                None => None,
            },
            file_type: self.file_type.clone(),
            size: self.size,
            content_preview: match self.content_preview {
                Some(ref p) => Some(p.clone()),
                None => None,
            },
        }
    }
}

/// One candidate path after enrichment: a file or a directory.
pub enum ProcessingItem {
    File(EnrichedFile),
    Directory(EnrichedDirectory),
}

/// Mathematical image of a `ProcessingItem`.
pub enum ProcessingItemV {
    File(EnrichedFileV),
    Directory(EnrichedDirectoryV),
}

impl View for ProcessingItem {
    type V = ProcessingItemV;

    open spec fn view(&self) -> ProcessingItemV {
        match self {
            ProcessingItem::File(f) => ProcessingItemV::File(f@),
            ProcessingItem::Directory(d) => ProcessingItemV::Directory(d@),
        }
    }
}

/// The views of a sequence of processing items.
pub open spec fn view_processing_items(v: Seq<ProcessingItem>) -> Seq<ProcessingItemV> {
    v.map_values(|p: ProcessingItem| p@)
}

impl Clone for EnrichedDirectory {
    fn clone(&self) -> (c: Self)
        ensures
            c@ == self@,
    {
        let n = self.sampled_items.len();
        let mut sampled: Vec<SampledItem> = Vec::new();
        for i in 0..n
            invariant
                n == self.sampled_items@.len(),
                sampled@.len() == i,
                forall|j: int| 0 <= j < i ==> #[trigger] sampled@[j] == self.sampled_items@[j],
        {
            sampled.push(self.sampled_items[i].clone());
        }
        let c = EnrichedDirectory {
            path: self.path.clone(),
            name: self.name.clone(),
            sampled_items: sampled,
        };
        proof {
            assert(c.sampled_items@ =~= self.sampled_items@);
        }
        c
    }
}

impl Clone for ProcessingItem {
    fn clone(&self) -> (c: Self)
        ensures
            c@ == self@,
    {
        match self {
            ProcessingItem::File(f) => ProcessingItem::File(f.clone()),
            ProcessingItem::Directory(d) => ProcessingItem::Directory(d.clone()),
        }
    }
}

/// One item of the classification request, as handed to the oracle.
pub struct ItemMetadata {
    pub id: String,
    pub name: String,
    pub item_type: String,
    pub extension: String,
    pub size_bytes: u64,
    pub sampled_contents: Vec<String>,
    pub content_preview: String,
}

/// Mathematical image of an `ItemMetadata`.
pub struct ItemMetadataV {
    pub id: Seq<char>,
    pub name: Seq<char>,
    pub item_type: Seq<char>,
    pub extension: Seq<char>,
    pub size_bytes: nat,
    pub sampled_contents: Seq<Seq<char>>,
    pub content_preview: Seq<char>,
}

/// The views of a sequence of strings.
pub open spec fn view_string_seq(v: Seq<String>) -> Seq<Seq<char>> {
    v.map_values(|s: String| s@)
}

impl View for ItemMetadata {
    type V = ItemMetadataV;

    open spec fn view(&self) -> ItemMetadataV {
        ItemMetadataV {
            id: self.id@,
            name: self.name@,
            item_type: self.item_type@,
            extension: self.extension@,
            size_bytes: self.size_bytes as nat,
            sampled_contents: view_string_seq(self.sampled_contents@),
            content_preview: self.content_preview@,
        }
    }
}

/// A cabinet as offered to the oracle for reuse.
pub struct CabinetInfo {
    pub id: i64,
    pub name: String,
    pub description: String,
}

/// Mathematical image of a `CabinetInfo`.
pub struct CabinetInfoV {
    pub id: int,
    pub name: Seq<char>,
    pub description: Seq<char>,
}

impl View for CabinetInfo {
    type V = CabinetInfoV;

    open spec fn view(&self) -> CabinetInfoV {
        CabinetInfoV { id: self.id as int, name: self.name@, description: self.description@ }
    }
}

/// A shelf as offered to the oracle for reuse.
pub struct ShelfInfo {
    pub id: i64,
    pub cabinet_id: i64,
    pub name: String,
    pub description: String,
}

/// Mathematical image of a `ShelfInfo`.
pub struct ShelfInfoV {
    pub id: int,
    pub cabinet_id: int,
    pub name: Seq<char>,
    pub description: Seq<char>,
}

impl View for ShelfInfo {
    type V = ShelfInfoV;

    open spec fn view(&self) -> ShelfInfoV {
        ShelfInfoV {
            id: self.id as int,
            cabinet_id: self.cabinet_id as int,
            name: self.name@,
            description: self.description@,
        }
    }
}

/// One oracle call's input: the batch plus the current catalog.
pub struct BatchAnalysisRequest {
    pub items: Vec<ItemMetadata>,
    pub existing_cabinets: Vec<CabinetInfo>,
    pub existing_shelves: Vec<ShelfInfo>,
}

/// Mathematical image of a `BatchAnalysisRequest`.
pub struct BatchAnalysisRequestV {
    pub items: Seq<ItemMetadataV>,
    pub existing_cabinets: Seq<CabinetInfoV>,
    pub existing_shelves: Seq<ShelfInfoV>,
}

/// The views of a sequence of request items.
pub open spec fn view_metadata(v: Seq<ItemMetadata>) -> Seq<ItemMetadataV> {
    v.map_values(|m: ItemMetadata| m@)
}

/// The views of a sequence of cabinet summaries.
pub open spec fn view_cabinet_infos(v: Seq<CabinetInfo>) -> Seq<CabinetInfoV> {
    v.map_values(|c: CabinetInfo| c@)
}

/// The views of a sequence of shelf summaries.
pub open spec fn view_shelf_infos(v: Seq<ShelfInfo>) -> Seq<ShelfInfoV> {
    v.map_values(|sh: ShelfInfo| sh@)
}

impl View for BatchAnalysisRequest {
    type V = BatchAnalysisRequestV;

    open spec fn view(&self) -> BatchAnalysisRequestV {
        BatchAnalysisRequestV {
            items: view_metadata(self.items@),
            existing_cabinets: view_cabinet_infos(self.existing_cabinets@),
            existing_shelves: view_shelf_infos(self.existing_shelves@),
        }
    }
}

/// How the oracle assigned an item to a cabinet: reuse by id, or a new one
/// by name and description.
pub struct CabinetAssignment {
    pub assignment_type: String,
    pub existing_id: i64,
    pub new_name: String,
    pub new_description: String,
}

/// Mathematical image of a `CabinetAssignment`.
pub struct CabinetAssignmentV {
    pub assignment_type: Seq<char>,
    pub existing_id: int,
    pub new_name: Seq<char>,
    pub new_description: Seq<char>,
}

impl View for CabinetAssignment {
    type V = CabinetAssignmentV;

    open spec fn view(&self) -> CabinetAssignmentV {
        CabinetAssignmentV {
            assignment_type: self.assignment_type@,
            existing_id: self.existing_id as int,
            new_name: self.new_name@,
            new_description: self.new_description@,
        }
    }
}

/// How the oracle assigned an item to a shelf: reuse by id, or a new one by
/// name and description.
pub struct ShelfAssignment {
    pub assignment_type: String,
    pub existing_id: i64,
    pub new_name: String,
    pub new_description: String,
}

/// Mathematical image of a `ShelfAssignment`.
pub struct ShelfAssignmentV {
    pub assignment_type: Seq<char>,
    pub existing_id: int,
    pub new_name: Seq<char>,
    pub new_description: Seq<char>,
}

impl View for ShelfAssignment {
    type V = ShelfAssignmentV;

    open spec fn view(&self) -> ShelfAssignmentV {
        ShelfAssignmentV {
            assignment_type: self.assignment_type@,
            existing_id: self.existing_id as int,
            new_name: self.new_name@,
            new_description: self.new_description@,
        }
    }
}

/// The oracle's judgment of one item.
pub struct ItemAnalysis {
    pub id: String,
    pub description: String,
    pub suggested_name: String,
    pub is_opaque_directory: bool,
    pub cabinet: CabinetAssignment,
    pub shelf: ShelfAssignment,
}

/// Mathematical image of an `ItemAnalysis`.
pub struct ItemAnalysisV {
    pub id: Seq<char>,
    pub description: Seq<char>,
    pub suggested_name: Seq<char>,
    pub is_opaque_directory: bool,
    pub cabinet: CabinetAssignmentV,
    pub shelf: ShelfAssignmentV,
}

impl View for ItemAnalysis {
    type V = ItemAnalysisV;

    open spec fn view(&self) -> ItemAnalysisV {
        ItemAnalysisV {
            id: self.id@,
            description: self.description@,
            suggested_name: self.suggested_name@,
            is_opaque_directory: self.is_opaque_directory,
            cabinet: self.cabinet@,
            shelf: self.shelf@,
        }
    }
}

/// One oracle call's output: one judgment per request item, in request
/// order.
pub struct BatchAnalysisResponse {
    pub items: Vec<ItemAnalysis>,
}

/// Mathematical image of a `BatchAnalysisResponse`.
pub struct BatchAnalysisResponseV {
    pub items: Seq<ItemAnalysisV>,
}

/// The views of a sequence of oracle judgments.
pub open spec fn view_analyses(v: Seq<ItemAnalysis>) -> Seq<ItemAnalysisV> {
    v.map_values(|a: ItemAnalysis| a@)
}

impl View for BatchAnalysisResponse {
    type V = BatchAnalysisResponseV;

    open spec fn view(&self) -> BatchAnalysisResponseV {
        BatchAnalysisResponseV { items: view_analyses(self.items@) }
    }
}

/// One shelf of the derived plan, with how many items it will receive.
pub struct ShelfPlan {
    pub name: String,
    pub description: String,
    pub item_count: usize,
}

/// Mathematical image of a `ShelfPlan`.
pub struct ShelfPlanV {
    pub name: Seq<char>,
    pub description: Seq<char>,
    pub item_count: nat,
}

impl View for ShelfPlan {
    type V = ShelfPlanV;

    open spec fn view(&self) -> ShelfPlanV {
        ShelfPlanV {
            name: self.name@,
            description: self.description@,
            item_count: self.item_count as nat,
        }
    }
}

/// One cabinet of the derived plan with its shelves.
pub struct CabinetPlan {
    pub name: String,
    pub description: String,
    pub shelves: Vec<ShelfPlan>,
}

/// Mathematical image of a `CabinetPlan`.
pub struct CabinetPlanV {
    pub name: Seq<char>,
    pub description: Seq<char>,
    pub shelves: Seq<ShelfPlanV>,
}

/// The views of a sequence of shelf plans.
pub open spec fn view_shelf_plans(v: Seq<ShelfPlan>) -> Seq<ShelfPlanV> {
    v.map_values(|p: ShelfPlan| p@)
}

impl View for CabinetPlan {
    type V = CabinetPlanV;

    open spec fn view(&self) -> CabinetPlanV {
        CabinetPlanV {
            name: self.name@,
            description: self.description@,
            shelves: view_shelf_plans(self.shelves@),
        }
    }
}

/// One planned move: a recorded path to its cabinet/shelf destination,
/// with an optional rename and the stored description as rationale.
pub struct FileMovement {
    pub from: String,
    pub to_cabinet: String,
    pub to_shelf: String,
    pub new_name: Option<String>,
    pub reasoning: String,
}

/// Mathematical image of a `FileMovement`.
pub struct FileMovementV {
    pub from: Seq<char>,
    pub to_cabinet: Seq<char>,
    pub to_shelf: Seq<char>,
    pub new_name: Option<Seq<char>>,
    pub reasoning: Seq<char>,
}

impl View for FileMovement {
    type V = FileMovementV;

    open spec fn view(&self) -> FileMovementV {
        FileMovementV {
            from: self.from@,
            to_cabinet: self.to_cabinet@,
            to_shelf: self.to_shelf@,
            new_name: match self.new_name {
                Some(ref n) => Some(n@),
                None => None,
            },
            reasoning: self.reasoning@,
        }
    }
}

/// The whole derived plan: the category tree and the flat movement list.
pub struct OrganizationPlan {
    pub cabinets: Vec<CabinetPlan>,
    pub movements: Vec<FileMovement>,
}

/// Mathematical image of an `OrganizationPlan`.
pub struct OrganizationPlanV {
    pub cabinets: Seq<CabinetPlanV>,
    pub movements: Seq<FileMovementV>,
}

/// The views of a sequence of cabinet plans.
pub open spec fn view_cabinet_plans(v: Seq<CabinetPlan>) -> Seq<CabinetPlanV> {
    v.map_values(|p: CabinetPlan| p@)
}

/// The views of a sequence of planned moves.
pub open spec fn view_movements(v: Seq<FileMovement>) -> Seq<FileMovementV> {
    v.map_values(|m: FileMovement| m@)
}

impl View for OrganizationPlan {
    type V = OrganizationPlanV;

    open spec fn view(&self) -> OrganizationPlanV {
        OrganizationPlanV {
            cabinets: view_cabinet_plans(self.cabinets@),
            movements: view_movements(self.movements@),
        }
    }
}

/// The oracle's verdict on whether a file's current name is descriptive.
pub struct FileNameAnalysis {
    pub is_indicative: bool,
    pub reasoning: String,
}

/// A rename proposed for one file, with the reason.
pub struct SuggestedFileName {
    pub new_name: String,
    pub reasoning: String,
}

/// A classified file as summarized for reporting.
pub struct FileInfo {
    pub path: String,
    pub suggested_name: Option<String>,
    pub file_type: String,
    pub description: String,
}

/// One file's place in a proposed directory layout.
pub struct FilePlacement {
    pub original_path: String,
    pub new_directory: String,
    pub new_name: String,
    pub reasoning: String,
}

/// A proposed directory layout: the directories to create and where each
/// file lands.
pub struct DirectoryStructure {
    pub directories: Vec<String>,
    pub file_placements: Vec<FilePlacement>,
}

/// Extending a string sequence extends its views in step.
pub proof fn lemma_view_string_seq_push(prev: Seq<String>, x: String)
    ensures
        view_string_seq(prev.push(x)) =~= view_string_seq(prev).push(x@),
{
    assert forall|j: int| 0 <= j < prev.len() + 1 implies view_string_seq(prev.push(x))[j]
        == view_string_seq(prev).push(x@)[j] by {
        if j < prev.len() {
            assert(view_string_seq(prev)[j] == prev[j]@);
        }
    }
}

/// Extending a request-entry sequence extends its views in step.
pub proof fn lemma_view_metadata_push(prev: Seq<ItemMetadata>, x: ItemMetadata)
    ensures
        view_metadata(prev.push(x)) =~= view_metadata(prev).push(x@),
{
    assert forall|j: int| 0 <= j < prev.len() + 1 implies view_metadata(prev.push(x))[j]
        == view_metadata(prev).push(x@)[j] by {
        if j < prev.len() {
            assert(view_metadata(prev)[j] == prev[j]@);
        }
    }
}

/// Extending a cabinet-summary sequence extends its views in step.
pub proof fn lemma_view_cabinet_infos_push(prev: Seq<CabinetInfo>, x: CabinetInfo)
    ensures
        view_cabinet_infos(prev.push(x)) =~= view_cabinet_infos(prev).push(x@),
{
    assert forall|j: int| 0 <= j < prev.len() + 1 implies view_cabinet_infos(prev.push(x))[j]
        == view_cabinet_infos(prev).push(x@)[j] by {
        if j < prev.len() {
            assert(view_cabinet_infos(prev)[j] == prev[j]@);
        }
    }
}

/// Extending a shelf-summary sequence extends its views in step.
pub proof fn lemma_view_shelf_infos_push(prev: Seq<ShelfInfo>, x: ShelfInfo)
    ensures
        view_shelf_infos(prev.push(x)) =~= view_shelf_infos(prev).push(x@),
{
    assert forall|j: int| 0 <= j < prev.len() + 1 implies view_shelf_infos(prev.push(x))[j]
        == view_shelf_infos(prev).push(x@)[j] by {
        if j < prev.len() {
            assert(view_shelf_infos(prev)[j] == prev[j]@);
        }
    }
}

/// Extending a shelf-plan sequence extends its views in step.
pub proof fn lemma_view_shelf_plans_push(prev: Seq<ShelfPlan>, x: ShelfPlan)
    ensures
        view_shelf_plans(prev.push(x)) =~= view_shelf_plans(prev).push(x@),
{
    assert forall|j: int| 0 <= j < prev.len() + 1 implies view_shelf_plans(prev.push(x))[j]
        == view_shelf_plans(prev).push(x@)[j] by {
        if j < prev.len() {
            assert(view_shelf_plans(prev)[j] == prev[j]@);
        }
    }
}

/// Extending a cabinet-plan sequence extends its views in step.
pub proof fn lemma_view_cabinet_plans_push(prev: Seq<CabinetPlan>, x: CabinetPlan)
    ensures
        view_cabinet_plans(prev.push(x)) =~= view_cabinet_plans(prev).push(x@),
{
    assert forall|j: int| 0 <= j < prev.len() + 1 implies view_cabinet_plans(prev.push(x))[j]
        == view_cabinet_plans(prev).push(x@)[j] by {
        if j < prev.len() {
            assert(view_cabinet_plans(prev)[j] == prev[j]@);
        }
    }
}

/// Extending a movement sequence extends its views in step.
pub proof fn lemma_view_movements_push(prev: Seq<FileMovement>, x: FileMovement)
    ensures
        view_movements(prev.push(x)) =~= view_movements(prev).push(x@),
{
    assert forall|j: int| 0 <= j < prev.len() + 1 implies view_movements(prev.push(x))[j]
        == view_movements(prev).push(x@)[j] by {
        if j < prev.len() {
            assert(view_movements(prev)[j] == prev[j]@);
        }
    }
}

} // verus!