//! The store: the durable record of cabinets, shelves, items and
//! processed-path history, and the sole owner of the catalog invariants —
//! cabinet names globally unique, shelf names unique per cabinet, item paths
//! globally unique, and every foreign key resolving to a live row.
//!
//! The store itself is a plain in-memory table set with verified operations;
//! mirroring it to disk (the state file beside the scanned root) is left to
//! the unverified rim of the program, which replays rows through the same
//! operations when a run resumes.
use vstd::prelude::*;

use crate::order::{
    insert_ordered, lemma_insert_ordered_at, lemma_sort_ordered_ensures, sort_ordered,
};
use crate::text::{lex_le, str_eq, str_le};
use vstd::relations::{sorted_by, strongly_connected, transitive};

verus! {

/// A top-level category.
pub struct Cabinet {
    pub id: i64,
    pub name: String,
    pub description: String,
    pub created_at: String,
}

/// A second-level category, nested under exactly one cabinet.
pub struct Shelf {
    pub id: i64,
    pub cabinet_id: i64,
    pub name: String,
    pub description: String,
    pub created_at: String,
}

/// The persisted record of one classified filesystem path.
pub struct Item {
    pub id: Option<i64>,
    pub shelf_id: i64,
    pub path: String,
    pub original_name: String,
    pub suggested_name: Option<String>,
    pub description: String,
    pub file_type: String,
    pub is_opaque_dir: bool,
    pub processed_at: String,
}

/// Mathematical image of a `Cabinet`.
pub struct CabinetV {
    pub id: int,
    pub name: Seq<char>,
    pub description: Seq<char>,
    pub created_at: Seq<char>,
}

/// Mathematical image of a `Shelf`.
pub struct ShelfV {
    pub id: int,
    pub cabinet_id: int,
    pub name: Seq<char>,
    pub description: Seq<char>,
    pub created_at: Seq<char>,
}

/// Mathematical image of an `Item`.
pub struct ItemV {
    pub id: Option<int>,
    pub shelf_id: int,
    pub path: Seq<char>,
    pub original_name: Seq<char>,
    pub suggested_name: Option<Seq<char>>,
    pub description: Seq<char>,
    pub file_type: Seq<char>,
    pub is_opaque_dir: bool,
    pub processed_at: Seq<char>,
}

impl View for Cabinet {
    type V = CabinetV;

    open spec fn view(&self) -> CabinetV {
        CabinetV {
            id: self.id as int,
            name: self.name@,
            description: self.description@,
            created_at: self.created_at@,
        }
    }
}

impl View for Shelf {
    type V = ShelfV;

    open spec fn view(&self) -> ShelfV {
        ShelfV {
            id: self.id as int,
            cabinet_id: self.cabinet_id as int,
            name: self.name@,
            description: self.description@,
            created_at: self.created_at@,
        }
    }
}

impl View for Item {
    type V = ItemV;

    open spec fn view(&self) -> ItemV {
        ItemV {
            id: match self.id {
                Some(v) => Some(v as int),
                None => None,
            },
            shelf_id: self.shelf_id as int,
            path: self.path@,
            original_name: self.original_name@,
            suggested_name: match self.suggested_name {
                Some(ref s) => Some(s@),
                None => None,
            },
            description: self.description@,
            file_type: self.file_type@,
            is_opaque_dir: self.is_opaque_dir,
            processed_at: self.processed_at@,
        }
    }
}

impl Clone for Cabinet {
    fn clone(&self) -> (c: Self)
        ensures
            c == *self,
    {
        Cabinet {
            id: self.id,
            name: self.name.clone(),
            description: self.description.clone(),
            created_at: self.created_at.clone(),
        }
    }
}

impl Clone for Shelf {
    fn clone(&self) -> (c: Self)
        ensures
            c == *self,
    {
        Shelf {
            id: self.id,
            cabinet_id: self.cabinet_id,
            name: self.name.clone(),
            description: self.description.clone(),
            created_at: self.created_at.clone(),
        }
    }
}

impl Clone for Item {
    fn clone(&self) -> (c: Self)
        ensures
            c == *self,
    {
        Item {
            id: self.id,
            shelf_id: self.shelf_id,
            path: self.path.clone(),
            original_name: self.original_name.clone(),
            suggested_name: match self.suggested_name {
                Some(ref s) => Some(s.clone()),
                None => None,
            },
            description: self.description.clone(),
            file_type: self.file_type.clone(),
            is_opaque_dir: self.is_opaque_dir,
            processed_at: self.processed_at.clone(),
        }
    }
}

/// Why a store operation was refused.
#[derive(Debug, PartialEq, Eq, Structural, Clone, Copy)]
pub enum StoreError {
    /// A cabinet with the requested name already exists.
    DuplicateCabinetName,
    /// The cabinet already holds a shelf with the requested name.
    DuplicateShelfName,
    /// An item with the requested path already exists.
    DuplicateItemPath,
    /// No cabinet carries the given id.
    UnknownCabinet,
    /// No shelf carries the given id.
    UnknownShelf,
    /// The cabinet still holds shelves and may not be deleted.
    CabinetNotEmpty,
    /// The shelf still holds items and may not be deleted.
    ShelfNotEmpty,
    /// The id counter for the table has reached its maximum.
    IdsExhausted,
}

impl StoreError {
    /// A short description of the error, for reporting outside the library.
    pub fn message(&self) -> (m: &'static str)
        ensures
            m@.len() > 0,
    {
        proof {
            reveal_strlit("cabinet name already exists");
            reveal_strlit("shelf name already exists in this cabinet");
            reveal_strlit("item path already exists");
            reveal_strlit("no such cabinet");
            reveal_strlit("no such shelf");
            reveal_strlit("cannot delete cabinet: contains shelves");
            reveal_strlit("cannot delete shelf: contains items");
            reveal_strlit("id space exhausted");
        }
        match self {
            StoreError::DuplicateCabinetName => "cabinet name already exists",
            StoreError::DuplicateShelfName => "shelf name already exists in this cabinet",
            StoreError::DuplicateItemPath => "item path already exists",
            StoreError::UnknownCabinet => "no such cabinet",
            StoreError::UnknownShelf => "no such shelf",
            StoreError::CabinetNotEmpty => "cannot delete cabinet: contains shelves",
            StoreError::ShelfNotEmpty => "cannot delete shelf: contains items",
            StoreError::IdsExhausted => "id space exhausted",
        }
    }
}

/// Mathematical image of the whole store.
pub struct StoreV {
    pub cabinets: Seq<CabinetV>,
    pub shelves: Seq<ShelfV>,
    pub items: Seq<ItemV>,
    pub next_cabinet_id: int,
    pub next_shelf_id: int,
    pub next_item_id: int,
}

impl StoreV {
    /// Some cabinet carries this id.
    pub open spec fn has_cabinet_id(self, id: int) -> bool {
        exists|i: int| 0 <= i < self.cabinets.len() && (#[trigger] self.cabinets[i]).id == id
    }

    /// Some cabinet carries this name.
    pub open spec fn has_cabinet_name(self, name: Seq<char>) -> bool {
        exists|i: int| 0 <= i < self.cabinets.len() && (#[trigger] self.cabinets[i]).name == name
    }

    /// Some shelf carries this id.
    pub open spec fn has_shelf_id(self, id: int) -> bool {
        exists|i: int| 0 <= i < self.shelves.len() && (#[trigger] self.shelves[i]).id == id
    }

    /// The given cabinet already holds a shelf with this name.
    pub open spec fn has_shelf_name(self, cabinet_id: int, name: Seq<char>) -> bool {
        exists|i: int|
            0 <= i < self.shelves.len() && (#[trigger] self.shelves[i]).cabinet_id == cabinet_id
                && self.shelves[i].name == name
    }

    /// Some item carries this path.
    pub open spec fn has_item_path(self, path: Seq<char>) -> bool {
        exists|i: int| 0 <= i < self.items.len() && (#[trigger] self.items[i]).path == path
    }

    /// Some shelf lives in the given cabinet.
    pub open spec fn has_shelf_in_cabinet(self, cabinet_id: int) -> bool {
        exists|i: int|
            0 <= i < self.shelves.len() && (#[trigger] self.shelves[i]).cabinet_id == cabinet_id
    }

    /// Some item sits on the given shelf.
    pub open spec fn has_item_on_shelf(self, shelf_id: int) -> bool {
        exists|i: int| 0 <= i < self.items.len() && (#[trigger] self.items[i]).shelf_id == shelf_id
    }

    /// Well-formedness: ids positive, below their counter and pairwise
    /// distinct; cabinet names unique; shelf names unique within their
    /// cabinet; item paths unique; every foreign key resolves.
    pub open spec fn wf(self) -> bool {
        &&& 1 <= self.next_cabinet_id <= i64::MAX
        &&& 1 <= self.next_shelf_id <= i64::MAX
        &&& 1 <= self.next_item_id <= i64::MAX
        &&& forall|i: int|
            0 <= i < self.cabinets.len() ==> 0 < (#[trigger] self.cabinets[i]).id
                < self.next_cabinet_id
        &&& forall|i: int, j: int|
            0 <= i < j < self.cabinets.len() ==> (#[trigger] self.cabinets[i]).id != (
            #[trigger] self.cabinets[j]).id
        &&& forall|i: int, j: int|
            0 <= i < j < self.cabinets.len() ==> (#[trigger] self.cabinets[i]).name != (
            #[trigger] self.cabinets[j]).name
        &&& forall|i: int|
            0 <= i < self.shelves.len() ==> 0 < (#[trigger] self.shelves[i]).id
                < self.next_shelf_id
        &&& forall|i: int, j: int|
            0 <= i < j < self.shelves.len() ==> (#[trigger] self.shelves[i]).id != (
            #[trigger] self.shelves[j]).id
        &&& forall|i: int, j: int|
            0 <= i < j < self.shelves.len() ==> !((#[trigger] self.shelves[i]).cabinet_id == (
            #[trigger] self.shelves[j]).cabinet_id && self.shelves[i].name
                == self.shelves[j].name)
        &&& forall|i: int|
            0 <= i < self.shelves.len() ==> self.has_cabinet_id(
                (#[trigger] self.shelves[i]).cabinet_id,
            )
        &&& forall|i: int|
            0 <= i < self.items.len() ==> (#[trigger] self.items[i]).id is Some
        &&& forall|i: int|
            0 <= i < self.items.len() ==> 0 < (#[trigger] self.items[i]).id->0
                < self.next_item_id
        &&& forall|i: int, j: int|
            0 <= i < j < self.items.len() ==> (#[trigger] self.items[i]).id != (
            #[trigger] self.items[j]).id
        &&& forall|i: int, j: int|
            0 <= i < j < self.items.len() ==> (#[trigger] self.items[i]).path != (
            #[trigger] self.items[j]).path
        &&& forall|i: int|
            0 <= i < self.items.len() ==> self.has_shelf_id((#[trigger] self.items[i]).shelf_id)
    }
}

/// The views of a sequence of cabinet rows.
pub open spec fn view_cabinets(v: Seq<Cabinet>) -> Seq<CabinetV> {
    v.map_values(|c: Cabinet| c@)
}

/// The views of a sequence of shelf rows.
pub open spec fn view_shelves(v: Seq<Shelf>) -> Seq<ShelfV> {
    v.map_values(|s: Shelf| s@)
}

/// The views of a sequence of item rows.
pub open spec fn view_items(v: Seq<Item>) -> Seq<ItemV> {
    v.map_values(|i: Item| i@)
}

/// The views of a sequence of strings.
pub open spec fn view_strings(v: Seq<String>) -> Seq<Seq<char>> {
    v.map_values(|p: String| p@)
}

/// The paths of a sequence of item rows, in order.
pub open spec fn item_paths(items: Seq<ItemV>) -> Seq<Seq<char>> {
    items.map_values(|iv: ItemV| iv.path)
}

proof fn lemma_view_cabinets_push(prev: Seq<Cabinet>, x: Cabinet)
    ensures
        view_cabinets(prev.push(x)) =~= view_cabinets(prev).push(x@),
{
    assert forall|j: int| 0 <= j < prev.len() + 1 implies view_cabinets(prev.push(x))[j]
        == view_cabinets(prev).push(x@)[j] by {
        if j < prev.len() {
            assert(view_cabinets(prev)[j] == prev[j]@);
        }
    }
}

proof fn lemma_view_shelves_push(prev: Seq<Shelf>, x: Shelf)
    ensures
        view_shelves(prev.push(x)) =~= view_shelves(prev).push(x@),
{
    assert forall|j: int| 0 <= j < prev.len() + 1 implies view_shelves(prev.push(x))[j]
        == view_shelves(prev).push(x@)[j] by {
        if j < prev.len() {
            assert(view_shelves(prev)[j] == prev[j]@);
        }
    }
}

proof fn lemma_view_items_push(prev: Seq<Item>, x: Item)
    ensures
        view_items(prev.push(x)) =~= view_items(prev).push(x@),
{
    assert forall|j: int| 0 <= j < prev.len() + 1 implies view_items(prev.push(x))[j]
        == view_items(prev).push(x@)[j] by {
        if j < prev.len() {
            assert(view_items(prev)[j] == prev[j]@);
        }
    }
}

proof fn lemma_view_strings_push(prev: Seq<String>, x: String)
    ensures
        view_strings(prev.push(x)) =~= view_strings(prev).push(x@),
{
    assert forall|j: int| 0 <= j < prev.len() + 1 implies view_strings(prev.push(x))[j]
        == view_strings(prev).push(x@)[j] by {
        if j < prev.len() {
            assert(view_strings(prev)[j] == prev[j]@);
        }
    }
}

proof fn lemma_view_cabinets_remove(v: Seq<Cabinet>, k: int)
    requires
        0 <= k < v.len(),
    ensures
        view_cabinets(v.remove(k)) =~= view_cabinets(v).remove(k),
{
    v.remove_ensures(k);
    view_cabinets(v).remove_ensures(k);
    assert forall|j: int| 0 <= j < v.len() - 1 implies view_cabinets(v.remove(k))[j]
        == view_cabinets(v).remove(k)[j] by {
        assert(view_cabinets(v.remove(k))[j] == v.remove(k)[j]@);
        if j < k {
            assert(v.remove(k)[j] == v[j]);
        } else {
            assert(v.remove(k)[j] == v[j + 1]);
        }
    }
}

proof fn lemma_view_shelves_remove(v: Seq<Shelf>, k: int)
    requires
        0 <= k < v.len(),
    ensures
        view_shelves(v.remove(k)) =~= view_shelves(v).remove(k),
{
    v.remove_ensures(k);
    view_shelves(v).remove_ensures(k);
    assert forall|j: int| 0 <= j < v.len() - 1 implies view_shelves(v.remove(k))[j]
        == view_shelves(v).remove(k)[j] by {
        assert(view_shelves(v.remove(k))[j] == v.remove(k)[j]@);
        if j < k {
            assert(v.remove(k)[j] == v[j]);
        } else {
            assert(v.remove(k)[j] == v[j + 1]);
        }
    }
}

pub proof fn lemma_shelves_of_step(shelves: Seq<ShelfV>, i: int, cid: int)
    requires
        0 <= i < shelves.len(),
    ensures
        shelves_of_seq(shelves.subrange(0, i + 1), cid) == if shelves[i].cabinet_id == cid {
            shelves_of_seq(shelves.subrange(0, i), cid).push(shelves[i])
        } else {
            shelves_of_seq(shelves.subrange(0, i), cid)
        },
{
    let nextseq = shelves.subrange(0, i + 1);
    assert(nextseq.drop_last() =~= shelves.subrange(0, i));
    assert(nextseq.last() == shelves[i]);
    reveal_with_fuel(Seq::filter, 2);
}

/// How the cabinet listing is ordered: ascending by name.
pub open spec fn cabinet_le(a: CabinetV, b: CabinetV) -> bool {
    lex_le(a.name, b.name)
}

/// How the shelf listing is ordered: by cabinet id, then ascending by name.
pub open spec fn shelf_le(a: ShelfV, b: ShelfV) -> bool {
    a.cabinet_id < b.cabinet_id || (a.cabinet_id == b.cabinet_id && lex_le(a.name, b.name))
}

/// How the item listing is ordered: by shelf id, then ascending by original
/// name.
pub open spec fn item_le(a: ItemV, b: ItemV) -> bool {
    a.shelf_id < b.shelf_id || (a.shelf_id == b.shelf_id && lex_le(
        a.original_name,
        b.original_name,
    ))
}

/// The cabinet listing's order, as a relation value.
pub open spec fn cabinet_order() -> spec_fn(CabinetV, CabinetV) -> bool {
    |a: CabinetV, b: CabinetV| cabinet_le(a, b)
}

/// The shelf listing's order, as a relation value.
pub open spec fn shelf_order() -> spec_fn(ShelfV, ShelfV) -> bool {
    |a: ShelfV, b: ShelfV| shelf_le(a, b)
}

/// The item listing's order, as a relation value.
pub open spec fn item_order() -> spec_fn(ItemV, ItemV) -> bool {
    |a: ItemV, b: ItemV| item_le(a, b)
}

/// The cabinet table as `list_cabinets` returns it: sorted ascending by
/// name.
pub open spec fn sort_cabinets(s: Seq<CabinetV>) -> Seq<CabinetV> {
    sort_ordered(s, cabinet_order())
}

/// The shelf table as `list_shelves` returns it: sorted by cabinet id, then
/// by name.
pub open spec fn sort_shelves(s: Seq<ShelfV>) -> Seq<ShelfV> {
    sort_ordered(s, shelf_order())
}

/// The item table as `list_all_items` returns it: sorted by shelf id, then
/// by original name.
pub open spec fn sort_items(s: Seq<ItemV>) -> Seq<ItemV> {
    sort_ordered(s, item_order())
}

/// The cabinet order is connected and transitive.
pub proof fn lemma_cabinet_order_properties()
    ensures
        strongly_connected(cabinet_order()),
        transitive(cabinet_order()),
{
    let leq = cabinet_order();
    assert forall|a: CabinetV, b: CabinetV| #[trigger] leq(a, b) || #[trigger] leq(b, a) by {
        crate::text::lemma_lex_le_total(a.name, b.name);
    }
    assert forall|a: CabinetV, b: CabinetV, c: CabinetV|
        #[trigger] leq(a, b) && #[trigger] leq(b, c) implies leq(a, c) by {
        crate::text::lemma_lex_le_trans(a.name, b.name, c.name);
    }
}

/// The shelf order is connected and transitive.
pub proof fn lemma_shelf_order_properties()
    ensures
        strongly_connected(shelf_order()),
        transitive(shelf_order()),
{
    let leq = shelf_order();
    assert forall|a: ShelfV, b: ShelfV| #[trigger] leq(a, b) || #[trigger] leq(b, a) by {
        crate::text::lemma_lex_le_total(a.name, b.name);
    }
    assert forall|a: ShelfV, b: ShelfV, c: ShelfV|
        #[trigger] leq(a, b) && #[trigger] leq(b, c) implies leq(a, c) by {
        if a.cabinet_id == b.cabinet_id && b.cabinet_id == c.cabinet_id {
            crate::text::lemma_lex_le_trans(a.name, b.name, c.name);
        }
    }
}

/// The item order is connected and transitive.
pub proof fn lemma_item_order_properties()
    ensures
        strongly_connected(item_order()),
        transitive(item_order()),
{
    let leq = item_order();
    assert forall|a: ItemV, b: ItemV| #[trigger] leq(a, b) || #[trigger] leq(b, a) by {
        crate::text::lemma_lex_le_total(a.original_name, b.original_name);
    }
    assert forall|a: ItemV, b: ItemV, c: ItemV|
        #[trigger] leq(a, b) && #[trigger] leq(b, c) implies leq(a, c) by {
        if a.shelf_id == b.shelf_id && b.shelf_id == c.shelf_id {
            crate::text::lemma_lex_le_trans(a.original_name, b.original_name, c.original_name);
        }
    }
}

/// `list_cabinets` returns a sorted permutation of the cabinet table.
pub proof fn lemma_sort_cabinets_ensures(s: Seq<CabinetV>)
    ensures
        sorted_by(sort_cabinets(s), cabinet_order()),
        sort_cabinets(s).to_multiset() =~= s.to_multiset(),
        sort_cabinets(s).len() == s.len(),
{
    lemma_cabinet_order_properties();
    lemma_sort_ordered_ensures(s, cabinet_order());
}

/// `list_shelves` returns a sorted permutation of the shelf table.
pub proof fn lemma_sort_shelves_ensures(s: Seq<ShelfV>)
    ensures
        sorted_by(sort_shelves(s), shelf_order()),
        sort_shelves(s).to_multiset() =~= s.to_multiset(),
        sort_shelves(s).len() == s.len(),
{
    lemma_shelf_order_properties();
    lemma_sort_ordered_ensures(s, shelf_order());
}

/// `list_all_items` returns a sorted permutation of the item table.
pub proof fn lemma_sort_items_ensures(s: Seq<ItemV>)
    ensures
        sorted_by(sort_items(s), item_order()),
        sort_items(s).to_multiset() =~= s.to_multiset(),
        sort_items(s).len() == s.len(),
{
    lemma_item_order_properties();
    lemma_sort_ordered_ensures(s, item_order());
}

proof fn lemma_view_cabinets_insert(prev: Seq<Cabinet>, x: Cabinet, k: int)
    requires
        0 <= k <= prev.len(),
    ensures
        view_cabinets(prev.insert(k, x)) =~= view_cabinets(prev).insert(k, x@),
{
    prev.insert_ensures(k, x);
    view_cabinets(prev).insert_ensures(k, x@);
    assert forall|j: int| 0 <= j < prev.len() + 1 implies view_cabinets(prev.insert(k, x))[j]
        == view_cabinets(prev).insert(k, x@)[j] by {
        assert(view_cabinets(prev.insert(k, x))[j] == prev.insert(k, x)[j]@);
        if j < k {
            assert(prev.insert(k, x)[j] == prev[j]);
            assert(view_cabinets(prev)[j] == prev[j]@);
        } else if j == k {
            assert(prev.insert(k, x)[j] == x);
        } else {
            assert(prev.insert(k, x)[j] == prev[j - 1]);
            assert(view_cabinets(prev)[j - 1] == prev[j - 1]@);
        }
    }
}

proof fn lemma_view_shelves_insert(prev: Seq<Shelf>, x: Shelf, k: int)
    requires
        0 <= k <= prev.len(),
    ensures
        view_shelves(prev.insert(k, x)) =~= view_shelves(prev).insert(k, x@),
{
    prev.insert_ensures(k, x);
    view_shelves(prev).insert_ensures(k, x@);
    assert forall|j: int| 0 <= j < prev.len() + 1 implies view_shelves(prev.insert(k, x))[j]
        == view_shelves(prev).insert(k, x@)[j] by {
        assert(view_shelves(prev.insert(k, x))[j] == prev.insert(k, x)[j]@);
        if j < k {
            assert(prev.insert(k, x)[j] == prev[j]);
            assert(view_shelves(prev)[j] == prev[j]@);
        } else if j == k {
            assert(prev.insert(k, x)[j] == x);
        } else {
            assert(prev.insert(k, x)[j] == prev[j - 1]);
            assert(view_shelves(prev)[j - 1] == prev[j - 1]@);
        }
    }
}

proof fn lemma_view_items_insert(prev: Seq<Item>, x: Item, k: int)
    requires
        0 <= k <= prev.len(),
    ensures
        view_items(prev.insert(k, x)) =~= view_items(prev).insert(k, x@),
{
    prev.insert_ensures(k, x);
    view_items(prev).insert_ensures(k, x@);
    assert forall|j: int| 0 <= j < prev.len() + 1 implies view_items(prev.insert(k, x))[j]
        == view_items(prev).insert(k, x@)[j] by {
        assert(view_items(prev.insert(k, x))[j] == prev.insert(k, x)[j]@);
        if j < k {
            assert(prev.insert(k, x)[j] == prev[j]);
            assert(view_items(prev)[j] == prev[j]@);
        } else if j == k {
            assert(prev.insert(k, x)[j] == x);
        } else {
            assert(prev.insert(k, x)[j] == prev[j - 1]);
            assert(view_items(prev)[j - 1] == prev[j - 1]@);
        }
    }
}

fn cabinet_le_exec(a: &Cabinet, b: &Cabinet) -> (r: bool)
    ensures
        r == cabinet_le(a@, b@),
{
    str_le(a.name.as_str(), b.name.as_str())
}

fn shelf_le_exec(a: &Shelf, b: &Shelf) -> (r: bool)
    ensures
        r == shelf_le(a@, b@),
{
    if a.cabinet_id < b.cabinet_id {
        true
    } else if a.cabinet_id == b.cabinet_id {
        str_le(a.name.as_str(), b.name.as_str())
    } else {
        false
    }
}

fn item_le_exec(a: &Item, b: &Item) -> (r: bool)
    ensures
        r == item_le(a@, b@),
{
    if a.shelf_id < b.shelf_id {
        true
    } else if a.shelf_id == b.shelf_id {
        str_le(a.original_name.as_str(), b.original_name.as_str())
    } else {
        false
    }
}

fn insert_cabinet_sorted(out: &mut Vec<Cabinet>, row: Cabinet)
    ensures
        view_cabinets(final(out)@) =~= insert_ordered(
            view_cabinets(old(out)@),
            row@,
            cabinet_order(),
        ),
{
    let ghost sv = view_cabinets(out@);
    let ghost leq = cabinet_order();
    let n = out.len();
    let mut k: usize = 0;
    while k < n
        invariant
            k <= n,
            n == out@.len(),
            sv == view_cabinets(out@),
            sv.len() == n,
            leq == cabinet_order(),
            forall|j: int| 0 <= j < k ==> leq(#[trigger] sv[j], row@),
        ensures
            k <= n,
            forall|j: int| 0 <= j < k ==> leq(#[trigger] sv[j], row@),
            k < n ==> !leq(sv[k as int], row@),
        decreases n - k,
    {
        proof {
            assert(sv[k as int] == out@[k as int]@);
        }
        if !cabinet_le_exec(&out[k], &row) {
            break ;
        }
        k = k + 1;
    }
    let ghost rowg = row;
    let ghost prev = out@;
    out.insert(k, row);
    proof {
        lemma_insert_ordered_at(sv, rowg@, leq, k as int);
        lemma_view_cabinets_insert(prev, rowg, k as int);
        assert(view_cabinets(out@) =~= insert_ordered(sv, rowg@, leq));
    }
}

fn insert_shelf_sorted(out: &mut Vec<Shelf>, row: Shelf)
    ensures
        view_shelves(final(out)@) =~= insert_ordered(view_shelves(old(out)@), row@, shelf_order()),
{
    let ghost sv = view_shelves(out@);
    let ghost leq = shelf_order();
    let n = out.len();
    let mut k: usize = 0;
    while k < n
        invariant
            k <= n,
            n == out@.len(),
            sv == view_shelves(out@),
            sv.len() == n,
            leq == shelf_order(),
            forall|j: int| 0 <= j < k ==> leq(#[trigger] sv[j], row@),
        ensures
            k <= n,
            forall|j: int| 0 <= j < k ==> leq(#[trigger] sv[j], row@),
            k < n ==> !leq(sv[k as int], row@),
        decreases n - k,
    {
        proof {
            assert(sv[k as int] == out@[k as int]@);
        }
        if !shelf_le_exec(&out[k], &row) {
            break ;
        }
        k = k + 1;
    }
    let ghost rowg = row;
    let ghost prev = out@;
    out.insert(k, row);
    proof {
        lemma_insert_ordered_at(sv, rowg@, leq, k as int);
        lemma_view_shelves_insert(prev, rowg, k as int);
        assert(view_shelves(out@) =~= insert_ordered(sv, rowg@, leq));
    }
}

fn insert_item_sorted(out: &mut Vec<Item>, row: Item)
    ensures
        view_items(final(out)@) =~= insert_ordered(view_items(old(out)@), row@, item_order()),
{
    let ghost sv = view_items(out@);
    let ghost leq = item_order();
    let n = out.len();
    let mut k: usize = 0;
    while k < n
        invariant
            k <= n,
            n == out@.len(),
            sv == view_items(out@),
            sv.len() == n,
            leq == item_order(),
            forall|j: int| 0 <= j < k ==> leq(#[trigger] sv[j], row@),
        ensures
            k <= n,
            forall|j: int| 0 <= j < k ==> leq(#[trigger] sv[j], row@),
            k < n ==> !leq(sv[k as int], row@),
        decreases n - k,
    {
        proof {
            assert(sv[k as int] == out@[k as int]@);
        }
        if !item_le_exec(&out[k], &row) {
            break ;
        }
        k = k + 1;
    }
    let ghost rowg = row;
    let ghost prev = out@;
    out.insert(k, row);
    proof {
        lemma_insert_ordered_at(sv, rowg@, leq, k as int);
        lemma_view_items_insert(prev, rowg, k as int);
        assert(view_items(out@) =~= insert_ordered(sv, rowg@, leq));
    }
}

/// The store after a cabinet row has been appended.
pub open spec fn with_new_cabinet(
    s: StoreV,
    id: int,
    name: Seq<char>,
    description: Seq<char>,
    created_at: Seq<char>,
) -> StoreV {
    StoreV {
        cabinets: s.cabinets.push(CabinetV { id, name, description, created_at }),
        next_cabinet_id: s.next_cabinet_id + 1,
        ..s
    }
}

proof fn lemma_new_cabinet_wf(s: StoreV, name: Seq<char>, description: Seq<char>, created_at: Seq<char>)
    requires
        s.wf(),
        !s.has_cabinet_name(name),
        s.next_cabinet_id < i64::MAX,
    ensures
        with_new_cabinet(s, s.next_cabinet_id, name, description, created_at).wf(),
{
    let t = with_new_cabinet(s, s.next_cabinet_id, name, description, created_at);
    assert forall|i: int| 0 <= i < t.shelves.len() implies t.has_cabinet_id(
        (#[trigger] t.shelves[i]).cabinet_id,
    ) by {
        assert(s.has_cabinet_id(s.shelves[i].cabinet_id));
        let k = choose|k: int|
            0 <= k < s.cabinets.len() && (#[trigger] s.cabinets[k]).id == s.shelves[i].cabinet_id;
        assert(t.cabinets[k].id == t.shelves[i].cabinet_id);
    }
    assert forall|i: int| 0 <= i < t.items.len() implies t.has_shelf_id(
        (#[trigger] t.items[i]).shelf_id,
    ) by {
        assert(s.has_shelf_id(s.items[i].shelf_id));
        let k = choose|k: int|
            0 <= k < s.shelves.len() && (#[trigger] s.shelves[k]).id == s.items[i].shelf_id;
        assert(t.shelves[k].id == t.items[i].shelf_id);
    }
}

/// The store after a shelf row has been appended.
pub open spec fn with_new_shelf(s: StoreV, sv: ShelfV) -> StoreV {
    StoreV { shelves: s.shelves.push(sv), next_shelf_id: s.next_shelf_id + 1, ..s }
}

/// The store after an item row has been appended.
pub open spec fn with_new_item(s: StoreV, iv: ItemV) -> StoreV {
    StoreV { items: s.items.push(iv), next_item_id: s.next_item_id + 1, ..s }
}

/// The shelves of one cabinet, in store order.
pub open spec fn shelves_of_seq(shelves: Seq<ShelfV>, cabinet_id: int) -> Seq<ShelfV> {
    shelves.filter(|sv: ShelfV| sv.cabinet_id == cabinet_id)
}

proof fn lemma_new_shelf_wf(
    s: StoreV,
    cabinet_id: int,
    name: Seq<char>,
    description: Seq<char>,
    created_at: Seq<char>,
)
    requires
        s.wf(),
        s.has_cabinet_id(cabinet_id),
        !s.has_shelf_name(cabinet_id, name),
        s.next_shelf_id < i64::MAX,
    ensures
        with_new_shelf(
            s,
            ShelfV { id: s.next_shelf_id, cabinet_id, name, description, created_at },
        ).wf(),
{
    let sv = ShelfV { id: s.next_shelf_id, cabinet_id, name, description, created_at };
    let t = with_new_shelf(s, sv);
    assert(t.cabinets == s.cabinets);
    assert(t.items == s.items);
    assert forall|i: int| 0 <= i < t.shelves.len() implies t.has_cabinet_id(
        (#[trigger] t.shelves[i]).cabinet_id,
    ) by {
        if i < s.shelves.len() {
            assert(s.has_cabinet_id(s.shelves[i].cabinet_id));
            let k = choose|k: int|
                0 <= k < s.cabinets.len() && (#[trigger] s.cabinets[k]).id
                    == s.shelves[i].cabinet_id;
            assert(t.cabinets[k].id == t.shelves[i].cabinet_id);
        } else {
            let k = choose|k: int|
                0 <= k < s.cabinets.len() && (#[trigger] s.cabinets[k]).id == cabinet_id;
            assert(t.cabinets[k].id == t.shelves[i].cabinet_id);
        }
    }
    assert forall|i: int| 0 <= i < t.items.len() implies t.has_shelf_id(
        (#[trigger] t.items[i]).shelf_id,
    ) by {
        assert(s.has_shelf_id(s.items[i].shelf_id));
        let k = choose|k: int|
            0 <= k < s.shelves.len() && (#[trigger] s.shelves[k]).id == s.items[i].shelf_id;
        assert(t.shelves[k].id == t.items[i].shelf_id);
    }
}

proof fn lemma_new_item_wf(s: StoreV, iv: ItemV)
    requires
        s.wf(),
        iv.id == Some(s.next_item_id),
        s.has_shelf_id(iv.shelf_id),
        !s.has_item_path(iv.path),
        s.next_item_id < i64::MAX,
    ensures
        with_new_item(s, iv).wf(),
{
    let t = with_new_item(s, iv);
    assert(t.cabinets == s.cabinets);
    assert(t.shelves == s.shelves);
    assert forall|i: int| 0 <= i < t.shelves.len() implies t.has_cabinet_id(
        (#[trigger] t.shelves[i]).cabinet_id,
    ) by {
        assert(s.has_cabinet_id(s.shelves[i].cabinet_id));
        let k = choose|k: int|
            0 <= k < s.cabinets.len() && (#[trigger] s.cabinets[k]).id == s.shelves[i].cabinet_id;
        assert(t.cabinets[k].id == t.shelves[i].cabinet_id);
    }
    assert forall|i: int| 0 <= i < t.items.len() implies t.has_shelf_id(
        (#[trigger] t.items[i]).shelf_id,
    ) by {
        if i < s.items.len() {
            assert(s.has_shelf_id(s.items[i].shelf_id));
            let k = choose|k: int|
                0 <= k < s.shelves.len() && (#[trigger] s.shelves[k]).id == s.items[i].shelf_id;
            assert(t.shelves[k].id == t.items[i].shelf_id);
        } else {
            let k = choose|k: int|
                0 <= k < s.shelves.len() && (#[trigger] s.shelves[k]).id == iv.shelf_id;
            assert(t.shelves[k].id == t.items[i].shelf_id);
        }
    }
}

/// The cabinet rows after the one carrying `id` (if any) has been given a
/// new name and description.
pub open spec fn cabinets_renamed(
    cabs: Seq<CabinetV>,
    id: int,
    name: Seq<char>,
    description: Seq<char>,
) -> Seq<CabinetV> {
    Seq::new(
        cabs.len(),
        |j: int|
            if cabs[j].id == id {
                CabinetV { name, description, ..cabs[j] }
            } else {
                cabs[j]
            },
    )
}

/// The shelf rows after the one carrying `id` (if any) has been given a new
/// name and description.
pub open spec fn shelves_renamed(
    shelves: Seq<ShelfV>,
    id: int,
    name: Seq<char>,
    description: Seq<char>,
) -> Seq<ShelfV> {
    Seq::new(
        shelves.len(),
        |j: int|
            if shelves[j].id == id {
                ShelfV { name, description, ..shelves[j] }
            } else {
                shelves[j]
            },
    )
}

/// The item rows after the one carrying `id` (if any) has been moved to a
/// new shelf.
pub open spec fn items_with_shelf(items: Seq<ItemV>, id: int, new_shelf: int) -> Seq<ItemV> {
    Seq::new(
        items.len(),
        |j: int|
            if items[j].id == Some(id) {
                ItemV { shelf_id: new_shelf, ..items[j] }
            } else {
                items[j]
            },
    )
}

/// The item rows after the one carrying `id` (if any) has been given a new
/// description and suggested name.
pub open spec fn items_with_content(
    items: Seq<ItemV>,
    id: int,
    description: Seq<char>,
    suggested_name: Seq<char>,
) -> Seq<ItemV> {
    Seq::new(
        items.len(),
        |j: int|
            if items[j].id == Some(id) {
                ItemV { description, suggested_name: Some(suggested_name), ..items[j] }
            } else {
                items[j]
            },
    )
}

proof fn lemma_rename_cabinet_wf(s: StoreV, id: int, name: Seq<char>, description: Seq<char>)
    requires
        s.wf(),
        forall|i: int|
            0 <= i < s.cabinets.len() ==> ((#[trigger] s.cabinets[i]).id != id ==> s.cabinets[i].name
                != name),
    ensures
        (StoreV { cabinets: cabinets_renamed(s.cabinets, id, name, description), ..s }).wf(),
{
    let t = StoreV { cabinets: cabinets_renamed(s.cabinets, id, name, description), ..s };
    assert forall|i: int| 0 <= i < t.shelves.len() implies t.has_cabinet_id(
        (#[trigger] t.shelves[i]).cabinet_id,
    ) by {
        assert(s.has_cabinet_id(s.shelves[i].cabinet_id));
        let k = choose|k: int|
            0 <= k < s.cabinets.len() && (#[trigger] s.cabinets[k]).id == s.shelves[i].cabinet_id;
        assert(t.cabinets[k].id == t.shelves[i].cabinet_id);
    }
    assert forall|i: int| 0 <= i < t.items.len() implies t.has_shelf_id(
        (#[trigger] t.items[i]).shelf_id,
    ) by {
        assert(s.has_shelf_id(s.items[i].shelf_id));
        let k = choose|k: int|
            0 <= k < s.shelves.len() && (#[trigger] s.shelves[k]).id == s.items[i].shelf_id;
        assert(t.shelves[k].id == t.items[i].shelf_id);
    }
}

proof fn lemma_rename_shelf_wf(s: StoreV, id: int, name: Seq<char>, description: Seq<char>)
    requires
        s.wf(),
        forall|i: int, j: int|
            0 <= i < s.shelves.len() && 0 <= j < s.shelves.len() && (#[trigger] s.shelves[i]).id
                == id && (#[trigger] s.shelves[j]).id != id ==> !(s.shelves[j].cabinet_id
                == s.shelves[i].cabinet_id && s.shelves[j].name == name),
    ensures
        (StoreV { shelves: shelves_renamed(s.shelves, id, name, description), ..s }).wf(),
{
    let t = StoreV { shelves: shelves_renamed(s.shelves, id, name, description), ..s };
    assert forall|i: int| 0 <= i < t.shelves.len() implies t.has_cabinet_id(
        (#[trigger] t.shelves[i]).cabinet_id,
    ) by {
        assert(s.has_cabinet_id(s.shelves[i].cabinet_id));
        let k = choose|k: int|
            0 <= k < s.cabinets.len() && (#[trigger] s.cabinets[k]).id == s.shelves[i].cabinet_id;
        assert(t.cabinets[k].id == t.shelves[i].cabinet_id);
    }
    assert forall|i: int| 0 <= i < t.items.len() implies t.has_shelf_id(
        (#[trigger] t.items[i]).shelf_id,
    ) by {
        assert(s.has_shelf_id(s.items[i].shelf_id));
        let k = choose|k: int|
            0 <= k < s.shelves.len() && (#[trigger] s.shelves[k]).id == s.items[i].shelf_id;
        assert(t.shelves[k].id == t.items[i].shelf_id);
    }
}

proof fn lemma_item_update_wf(s: StoreV, items: Seq<ItemV>)
    requires
        s.wf(),
        items.len() == s.items.len(),
        forall|j: int|
            0 <= j < items.len() ==> (#[trigger] items[j]).id == s.items[j].id && items[j].path
                == s.items[j].path,
        forall|j: int| 0 <= j < items.len() ==> s.has_shelf_id((#[trigger] items[j]).shelf_id),
    ensures
        (StoreV { items, ..s }).wf(),
{
    let t = StoreV { items, ..s };
    assert forall|i: int| 0 <= i < t.shelves.len() implies t.has_cabinet_id(
        (#[trigger] t.shelves[i]).cabinet_id,
    ) by {
        assert(s.has_cabinet_id(s.shelves[i].cabinet_id));
        let k = choose|k: int|
            0 <= k < s.cabinets.len() && (#[trigger] s.cabinets[k]).id == s.shelves[i].cabinet_id;
        assert(t.cabinets[k].id == t.shelves[i].cabinet_id);
    }
    assert forall|i: int| 0 <= i < t.items.len() implies t.has_shelf_id(
        (#[trigger] t.items[i]).shelf_id,
    ) by {
        assert(s.has_shelf_id(items[i].shelf_id));
        let k = choose|k: int|
            0 <= k < s.shelves.len() && (#[trigger] s.shelves[k]).id == items[i].shelf_id;
        assert(t.shelves[k].id == t.items[i].shelf_id);
    }
}

proof fn lemma_remove_cabinet_wf(s: StoreV, k: int)
    requires
        s.wf(),
        0 <= k < s.cabinets.len(),
        forall|i: int|
            0 <= i < s.shelves.len() ==> (#[trigger] s.shelves[i]).cabinet_id != s.cabinets[k].id,
    ensures
        (StoreV { cabinets: s.cabinets.remove(k), ..s }).wf(),
{
    s.cabinets.remove_ensures(k);
    let t = StoreV { cabinets: s.cabinets.remove(k), ..s };
    assert forall|i: int| 0 <= i < t.shelves.len() implies t.has_cabinet_id(
        (#[trigger] t.shelves[i]).cabinet_id,
    ) by {
        assert(s.has_cabinet_id(s.shelves[i].cabinet_id));
        let m = choose|m: int|
            0 <= m < s.cabinets.len() && (#[trigger] s.cabinets[m]).id == s.shelves[i].cabinet_id;
        if m < k {
            assert(t.cabinets[m].id == t.shelves[i].cabinet_id);
        } else {
            assert(m != k);
            assert(t.cabinets[m - 1].id == t.shelves[i].cabinet_id);
        }
    }
    assert forall|i: int| 0 <= i < t.items.len() implies t.has_shelf_id(
        (#[trigger] t.items[i]).shelf_id,
    ) by {
        assert(s.has_shelf_id(s.items[i].shelf_id));
        let m = choose|m: int|
            0 <= m < s.shelves.len() && (#[trigger] s.shelves[m]).id == s.items[i].shelf_id;
        assert(t.shelves[m].id == t.items[i].shelf_id);
    }
}

proof fn lemma_remove_shelf_wf(s: StoreV, k: int)
    requires
        s.wf(),
        0 <= k < s.shelves.len(),
        forall|i: int|
            0 <= i < s.items.len() ==> (#[trigger] s.items[i]).shelf_id != s.shelves[k].id,
    ensures
        (StoreV { shelves: s.shelves.remove(k), ..s }).wf(),
{
    s.shelves.remove_ensures(k);
    let t = StoreV { shelves: s.shelves.remove(k), ..s };
    assert forall|i: int| 0 <= i < t.shelves.len() implies t.has_cabinet_id(
        (#[trigger] t.shelves[i]).cabinet_id,
    ) by {
        let orig = if i < k {
            i
        } else {
            i + 1
        };
        assert(s.has_cabinet_id(s.shelves[orig].cabinet_id));
        let m = choose|m: int|
            0 <= m < s.cabinets.len() && (#[trigger] s.cabinets[m]).id
                == s.shelves[orig].cabinet_id;
        assert(t.cabinets[m].id == t.shelves[i].cabinet_id);
    }
    assert forall|i: int| 0 <= i < t.items.len() implies t.has_shelf_id(
        (#[trigger] t.items[i]).shelf_id,
    ) by {
        assert(s.has_shelf_id(s.items[i].shelf_id));
        let m = choose|m: int|
            0 <= m < s.shelves.len() && (#[trigger] s.shelves[m]).id == s.items[i].shelf_id;
        if m < k {
            assert(t.shelves[m].id == t.items[i].shelf_id);
        } else {
            assert(m != k);
            assert(t.shelves[m - 1].id == t.items[i].shelf_id);
        }
    }
}

/// The store: every persisted row of the pipeline, behind operations that
/// keep the catalog invariants.
pub struct Database {
    cabinets: Vec<Cabinet>,
    shelves: Vec<Shelf>,
    items: Vec<Item>,
    next_cabinet_id: i64,
    next_shelf_id: i64,
    next_item_id: i64,
}

impl View for Database {
    type V = StoreV;

    closed spec fn view(&self) -> StoreV {
        StoreV {
            cabinets: view_cabinets(self.cabinets@),
            shelves: view_shelves(self.shelves@),
            items: view_items(self.items@),
            next_cabinet_id: self.next_cabinet_id as int,
            next_shelf_id: self.next_shelf_id as int,
            next_item_id: self.next_item_id as int,
        }
    }
}

/// Relies on `chrono::Utc::now` and `chrono::DateTime::to_rfc3339` for the
/// wall-clock timestamp. Nothing is claimed of the text: it depends on the
/// moment of the call.
#[verifier::external_body]
pub(crate) fn now_rfc3339() -> String {
    chrono::Utc::now().to_rfc3339()
}

impl Database {
    /// An empty store.
    pub fn new() -> (db: Database)
        ensures
            db@.wf(),
            db@.cabinets =~= Seq::<CabinetV>::empty(),
            db@.shelves =~= Seq::<ShelfV>::empty(),
            db@.items =~= Seq::<ItemV>::empty(),
            db@.next_cabinet_id == 1,
            db@.next_shelf_id == 1,
            db@.next_item_id == 1,
    {
        Database {
            cabinets: Vec::new(),
            shelves: Vec::new(),
            items: Vec::new(),
            next_cabinet_id: 1,
            next_shelf_id: 1,
            next_item_id: 1,
        }
    }

    fn find_cabinet_by_name(&self, name: &str) -> (r: Option<usize>)
        ensures
            match r {
                Some(i) => i < self@.cabinets.len() && self@.cabinets[i as int].name == name@,
                None => !self@.has_cabinet_name(name@),
            },
    {
        let n = self.cabinets.len();
        for i in 0..n
            invariant
                n == self.cabinets.len(),
                forall|j: int| 0 <= j < i ==> (#[trigger] self@.cabinets[j]).name != name@,
        {
            if str_eq(self.cabinets[i].name.as_str(), name) {
                return Some(i);
            }
        }
        None
    }

    fn find_cabinet_by_id(&self, id: i64) -> (r: Option<usize>)
        ensures
            match r {
                Some(i) => i < self@.cabinets.len() && self@.cabinets[i as int].id == id as int,
                None => !self@.has_cabinet_id(id as int),
            },
    {
        let n = self.cabinets.len();
        for i in 0..n
            invariant
                n == self.cabinets.len(),
                forall|j: int| 0 <= j < i ==> (#[trigger] self@.cabinets[j]).id != id as int,
        {
            if self.cabinets[i].id == id {
                return Some(i);
            }
        }
        None
    }

    /// Create a cabinet with an explicit creation timestamp. Fails, leaving
    /// the store unchanged, exactly when the name is already taken or the id
    /// counter is spent.
    pub fn create_cabinet_at(&mut self, name: &str, description: &str, created_at: &str) -> (r:
        Result<i64, StoreError>)
        requires
            old(self)@.wf(),
        ensures
            final(self)@.wf(),
            match r {
                Ok(id) => {
                    &&& !old(self)@.has_cabinet_name(name@)
                    &&& old(self)@.next_cabinet_id < i64::MAX
                    &&& id as int == old(self)@.next_cabinet_id
                    &&& final(self)@ == with_new_cabinet(
                        old(self)@,
                        id as int,
                        name@,
                        description@,
                        created_at@,
                    )
                },
                Err(StoreError::DuplicateCabinetName) => old(self)@.has_cabinet_name(name@)
                    && final(self)@ == old(self)@,
                Err(StoreError::IdsExhausted) => !old(self)@.has_cabinet_name(name@)
                    && old(self)@.next_cabinet_id == i64::MAX && final(self)@ == old(self)@,
                Err(_) => false,
            },
    {
        if self.find_cabinet_by_name(name).is_some() {
            return Err(StoreError::DuplicateCabinetName);
        }
        if self.next_cabinet_id == i64::MAX {
            return Err(StoreError::IdsExhausted);
        }
        let id = self.next_cabinet_id;
        self.cabinets.push(
            Cabinet {
                id,
                name: name.to_owned(),
                description: description.to_owned(),
                created_at: created_at.to_owned(),
            },
        );
        self.next_cabinet_id = id + 1;
        proof {
            let cv = CabinetV {
                id: id as int,
                name: name@,
                description: description@,
                created_at: created_at@,
            };
            assert(self@.cabinets =~= old(self)@.cabinets.push(cv));
            assert(self@.shelves =~= old(self)@.shelves);
            assert(self@.items =~= old(self)@.items);
            assert(self@ == with_new_cabinet(
                old(self)@,
                id as int,
                name@,
                description@,
                created_at@,
            ));
            lemma_new_cabinet_wf(old(self)@, name@, description@, created_at@);
        }
        Ok(id)
    }

    /// Create a cabinet stamped with the current wall-clock time. Fails,
    /// leaving the store unchanged, exactly when the name is already taken or
    /// the id counter is spent.
    pub fn create_cabinet(&mut self, name: &str, description: &str) -> (r: Result<i64, StoreError>)
        requires
            old(self)@.wf(),
        ensures
            final(self)@.wf(),
            match r {
                Ok(id) => {
                    &&& !old(self)@.has_cabinet_name(name@)
                    &&& old(self)@.next_cabinet_id < i64::MAX
                    &&& id as int == old(self)@.next_cabinet_id
                    &&& exists|ts: Seq<char>|
                        final(self)@ == #[trigger] with_new_cabinet(
                            old(self)@,
                            id as int,
                            name@,
                            description@,
                            ts,
                        )
                },
                Err(StoreError::DuplicateCabinetName) => old(self)@.has_cabinet_name(name@)
                    && final(self)@ == old(self)@,
                Err(StoreError::IdsExhausted) => !old(self)@.has_cabinet_name(name@)
                    && old(self)@.next_cabinet_id == i64::MAX && final(self)@ == old(self)@,
                Err(_) => false,
            },
    {
        let ts = now_rfc3339();
        let r = self.create_cabinet_at(name, description, ts.as_str());
        proof {
            if r is Ok {
                assert(self@ == with_new_cabinet(
                    old(self)@,
                    old(self)@.next_cabinet_id,
                    name@,
                    description@,
                    ts@,
                ));
            }
        }
        r
    }

    /// Look a cabinet up by name.
    pub fn get_cabinet_by_name(&self, name: &str) -> (r: Option<Cabinet>)
        ensures
            match r {
                Some(c) => self@.has_cabinet_name(name@) && c@.name == name@ && exists|i: int|
                    0 <= i < self@.cabinets.len() && #[trigger] self@.cabinets[i] == c@,
                None => !self@.has_cabinet_name(name@),
            },
    {
        match self.find_cabinet_by_name(name) {
            Some(i) => {
                let c = self.cabinets[i].clone();
                Some(c)
            },
            None => None,
        }
    }

    fn table_cabinets(&self) -> (r: Vec<Cabinet>)
        ensures
            view_cabinets(r@) =~= self@.cabinets,
    {
        let n = self.cabinets.len();
        let mut out: Vec<Cabinet> = Vec::new();
        for i in 0..n
            invariant
                n == self.cabinets.len(),
                view_cabinets(out@) =~= self@.cabinets.subrange(0, i as int),
        {
            let ghost prev = out@;
            out.push(self.cabinets[i].clone());
            proof {
                assert(out@ == prev.push(self.cabinets@[i as int]));
                lemma_view_cabinets_push(prev, self.cabinets@[i as int]);
                assert(view_cabinets(out@) =~= self@.cabinets.subrange(0, i as int + 1));
            }
        }
        proof {
            assert(self@.cabinets.subrange(0, n as int) =~= self@.cabinets);
        }
        out
    }

    /// All cabinets, sorted ascending by name.
    pub fn list_cabinets(&self) -> (r: Vec<Cabinet>)
        ensures
            view_cabinets(r@) =~= sort_cabinets(self@.cabinets),
    {
        let n = self.cabinets.len();
        let mut out: Vec<Cabinet> = Vec::new();
        proof {
            assert(view_cabinets(out@) =~= sort_cabinets(self@.cabinets.subrange(0, 0)));
        }
        for i in 0..n
            invariant
                n == self.cabinets.len(),
                view_cabinets(out@) =~= sort_cabinets(self@.cabinets.subrange(0, i as int)),
        {
            proof {
                assert(self@.cabinets.subrange(0, i as int + 1).drop_last() =~= self@
                    .cabinets.subrange(0, i as int));
                assert(self@.cabinets.subrange(0, i as int + 1).last()
                    == self@.cabinets[i as int]);
                assert(self@.cabinets[i as int] == self.cabinets@[i as int]@);
            }
            insert_cabinet_sorted(&mut out, self.cabinets[i].clone());
            proof {
                assert(view_cabinets(out@) =~= sort_cabinets(
                    self@.cabinets.subrange(0, i as int + 1),
                ));
            }
        }
        proof {
            assert(self@.cabinets.subrange(0, n as int) =~= self@.cabinets);
        }
        out
    }

    /// Whether a cabinet with this id exists.
    pub fn cabinet_exists(&self, id: i64) -> (r: bool)
        ensures
            r == self@.has_cabinet_id(id as int),
    {
        self.find_cabinet_by_id(id).is_some()
    }

    /// Whether a shelf with this id exists.
    pub fn shelf_exists(&self, id: i64) -> (r: bool)
        ensures
            r == self@.has_shelf_id(id as int),
    {
        self.find_shelf_by_id(id).is_some()
    }

    fn find_shelf_by_pair(&self, cabinet_id: i64, name: &str) -> (r: Option<usize>)
        ensures
            match r {
                Some(i) => i < self@.shelves.len() && self@.shelves[i as int].cabinet_id
                    == cabinet_id as int && self@.shelves[i as int].name == name@,
                None => !self@.has_shelf_name(cabinet_id as int, name@),
            },
    {
        let n = self.shelves.len();
        for i in 0..n
            invariant
                n == self.shelves.len(),
                forall|j: int|
                    0 <= j < i ==> !((#[trigger] self@.shelves[j]).cabinet_id == cabinet_id as int
                        && self@.shelves[j].name == name@),
        {
            if self.shelves[i].cabinet_id == cabinet_id && str_eq(
                self.shelves[i].name.as_str(),
                name,
            ) {
                return Some(i);
            }
        }
        None
    }

    fn find_shelf_by_id(&self, id: i64) -> (r: Option<usize>)
        ensures
            match r {
                Some(i) => i < self@.shelves.len() && self@.shelves[i as int].id == id as int,
                None => !self@.has_shelf_id(id as int),
            },
    {
        let n = self.shelves.len();
        for i in 0..n
            invariant
                n == self.shelves.len(),
                forall|j: int| 0 <= j < i ==> (#[trigger] self@.shelves[j]).id != id as int,
        {
            if self.shelves[i].id == id {
                return Some(i);
            }
        }
        None
    }

    fn find_item_by_path(&self, path: &str) -> (r: Option<usize>)
        ensures
            match r {
                Some(i) => i < self@.items.len() && self@.items[i as int].path == path@,
                None => !self@.has_item_path(path@),
            },
    {
        let n = self.items.len();
        for i in 0..n
            invariant
                n == self.items.len(),
                forall|j: int| 0 <= j < i ==> (#[trigger] self@.items[j]).path != path@,
        {
            if str_eq(self.items[i].path.as_str(), path) {
                return Some(i);
            }
        }
        None
    }

    /// Create a shelf with an explicit creation timestamp. Fails, leaving
    /// the store unchanged, exactly when the cabinet id does not resolve,
    /// the cabinet already holds a shelf of that name, or the id counter is
    /// spent.
    pub fn create_shelf_at(
        &mut self,
        cabinet_id: i64,
        name: &str,
        description: &str,
        created_at: &str,
    ) -> (r: Result<i64, StoreError>)
        requires
            old(self)@.wf(),
        ensures
            final(self)@.wf(),
            match r {
                Ok(id) => {
                    &&& old(self)@.has_cabinet_id(cabinet_id as int)
                    &&& !old(self)@.has_shelf_name(cabinet_id as int, name@)
                    &&& old(self)@.next_shelf_id < i64::MAX
                    &&& id as int == old(self)@.next_shelf_id
                    &&& final(self)@ == with_new_shelf(
                        old(self)@,
                        ShelfV {
                            id: id as int,
                            cabinet_id: cabinet_id as int,
                            name: name@,
                            description: description@,
                            created_at: created_at@,
                        },
                    )
                },
                Err(StoreError::UnknownCabinet) => !old(self)@.has_cabinet_id(cabinet_id as int)
                    && final(self)@ == old(self)@,
                Err(StoreError::DuplicateShelfName) => old(self)@.has_cabinet_id(cabinet_id as int)
                    && old(self)@.has_shelf_name(cabinet_id as int, name@) && final(self)@ == old(self)@,
                Err(StoreError::IdsExhausted) => old(self)@.has_cabinet_id(cabinet_id as int)
                    && !old(self)@.has_shelf_name(cabinet_id as int, name@) && old(self)@.next_shelf_id == i64::MAX && final(self)@ == old(self)@,
                Err(_) => false,
            },
    {
        if self.find_cabinet_by_id(cabinet_id).is_none() {
            return Err(StoreError::UnknownCabinet);
        }
        if self.find_shelf_by_pair(cabinet_id, name).is_some() {
            return Err(StoreError::DuplicateShelfName);
        }
        if self.next_shelf_id == i64::MAX {
            return Err(StoreError::IdsExhausted);
        }
        let id = self.next_shelf_id;
        self.shelves.push(
            Shelf {
                id,
                cabinet_id,
                name: name.to_owned(),
                description: description.to_owned(),
                created_at: created_at.to_owned(),
            },
        );
        self.next_shelf_id = id + 1;
        proof {
            let sv = ShelfV {
                id: id as int,
                cabinet_id: cabinet_id as int,
                name: name@,
                description: description@,
                created_at: created_at@,
            };
            assert(self@.shelves =~= old(self)@.shelves.push(sv));
            assert(self@.cabinets =~= old(self)@.cabinets);
            assert(self@.items =~= old(self)@.items);
            assert(self@ == with_new_shelf(old(self)@, sv));
            lemma_new_shelf_wf(old(self)@, cabinet_id as int, name@, description@, created_at@);
        }
        Ok(id)
    }

    /// Create a shelf stamped with the current wall-clock time, under the
    /// same success and failure conditions as `create_shelf_at`.
    pub fn create_shelf(&mut self, cabinet_id: i64, name: &str, description: &str) -> (r: Result<
        i64,
        StoreError,
    >)
        requires
            old(self)@.wf(),
        ensures
            final(self)@.wf(),
            match r {
                Ok(id) => {
                    &&& old(self)@.has_cabinet_id(cabinet_id as int)
                    &&& !old(self)@.has_shelf_name(cabinet_id as int, name@)
                    &&& old(self)@.next_shelf_id < i64::MAX
                    &&& id as int == old(self)@.next_shelf_id
                    &&& exists|ts: Seq<char>|
                        final(self)@ == #[trigger] with_new_shelf(
                            old(self)@,
                            ShelfV {
                                id: id as int,
                                cabinet_id: cabinet_id as int,
                                name: name@,
                                description: description@,
                                created_at: ts,
                            },
                        )
                },
                Err(StoreError::UnknownCabinet) => !old(self)@.has_cabinet_id(cabinet_id as int)
                    && final(self)@ == old(self)@,
                Err(StoreError::DuplicateShelfName) => old(self)@.has_cabinet_id(cabinet_id as int)
                    && old(self)@.has_shelf_name(cabinet_id as int, name@) && final(self)@ == old(self)@,
                Err(StoreError::IdsExhausted) => old(self)@.has_cabinet_id(cabinet_id as int)
                    && !old(self)@.has_shelf_name(cabinet_id as int, name@) && old(self)@.next_shelf_id == i64::MAX && final(self)@ == old(self)@,
                Err(_) => false,
            },
    {
        let ts = now_rfc3339();
        let r = self.create_shelf_at(cabinet_id, name, description, ts.as_str());
        proof {
            if r is Ok {
                assert(self@ == with_new_shelf(
                    old(self)@,
                    ShelfV {
                        id: old(self)@.next_shelf_id,
                        cabinet_id: cabinet_id as int,
                        name: name@,
                        description: description@,
                        created_at: ts@,
                    },
                ));
            }
        }
        r
    }

    /// Look a shelf up by its cabinet and name.
    pub fn get_shelf_by_name(&self, cabinet_id: i64, name: &str) -> (r: Option<Shelf>)
        ensures
            match r {
                Some(sh) => self@.has_shelf_name(cabinet_id as int, name@) && sh@.cabinet_id
                    == cabinet_id as int && sh@.name == name@ && exists|i: int|
                    0 <= i < self@.shelves.len() && #[trigger] self@.shelves[i] == sh@,
                None => !self@.has_shelf_name(cabinet_id as int, name@),
            },
    {
        match self.find_shelf_by_pair(cabinet_id, name) {
            Some(i) => {
                let sh = self.shelves[i].clone();
                Some(sh)
            },
            None => None,
        }
    }

    fn table_shelves(&self) -> (r: Vec<Shelf>)
        ensures
            view_shelves(r@) =~= self@.shelves,
    {
        let n = self.shelves.len();
        let mut out: Vec<Shelf> = Vec::new();
        for i in 0..n
            invariant
                n == self.shelves.len(),
                view_shelves(out@) =~= self@.shelves.subrange(0, i as int),
        {
            let ghost prev = out@;
            out.push(self.shelves[i].clone());
            proof {
                assert(out@ == prev.push(self.shelves@[i as int]));
                lemma_view_shelves_push(prev, self.shelves@[i as int]);
                assert(view_shelves(out@) =~= self@.shelves.subrange(0, i as int + 1));
            }
        }
        proof {
            assert(self@.shelves.subrange(0, n as int) =~= self@.shelves);
        }
        out
    }

    /// All shelves sorted by cabinet id then name, or one cabinet's shelves
    /// sorted by name.
    pub fn list_shelves(&self, cabinet_id: Option<i64>) -> (r: Vec<Shelf>)
        ensures
            match cabinet_id {
                Some(cid) => view_shelves(r@) =~= sort_shelves(
                    shelves_of_seq(self@.shelves, cid as int),
                ),
                None => view_shelves(r@) =~= sort_shelves(self@.shelves),
            },
    {
        let n = self.shelves.len();
        let mut out: Vec<Shelf> = Vec::new();
        match cabinet_id {
            None => {
                proof {
                    assert(view_shelves(out@) =~= sort_shelves(self@.shelves.subrange(0, 0)));
                }
                for i in 0..n
                    invariant
                        n == self.shelves.len(),
                        view_shelves(out@) =~= sort_shelves(self@.shelves.subrange(0, i as int)),
                {
                    proof {
                        assert(self@.shelves.subrange(0, i as int + 1).drop_last() =~= self@
                            .shelves.subrange(0, i as int));
                        assert(self@.shelves.subrange(0, i as int + 1).last()
                            == self@.shelves[i as int]);
                        assert(self@.shelves[i as int] == self.shelves@[i as int]@);
                    }
                    insert_shelf_sorted(&mut out, self.shelves[i].clone());
                    proof {
                        assert(view_shelves(out@) =~= sort_shelves(
                            self@.shelves.subrange(0, i as int + 1),
                        ));
                    }
                }
                proof {
                    assert(self@.shelves.subrange(0, n as int) =~= self@.shelves);
                }
                out
            },
            Some(cid) => {
                proof {
                    assert(view_shelves(out@) =~= sort_shelves(
                        shelves_of_seq(self@.shelves.subrange(0, 0), cid as int),
                    ));
                }
                for i in 0..n
                    invariant
                        n == self.shelves.len(),
                        view_shelves(out@) =~= sort_shelves(
                            shelves_of_seq(self@.shelves.subrange(0, i as int), cid as int),
                        ),
                {
                    let ghost prevsub = shelves_of_seq(
                        self@.shelves.subrange(0, i as int),
                        cid as int,
                    );
                    let ghost nextsub = shelves_of_seq(
                        self@.shelves.subrange(0, i as int + 1),
                        cid as int,
                    );
                    proof {
                        lemma_shelves_of_step(self@.shelves, i as int, cid as int);
                        assert(self@.shelves[i as int] == self.shelves@[i as int]@);
                    }
                    if self.shelves[i].cabinet_id == cid {
                        insert_shelf_sorted(&mut out, self.shelves[i].clone());
                        proof {
                            assert(nextsub == prevsub.push(self@.shelves[i as int]));
                            assert(nextsub.drop_last() =~= prevsub);
                            assert(view_shelves(out@) =~= sort_shelves(nextsub));
                        }
                    } else {
                        proof {
                            assert(nextsub == prevsub);
                        }
                    }
                }
                proof {
                    assert(self@.shelves.subrange(0, n as int) =~= self@.shelves);
                }
                out
            },
        }
    }

    /// Record one classified path. The caller supplies every field but the
    /// id, which the store assigns. Fails, leaving the store unchanged,
    /// exactly when the shelf id does not resolve, the path was already
    /// recorded, or the id counter is spent.
    pub fn insert_item(&mut self, item: &Item) -> (r: Result<i64, StoreError>)
        requires
            old(self)@.wf(),
        ensures
            final(self)@.wf(),
            match r {
                Ok(id) => {
                    &&& old(self)@.has_shelf_id(item@.shelf_id)
                    &&& !old(self)@.has_item_path(item@.path)
                    &&& old(self)@.next_item_id < i64::MAX
                    &&& id as int == old(self)@.next_item_id
                    &&& final(self)@ == with_new_item(
                        old(self)@,
                        ItemV { id: Some(id as int), ..item@ },
                    )
                },
                Err(StoreError::UnknownShelf) => !old(self)@.has_shelf_id(item@.shelf_id)
                    && final(self)@ == old(self)@,
                Err(StoreError::DuplicateItemPath) => old(self)@.has_shelf_id(item@.shelf_id)
                    && old(self)@.has_item_path(item@.path) && final(self)@ == old(self)@,
                Err(StoreError::IdsExhausted) => old(self)@.has_shelf_id(item@.shelf_id)
                    && !old(self)@.has_item_path(item@.path) && old(self)@.next_item_id
                    == i64::MAX && final(self)@ == old(self)@,
                Err(_) => false,
            },
    {
        if self.find_shelf_by_id(item.shelf_id).is_none() {
            return Err(StoreError::UnknownShelf);
        }
        if self.find_item_by_path(item.path.as_str()).is_some() {
            return Err(StoreError::DuplicateItemPath);
        }
        if self.next_item_id == i64::MAX {
            return Err(StoreError::IdsExhausted);
        }
        let id = self.next_item_id;
        let mut row = item.clone();
        row.id = Some(id);
        self.items.push(row);
        self.next_item_id = id + 1;
        proof {
            let iv = ItemV { id: Some(id as int), ..item@ };
            assert(self@.items =~= old(self)@.items.push(iv));
            assert(self@.cabinets =~= old(self)@.cabinets);
            assert(self@.shelves =~= old(self)@.shelves);
            assert(self@ == with_new_item(old(self)@, iv));
            lemma_new_item_wf(old(self)@, iv);
        }
        Ok(id)
    }

    /// Look an item up by its path.
    pub fn get_item_by_path(&self, path: &str) -> (r: Option<Item>)
        ensures
            match r {
                Some(it) => self@.has_item_path(path@) && it@.path == path@ && exists|i: int|
                    0 <= i < self@.items.len() && #[trigger] self@.items[i] == it@,
                None => !self@.has_item_path(path@),
            },
    {
        match self.find_item_by_path(path) {
            Some(i) => {
                let it = self.items[i].clone();
                Some(it)
            },
            None => None,
        }
    }

    fn table_items(&self) -> (r: Vec<Item>)
        ensures
            view_items(r@) =~= self@.items,
    {
        let n = self.items.len();
        let mut out: Vec<Item> = Vec::new();
        for i in 0..n
            invariant
                n == self.items.len(),
                view_items(out@) =~= self@.items.subrange(0, i as int),
        {
            let ghost prev = out@;
            out.push(self.items[i].clone());
            proof {
                assert(out@ == prev.push(self.items@[i as int]));
                lemma_view_items_push(prev, self.items@[i as int]);
                assert(view_items(out@) =~= self@.items.subrange(0, i as int + 1));
            }
        }
        proof {
            assert(self@.items.subrange(0, n as int) =~= self@.items);
        }
        out
    }

    /// All items, sorted by shelf id then original name.
    pub fn list_all_items(&self) -> (r: Vec<Item>)
        ensures
            view_items(r@) =~= sort_items(self@.items),
    {
        let n = self.items.len();
        let mut out: Vec<Item> = Vec::new();
        proof {
            assert(view_items(out@) =~= sort_items(self@.items.subrange(0, 0)));
        }
        for i in 0..n
            invariant
                n == self.items.len(),
                view_items(out@) =~= sort_items(self@.items.subrange(0, i as int)),
        {
            proof {
                assert(self@.items.subrange(0, i as int + 1).drop_last() =~= self@.items.subrange(
                    0,
                    i as int,
                ));
                assert(self@.items.subrange(0, i as int + 1).last() == self@.items[i as int]);
                assert(self@.items[i as int] == self.items@[i as int]@);
            }
            insert_item_sorted(&mut out, self.items[i].clone());
            proof {
                assert(view_items(out@) =~= sort_items(self@.items.subrange(0, i as int + 1)));
            }
        }
        proof {
            assert(self@.items.subrange(0, n as int) =~= self@.items);
        }
        out
    }

    /// Every path ever recorded, in store order: the scanner's exclusion
    /// set.
    pub fn get_processed_paths(&self) -> (r: Vec<String>)
        ensures
            view_strings(r@) =~= item_paths(self@.items),
    {
        let n = self.items.len();
        let mut out: Vec<String> = Vec::new();
        for i in 0..n
            invariant
                n == self.items.len(),
                view_strings(out@) =~= item_paths(self@.items.subrange(0, i as int)),
        {
            let ghost prev = out@;
            out.push(self.items[i].path.clone());
            proof {
                assert(out@ == prev.push(self.items@[i as int].path));
                lemma_view_strings_push(prev, self.items@[i as int].path);
                assert(view_strings(out@) =~= item_paths(self@.items.subrange(0, i as int + 1)));
            }
        }
        proof {
            assert(self@.items.subrange(0, n as int) =~= self@.items);
        }
        out
    }

    fn find_item_by_id(&self, id: i64) -> (r: Option<usize>)
        ensures
            match r {
                Some(i) => i < self@.items.len() && self@.items[i as int].id == Some(id as int),
                None => forall|j: int|
                    0 <= j < self@.items.len() ==> (#[trigger] self@.items[j]).id != Some(
                        id as int,
                    ),
            },
    {
        let n = self.items.len();
        for i in 0..n
            invariant
                n == self.items.len(),
                forall|j: int| 0 <= j < i ==> (#[trigger] self@.items[j]).id != Some(id as int),
        {
            if let Some(item_id) = self.items[i].id {
                if item_id == id {
                    return Some(i);
                }
            }
        }
        None
    }

    /// Rewrite the description and suggested name of the item carrying the
    /// given id. An id no item carries leaves the store unchanged.
    pub fn update_item_content(&mut self, item_id: i64, description: &str, suggested_name: &str)
        requires
            old(self)@.wf(),
        ensures
            final(self)@.wf(),
            final(self)@ == (StoreV {
                items: items_with_content(
                    old(self)@.items,
                    item_id as int,
                    description@,
                    suggested_name@,
                ),
                ..old(self)@
            }),
    {
        let ghost target = items_with_content(
            old(self)@.items,
            item_id as int,
            description@,
            suggested_name@,
        );
        match self.find_item_by_id(item_id) {
            Some(i) => {
                let mut row = self.items[i].clone();
                row.description = description.to_owned();
                row.suggested_name = Some(suggested_name.to_owned());
                self.items[i] = row;
                proof {
                    assert forall|j: int| 0 <= j < self@.items.len() implies self@.items[j]
                        == target[j] by {
                        if j != i as int {
                            assert(old(self)@.items[j].id != Some(item_id as int));
                        }
                    }
                    assert(self@.items =~= target);
                    lemma_item_update_wf(old(self)@, target);
                }
            },
            None => {
                proof {
                    assert(self@.items =~= target);
                    lemma_item_update_wf(old(self)@, target);
                }
            },
        }
    }

    /// Move the item carrying the given id onto another shelf. Fails,
    /// leaving the store unchanged, exactly when the shelf id does not
    /// resolve; an item id no item carries leaves the store unchanged.
    pub fn update_item_shelf(&mut self, item_id: i64, new_shelf_id: i64) -> (r: Result<
        (),
        StoreError,
    >)
        requires
            old(self)@.wf(),
        ensures
            final(self)@.wf(),
            match r {
                Ok(_) => old(self)@.has_shelf_id(new_shelf_id as int) && final(self)@ == (StoreV {
                    items: items_with_shelf(old(self)@.items, item_id as int, new_shelf_id as int),
                    ..old(self)@
                }),
                Err(StoreError::UnknownShelf) => !old(self)@.has_shelf_id(new_shelf_id as int)
                    && final(self)@ == old(self)@,
                Err(_) => false,
            },
    {
        if self.find_shelf_by_id(new_shelf_id).is_none() {
            return Err(StoreError::UnknownShelf);
        }
        let ghost target = items_with_shelf(old(self)@.items, item_id as int, new_shelf_id as int);
        match self.find_item_by_id(item_id) {
            Some(i) => {
                let mut row = self.items[i].clone();
                row.shelf_id = new_shelf_id;
                self.items[i] = row;
                proof {
                    assert forall|j: int| 0 <= j < self@.items.len() implies self@.items[j]
                        == target[j] by {
                        if j != i as int {
                            assert(old(self)@.items[j].id != Some(item_id as int));
                        }
                    }
                    assert(self@.items =~= target);
                    assert forall|j: int| 0 <= j < target.len() implies old(self)@.has_shelf_id(
                        (#[trigger] target[j]).shelf_id,
                    ) by {
                        if target[j].shelf_id != new_shelf_id as int {
                            assert(target[j].shelf_id == old(self)@.items[j].shelf_id);
                        }
                    }
                    lemma_item_update_wf(old(self)@, target);
                }
            },
            None => {
                proof {
                    assert(self@.items =~= target);
                    assert forall|j: int| 0 <= j < target.len() implies old(self)@.has_shelf_id(
                        (#[trigger] target[j]).shelf_id,
                    ) by {
                        assert(target[j].shelf_id == old(self)@.items[j].shelf_id);
                    }
                    lemma_item_update_wf(old(self)@, target);
                }
            },
        }
        Ok(())
    }

    /// Rename the cabinet carrying the given id. Fails, leaving the store
    /// unchanged, exactly when another cabinet already holds the new name;
    /// an id no cabinet carries leaves the store unchanged.
    pub fn update_cabinet(&mut self, cabinet_id: i64, name: &str, description: &str) -> (r: Result<
        (),
        StoreError,
    >)
        requires
            old(self)@.wf(),
        ensures
            final(self)@.wf(),
            match r {
                Ok(_) => {
                    &&& forall|i: int|
                        0 <= i < old(self)@.cabinets.len() ==> ((
                        #[trigger] old(self)@.cabinets[i]).id != cabinet_id as int ==> old(
                            self,
                        )@.cabinets[i].name != name@) || !old(self)@.has_cabinet_id(
                            cabinet_id as int,
                        )
                    &&& final(self)@ == (StoreV {
                        cabinets: cabinets_renamed(
                            old(self)@.cabinets,
                            cabinet_id as int,
                            name@,
                            description@,
                        ),
                        ..old(self)@
                    })
                },
                Err(StoreError::DuplicateCabinetName) => {
                    &&& old(self)@.has_cabinet_id(cabinet_id as int)
                    &&& exists|i: int|
                        0 <= i < old(self)@.cabinets.len() && (
                        #[trigger] old(self)@.cabinets[i]).id != cabinet_id as int && old(
                            self,
                        )@.cabinets[i].name == name@
                    &&& final(self)@ == old(self)@
                },
                Err(_) => false,
            },
    {
        let ghost target = cabinets_renamed(
            old(self)@.cabinets,
            cabinet_id as int,
            name@,
            description@,
        );
        match self.find_cabinet_by_id(cabinet_id) {
            Some(i) => {
                let dup = self.find_cabinet_by_name(name);
                let conflict = match dup {
                    Some(j) => self.cabinets[j].id != cabinet_id,
                    None => false,
                };
                if conflict {
                    return Err(StoreError::DuplicateCabinetName);
                }
                proof {
                    assert forall|j: int|
                        0 <= j < self@.cabinets.len() && (#[trigger] self@.cabinets[j]).id
                            != cabinet_id as int implies self@.cabinets[j].name != name@ by {
                        if self@.cabinets[j].name == name@ {
                            assert(self@.has_cabinet_name(name@));
                            let m = dup->Some_0 as int;
                            assert(self@.cabinets[m].name == name@);
                            assert(j != m);
                        }
                    }
                }
                let mut row = self.cabinets[i].clone();
                row.name = name.to_owned();
                row.description = description.to_owned();
                self.cabinets[i] = row;
                proof {
                    assert forall|j: int| 0 <= j < self@.cabinets.len() implies self@.cabinets[j]
                        == target[j] by {
                        if j != i as int {
                            assert(old(self)@.cabinets[j].id != cabinet_id as int);
                        }
                    }
                    assert(self@.cabinets =~= target);
                    lemma_rename_cabinet_wf(old(self)@, cabinet_id as int, name@, description@);
                }
            },
            None => {
                proof {
                    assert forall|j: int| 0 <= j < old(self)@.cabinets.len() implies target[j]
                        == old(self)@.cabinets[j] by {
                        assert(old(self)@.cabinets[j].id != cabinet_id as int);
                    }
                    assert(target =~= old(self)@.cabinets);
                    assert(self@ == (StoreV { cabinets: target, ..old(self)@ }));
                }
            },
        }
        Ok(())
    }

    /// Rename the shelf carrying the given id. Fails, leaving the store
    /// unchanged, exactly when a sibling shelf in the same cabinet already
    /// holds the new name; an id no shelf carries leaves the store
    /// unchanged.
    pub fn update_shelf(&mut self, shelf_id: i64, name: &str, description: &str) -> (r: Result<
        (),
        StoreError,
    >)
        requires
            old(self)@.wf(),
        ensures
            final(self)@.wf(),
            match r {
                Ok(_) => final(self)@ == (StoreV {
                    shelves: shelves_renamed(
                        old(self)@.shelves,
                        shelf_id as int,
                        name@,
                        description@,
                    ),
                    ..old(self)@
                }),
                Err(StoreError::DuplicateShelfName) => {
                    &&& exists|i: int, j: int|
                        0 <= i < old(self)@.shelves.len() && 0 <= j < old(self)@.shelves.len() && (
                        #[trigger] old(self)@.shelves[i]).id == shelf_id as int && (
                        #[trigger] old(self)@.shelves[j]).id != shelf_id as int && old(
                            self,
                        )@.shelves[j].cabinet_id == old(self)@.shelves[i].cabinet_id && old(
                            self,
                        )@.shelves[j].name == name@
                    &&& final(self)@ == old(self)@
                },
                Err(_) => false,
            },
    {
        let ghost target = shelves_renamed(old(self)@.shelves, shelf_id as int, name@, description@);
        match self.find_shelf_by_id(shelf_id) {
            Some(i) => {
                let cabinet_id = self.shelves[i].cabinet_id;
                let dup = self.find_shelf_by_pair(cabinet_id, name);
                let conflict = match dup {
                    Some(j) => self.shelves[j].id != shelf_id,
                    None => false,
                };
                if conflict {
                    return Err(StoreError::DuplicateShelfName);
                }
                proof {
                    assert forall|a: int, b: int|
                        0 <= a < self@.shelves.len() && 0 <= b < self@.shelves.len() && (
                        #[trigger] self@.shelves[a]).id == shelf_id as int && (
                        #[trigger] self@.shelves[b]).id != shelf_id as int implies !(
                    self@.shelves[b].cabinet_id == self@.shelves[a].cabinet_id
                        && self@.shelves[b].name == name@) by {
                        assert(a == i as int);
                        if self@.shelves[b].cabinet_id == cabinet_id as int
                            && self@.shelves[b].name == name@ {
                            assert(self@.has_shelf_name(cabinet_id as int, name@));
                            let m = dup->Some_0 as int;
                            assert(b != m);
                        }
                    }
                }
                let mut row = self.shelves[i].clone();
                row.name = name.to_owned();
                row.description = description.to_owned();
                self.shelves[i] = row;
                proof {
                    assert forall|j: int| 0 <= j < self@.shelves.len() implies self@.shelves[j]
                        == target[j] by {
                        if j != i as int {
                            assert(old(self)@.shelves[j].id != shelf_id as int);
                        }
                    }
                    assert(self@.shelves =~= target);
                    assert forall|a: int, b: int|
                        0 <= a < old(self)@.shelves.len() && 0 <= b < old(self)@.shelves.len() && (
                        #[trigger] old(self)@.shelves[a]).id == shelf_id as int && (
                        #[trigger] old(self)@.shelves[b]).id != shelf_id as int implies !(old(
                        self,
                    )@.shelves[b].cabinet_id == old(self)@.shelves[a].cabinet_id && old(
                        self,
                    )@.shelves[b].name == name@) by {
                        assert(a == i as int);
                    }
                    lemma_rename_shelf_wf(old(self)@, shelf_id as int, name@, description@);
                }
            },
            None => {
                proof {
                    assert forall|j: int| 0 <= j < old(self)@.shelves.len() implies target[j]
                        == old(self)@.shelves[j] by {
                        assert(old(self)@.shelves[j].id != shelf_id as int);
                    }
                    assert(target =~= old(self)@.shelves);
                    assert(self@ == (StoreV { shelves: target, ..old(self)@ }));
                }
            },
        }
        Ok(())
    }

    /// Delete the cabinet carrying the given id. Fails, leaving the store
    /// unchanged, exactly when the cabinet still holds shelves; an id no
    /// cabinet carries leaves the store unchanged.
    pub fn delete_cabinet(&mut self, cabinet_id: i64) -> (r: Result<(), StoreError>)
        requires
            old(self)@.wf(),
        ensures
            final(self)@.wf(),
            match r {
                Ok(_) => {
                    &&& !old(self)@.has_shelf_in_cabinet(cabinet_id as int)
                    &&& if old(self)@.has_cabinet_id(cabinet_id as int) {
                        exists|k: int|
                            0 <= k < old(self)@.cabinets.len() && (
                            #[trigger] old(self)@.cabinets[k]).id == cabinet_id as int
                                && final(self)@ == (StoreV {
                                cabinets: old(self)@.cabinets.remove(k),
                                ..old(self)@
                            })
                    } else {
                        final(self)@ == old(self)@
                    }
                },
                Err(StoreError::CabinetNotEmpty) => old(self)@.has_shelf_in_cabinet(
                    cabinet_id as int,
                ) && final(self)@ == old(self)@,
                Err(_) => false,
            },
    {
        let n = self.shelves.len();
        for i in 0..n
            invariant
                n == self.shelves.len(),
                old(self)@.wf(),
                self@ == old(self)@,
                forall|j: int|
                    0 <= j < i ==> (#[trigger] self@.shelves[j]).cabinet_id != cabinet_id as int,
        {
            if self.shelves[i].cabinet_id == cabinet_id {
                proof {
                    assert(self@.shelves[i as int].cabinet_id == cabinet_id as int);
                }
                return Err(StoreError::CabinetNotEmpty);
            }
        }
        match self.find_cabinet_by_id(cabinet_id) {
            Some(k) => {
                self.cabinets.remove(k);
                proof {
                    lemma_view_cabinets_remove(old(self).cabinets@, k as int);
                    assert(self@.cabinets =~= old(self)@.cabinets.remove(k as int));
                    lemma_remove_cabinet_wf(old(self)@, k as int);
                    assert(old(self)@.cabinets[k as int].id == cabinet_id as int);
                    assert(self@ == (StoreV {
                        cabinets: old(self)@.cabinets.remove(k as int),
                        ..old(self)@
                    }));
                }
            },
            None => {},
        }
        Ok(())
    }

    /// Delete the shelf carrying the given id. Fails, leaving the store
    /// unchanged, exactly when the shelf still holds items; an id no shelf
    /// carries leaves the store unchanged.
    pub fn delete_shelf(&mut self, shelf_id: i64) -> (r: Result<(), StoreError>)
        requires
            old(self)@.wf(),
        ensures
            final(self)@.wf(),
            match r {
                Ok(_) => {
                    &&& !old(self)@.has_item_on_shelf(shelf_id as int)
                    &&& if old(self)@.has_shelf_id(shelf_id as int) {
                        exists|k: int|
                            0 <= k < old(self)@.shelves.len() && (
                            #[trigger] old(self)@.shelves[k]).id == shelf_id as int
                                && final(self)@ == (StoreV {
                                shelves: old(self)@.shelves.remove(k),
                                ..old(self)@
                            })
                    } else {
                        final(self)@ == old(self)@
                    }
                },
                Err(StoreError::ShelfNotEmpty) => old(self)@.has_item_on_shelf(shelf_id as int)
                    && final(self)@ == old(self)@,
                Err(_) => false,
            },
    {
        let n = self.items.len();
        for i in 0..n
            invariant
                n == self.items.len(),
                old(self)@.wf(),
                self@ == old(self)@,
                forall|j: int|
                    0 <= j < i ==> (#[trigger] self@.items[j]).shelf_id != shelf_id as int,
        {
            if self.items[i].shelf_id == shelf_id {
                proof {
                    assert(self@.items[i as int].shelf_id == shelf_id as int);
                }
                return Err(StoreError::ShelfNotEmpty);
            }
        }
        match self.find_shelf_by_id(shelf_id) {
            Some(k) => {
                self.shelves.remove(k);
                proof {
                    lemma_view_shelves_remove(old(self).shelves@, k as int);
                    assert(self@.shelves =~= old(self)@.shelves.remove(k as int));
                    lemma_remove_shelf_wf(old(self)@, k as int);
                    assert(old(self)@.shelves[k as int].id == shelf_id as int);
                    assert(self@ == (StoreV {
                        shelves: old(self)@.shelves.remove(k as int),
                        ..old(self)@
                    }));
                }
            },
            None => {},
        }
        Ok(())
    }
}

impl Clone for Database {
    fn clone(&self) -> (c: Self)
        ensures
            c@ == self@,
    {
        let c = Database {
            cabinets: self.table_cabinets(),
            shelves: self.table_shelves(),
            items: self.table_items(),
            next_cabinet_id: self.next_cabinet_id,
            next_shelf_id: self.next_shelf_id,
            next_item_id: self.next_item_id,
        };
        proof {
            assert(c@.cabinets == self@.cabinets);
            assert(c@.shelves == self@.shelves);
            assert(c@.items == self@.items);
        }
        c
    }
}

} // verus!