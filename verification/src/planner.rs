//! The planner: a pure function of a store snapshot. It derives the
//! category tree — each cabinet with its shelves and how many items each
//! shelf will receive — and the flat movement list, one entry per recorded
//! item, carrying its destination names, its optional rename and its stored
//! description as the rationale. Cabinets come sorted by name, shelves by
//! name within their cabinet, and movements by shelf then original name —
//! the order the store's listings return.
use vstd::prelude::*;

use crate::database::{
    shelves_of_seq, sort_cabinets, sort_items, sort_shelves, view_cabinets, view_items,
    view_shelves, Cabinet, CabinetV, Database, ItemV, Shelf, ShelfV, StoreV,
};
use crate::models::{
    view_cabinet_plans, view_movements, view_shelf_plans, CabinetPlan, CabinetPlanV, FileMovement,
    FileMovementV, OrganizationPlan, OrganizationPlanV, ShelfPlan, ShelfPlanV,
};

verus! {

/// The first shelf carrying the given id, if any.
pub open spec fn find_shelf(shelves: Seq<ShelfV>, id: int) -> Option<ShelfV>
    decreases shelves.len(),
{
    if shelves.len() == 0 {
        None
    } else if shelves[0].id == id {
        Some(shelves[0])
    } else {
        find_shelf(shelves.drop_first(), id)
    }
}

/// The first cabinet carrying the given id, if any.
pub open spec fn find_cabinet(cabs: Seq<CabinetV>, id: int) -> Option<CabinetV>
    decreases cabs.len(),
{
    if cabs.len() == 0 {
        None
    } else if cabs[0].id == id {
        Some(cabs[0])
    } else {
        find_cabinet(cabs.drop_first(), id)
    }
}

/// How many items sit on the given shelf.
pub open spec fn count_items_on(items: Seq<ItemV>, shelf_id: int) -> nat
    decreases items.len(),
{
    if items.len() == 0 {
        0
    } else {
        count_items_on(items.drop_last(), shelf_id) + if items.last().shelf_id == shelf_id {
            1nat
        } else {
            0nat
        }
    }
}

/// One shelf of the plan: its name, description and item count.
pub open spec fn spec_shelf_plan(items: Seq<ItemV>, sh: ShelfV) -> ShelfPlanV {
    ShelfPlanV { name: sh.name, description: sh.description, item_count: count_items_on(
        items,
        sh.id,
    ) }
}

/// One cabinet of the plan: its name and description, and a plan entry for
/// each of its shelves, in shelf-listing order.
pub open spec fn spec_cabinet_plan(s: StoreV, c: CabinetV) -> CabinetPlanV {
    CabinetPlanV {
        name: c.name,
        description: c.description,
        shelves: shelves_of_seq(sort_shelves(s.shelves), c.id).map_values(
            |sh: ShelfV| spec_shelf_plan(sort_items(s.items), sh),
        ),
    }
}

/// One planned movement: the item's path to its shelf's and cabinet's
/// names, with the recorded rename suggestion and the description as the
/// rationale. In a well-formed store the lookups always land.
pub open spec fn spec_movement(s: StoreV, iv: ItemV) -> FileMovementV {
    let shelf = find_shelf(sort_shelves(s.shelves), iv.shelf_id);
    let cabinet = match shelf {
        Some(sh) => find_cabinet(sort_cabinets(s.cabinets), sh.cabinet_id),
        None => None,
    };
    FileMovementV {
        from: iv.path,
        to_cabinet: match cabinet {
            Some(c) => c.name,
            None => Seq::empty(),
        },
        to_shelf: match shelf {
            Some(sh) => sh.name,
            None => Seq::empty(),
        },
        new_name: iv.suggested_name,
        reasoning: iv.description,
    }
}

/// The whole plan a store snapshot determines: the sorted cabinet listing
/// mapped to its tree, and the sorted item listing mapped to movements.
pub open spec fn spec_plan(s: StoreV) -> OrganizationPlanV {
    OrganizationPlanV {
        cabinets: sort_cabinets(s.cabinets).map_values(|c: CabinetV| spec_cabinet_plan(s, c)),
        movements: sort_items(s.items).map_values(|iv: ItemV| spec_movement(s, iv)),
    }
}

proof fn lemma_find_shelf_some(shelves: Seq<ShelfV>, id: int)
    requires
        exists|k: int| 0 <= k < shelves.len() && (#[trigger] shelves[k]).id == id,
    ensures
        find_shelf(shelves, id) is Some,
        find_shelf(shelves, id)->Some_0.id == id,
        exists|k: int|
            0 <= k < shelves.len() && #[trigger] shelves[k] == find_shelf(shelves, id)->Some_0,
    decreases shelves.len(),
{
    if shelves[0].id != id {
        let k = choose|k: int| 0 <= k < shelves.len() && (#[trigger] shelves[k]).id == id;
        assert(shelves.drop_first()[k - 1].id == id);
        lemma_find_shelf_some(shelves.drop_first(), id);
        let m = choose|m: int|
            0 <= m < shelves.drop_first().len() && #[trigger] shelves.drop_first()[m]
                == find_shelf(shelves.drop_first(), id)->Some_0;
        assert(shelves[m + 1] == find_shelf(shelves, id)->Some_0);
    }
}

proof fn lemma_find_cabinet_some(cabs: Seq<CabinetV>, id: int)
    requires
        exists|k: int| 0 <= k < cabs.len() && (#[trigger] cabs[k]).id == id,
    ensures
        find_cabinet(cabs, id) is Some,
        find_cabinet(cabs, id)->Some_0.id == id,
    decreases cabs.len(),
{
    if cabs[0].id != id {
        let k = choose|k: int| 0 <= k < cabs.len() && (#[trigger] cabs[k]).id == id;
        assert(cabs.drop_first()[k - 1].id == id);
        lemma_find_cabinet_some(cabs.drop_first(), id);
    }
}

proof fn lemma_sorted_has_shelf_id(s: StoreV, id: int)
    requires
        s.has_shelf_id(id),
    ensures
        exists|k: int|
            0 <= k < sort_shelves(s.shelves).len() && (#[trigger] sort_shelves(s.shelves)[k]).id
                == id,
{
    crate::database::lemma_shelf_order_properties();
    let k = choose|k: int| 0 <= k < s.shelves.len() && (#[trigger] s.shelves[k]).id == id;
    assert(s.shelves.contains(s.shelves[k]));
    crate::order::lemma_sort_ordered_contains(
        s.shelves,
        crate::database::shelf_order(),
        s.shelves[k],
    );
    let m = choose|m: int|
        0 <= m < sort_shelves(s.shelves).len() && sort_shelves(s.shelves)[m] == s.shelves[k];
    assert((sort_shelves(s.shelves)[m]).id == id);
}

proof fn lemma_sorted_has_cabinet_id(s: StoreV, id: int)
    requires
        s.has_cabinet_id(id),
    ensures
        exists|k: int|
            0 <= k < sort_cabinets(s.cabinets).len() && (#[trigger] sort_cabinets(s.cabinets)[k]).id
                == id,
{
    crate::database::lemma_cabinet_order_properties();
    let k = choose|k: int| 0 <= k < s.cabinets.len() && (#[trigger] s.cabinets[k]).id == id;
    assert(s.cabinets.contains(s.cabinets[k]));
    crate::order::lemma_sort_ordered_contains(
        s.cabinets,
        crate::database::cabinet_order(),
        s.cabinets[k],
    );
    let m = choose|m: int|
        0 <= m < sort_cabinets(s.cabinets).len() && sort_cabinets(s.cabinets)[m] == s.cabinets[k];
    assert((sort_cabinets(s.cabinets)[m]).id == id);
}

/// In a well-formed store every movement's lookups land: each recorded item
/// resolves to a shelf, and that shelf to a cabinet — the plan never falls
/// back to an empty destination name.
pub proof fn lemma_plan_lookups_resolve(s: StoreV)
    requires
        s.wf(),
    ensures
        forall|i: int|
            0 <= i < sort_items(s.items).len() ==> (#[trigger] find_shelf(
                sort_shelves(s.shelves),
                sort_items(s.items)[i].shelf_id,
            )) is Some && find_cabinet(
                sort_cabinets(s.cabinets),
                find_shelf(sort_shelves(s.shelves), sort_items(s.items)[i].shelf_id)
                    ->Some_0.cabinet_id,
            ) is Some,
{
    crate::database::lemma_item_order_properties();
    let sorted_items = sort_items(s.items);
    assert forall|i: int| 0 <= i < sorted_items.len() implies (#[trigger] find_shelf(
        sort_shelves(s.shelves),
        sorted_items[i].shelf_id,
    )) is Some && find_cabinet(
        sort_cabinets(s.cabinets),
        find_shelf(sort_shelves(s.shelves), sorted_items[i].shelf_id)->Some_0.cabinet_id,
    ) is Some by {
        // the sorted item is one of the table's items, so its shelf resolves
        assert(sorted_items.contains(sorted_items[i]));
        crate::order::lemma_sort_ordered_contains(
            s.items,
            crate::database::item_order(),
            sorted_items[i],
        );
        let t = choose|t: int| 0 <= t < s.items.len() && #[trigger] s.items[t] == sorted_items[i];
        assert(s.has_shelf_id(s.items[t].shelf_id));
        lemma_sorted_has_shelf_id(s, sorted_items[i].shelf_id);
        lemma_find_shelf_some(sort_shelves(s.shelves), sorted_items[i].shelf_id);
        let sh = find_shelf(sort_shelves(s.shelves), sorted_items[i].shelf_id)->Some_0;
        // the found shelf is one of the table's shelves, so its cabinet resolves
        let k = choose|k: int|
            0 <= k < sort_shelves(s.shelves).len() && #[trigger] sort_shelves(s.shelves)[k] == sh;
        crate::database::lemma_shelf_order_properties();
        assert(sort_shelves(s.shelves).contains(sh));
        crate::order::lemma_sort_ordered_contains(s.shelves, crate::database::shelf_order(), sh);
        let m = choose|m: int| 0 <= m < s.shelves.len() && #[trigger] s.shelves[m] == sh;
        assert(s.has_cabinet_id(s.shelves[m].cabinet_id));
        lemma_sorted_has_cabinet_id(s, sh.cabinet_id);
        lemma_find_cabinet_some(sort_cabinets(s.cabinets), sh.cabinet_id);
    }
}

fn find_shelf_exec(shelves: &Vec<Shelf>, id: i64) -> (r: Option<usize>)
    ensures
        match r {
            Some(k) => k < shelves@.len() && find_shelf(view_shelves(shelves@), id as int) == Some(
                shelves@[k as int]@,
            ),
            None => find_shelf(view_shelves(shelves@), id as int) is None,
        },
{
    let ghost m = view_shelves(shelves@);
    proof {
        assert(m.skip(0) =~= m);
    }
    let n = shelves.len();
    for i in 0..n
        invariant
            n == shelves@.len(),
            m == view_shelves(shelves@),
            m.len() == n,
            find_shelf(m, id as int) == find_shelf(m.skip(i as int), id as int),
    {
        proof {
            assert(m.skip(i as int)[0] == m[i as int]);
            assert(m.skip(i as int).drop_first() =~= m.skip(i as int + 1));
        }
        if shelves[i].id == id {
            return Some(i);
        }
    }
    proof {
        assert(m.skip(n as int).len() == 0);
    }
    None
}

fn find_cabinet_exec(cabinets: &Vec<Cabinet>, id: i64) -> (r: Option<usize>)
    ensures
        match r {
            Some(k) => k < cabinets@.len() && find_cabinet(view_cabinets(cabinets@), id as int)
                == Some(cabinets@[k as int]@),
            None => find_cabinet(view_cabinets(cabinets@), id as int) is None,
        },
{
    let ghost m = view_cabinets(cabinets@);
    proof {
        assert(m.skip(0) =~= m);
    }
    let n = cabinets.len();
    for i in 0..n
        invariant
            n == cabinets@.len(),
            m == view_cabinets(cabinets@),
            m.len() == n,
            find_cabinet(m, id as int) == find_cabinet(m.skip(i as int), id as int),
    {
        proof {
            assert(m.skip(i as int)[0] == m[i as int]);
            assert(m.skip(i as int).drop_first() =~= m.skip(i as int + 1));
        }
        if cabinets[i].id == id {
            return Some(i);
        }
    }
    proof {
        assert(m.skip(n as int).len() == 0);
    }
    None
}

fn count_items_exec(items: &Vec<crate::database::Item>, shelf_id: i64) -> (r: usize)
    ensures
        r == count_items_on(view_items(items@), shelf_id as int),
{
    let ghost m = view_items(items@);
    let n = items.len();
    let mut count: usize = 0;
    for i in 0..n
        invariant
            n == items@.len(),
            m == view_items(items@),
            m.len() == n,
            count == count_items_on(m.subrange(0, i as int), shelf_id as int),
            count <= i,
    {
        proof {
            assert(m.subrange(0, i as int + 1).drop_last() =~= m.subrange(0, i as int));
            assert(m.subrange(0, i as int + 1).last() == m[i as int]);
            assert(m[i as int] == items@[i as int]@);
        }
        if items[i].shelf_id == shelf_id {
            count = count + 1;
        }
    }
    proof {
        assert(m.subrange(0, n as int) =~= m);
    }
    count
}

/// Derive the reorganization plan from a store snapshot: the category tree
/// and one movement per recorded item, in listing order.
pub fn create_organization_plan(db: &Database) -> (r: OrganizationPlan)
    requires
        db@.wf(),
    ensures
        r@ == spec_plan(db@),
{
    let ghost target = spec_plan(db@);
    let ghost cabs_sorted = sort_cabinets(db@.cabinets);
    let ghost shelves_sorted = sort_shelves(db@.shelves);
    let ghost items_sorted = sort_items(db@.items);
    let cabinets = db.list_cabinets();
    let shelves = db.list_shelves(None);
    let items = db.list_all_items();
    proof {
        assert(view_cabinets(cabinets@) == cabs_sorted);
        assert(view_shelves(shelves@) == shelves_sorted);
        assert(view_items(items@) == items_sorted);
        assert(target.cabinets.len() == cabs_sorted.len());
        assert(target.movements.len() == items_sorted.len());
    }
    let cn = cabinets.len();
    let mut cabinet_plans: Vec<CabinetPlan> = Vec::new();
    proof {
        assert(view_cabinet_plans(cabinet_plans@) =~= target.cabinets.subrange(0, 0));
    }
    for i in 0..cn
        invariant
            cn == cabinets@.len(),
            target == spec_plan(db@),
            cabs_sorted == sort_cabinets(db@.cabinets),
            shelves_sorted == sort_shelves(db@.shelves),
            items_sorted == sort_items(db@.items),
            view_cabinets(cabinets@) == cabs_sorted,
            view_shelves(shelves@) == shelves_sorted,
            view_items(items@) == items_sorted,
            target.cabinets.len() == cn,
            view_cabinet_plans(cabinet_plans@) =~= target.cabinets.subrange(0, i as int),
    {
        let cabinet = &cabinets[i];
        let ghost cv = cabinets@[i as int]@;
        proof {
            assert(cabs_sorted[i as int] == cv);
            assert(target.cabinets[i as int] == spec_cabinet_plan(db@, cv));
        }
        let ghost shelf_target = shelves_of_seq(shelves_sorted, cv.id).map_values(
            |sh: ShelfV| spec_shelf_plan(items_sorted, sh),
        );
        let sn = shelves.len();
        let mut shelf_plans: Vec<ShelfPlan> = Vec::new();
        proof {
            assert(shelves_of_seq(shelves_sorted.subrange(0, 0), cv.id).map_values(
                |sh: ShelfV| spec_shelf_plan(items_sorted, sh),
            ) =~= view_shelf_plans(shelf_plans@));
        }
        for k in 0..sn
            invariant
                sn == shelves@.len(),
                *cabinet == cabinets@[i as int],
                i < cabinets@.len(),
                cv == cabinets@[i as int]@,
                shelves_sorted == sort_shelves(db@.shelves),
                items_sorted == sort_items(db@.items),
                view_shelves(shelves@) == shelves_sorted,
                view_items(items@) == items_sorted,
                shelves_sorted.len() == sn,
                shelf_target == shelves_of_seq(shelves_sorted, cv.id).map_values(
                    |sh: ShelfV| spec_shelf_plan(items_sorted, sh),
                ),
                view_shelf_plans(shelf_plans@) =~= shelves_of_seq(
                    shelves_sorted.subrange(0, k as int),
                    cv.id,
                ).map_values(|sh: ShelfV| spec_shelf_plan(items_sorted, sh)),
        {
            proof {
                crate::database::lemma_shelves_of_step(shelves_sorted, k as int, cv.id);
                assert(shelves_sorted[k as int] == shelves@[k as int]@);
            }
            let ghost prevsub = shelves_of_seq(shelves_sorted.subrange(0, k as int), cv.id);
            let ghost nextsub = shelves_of_seq(shelves_sorted.subrange(0, k as int + 1), cv.id);
            if shelves[k].cabinet_id == cabinet.id {
                let count = count_items_exec(&items, shelves[k].id);
                let row = ShelfPlan {
                    name: shelves[k].name.clone(),
                    description: shelves[k].description.clone(),
                    item_count: count,
                };
                let ghost rowg = row;
                let ghost prev = shelf_plans@;
                shelf_plans.push(row);
                proof {
                    assert(shelf_plans@ == prev.push(rowg));
                    crate::models::lemma_view_shelf_plans_push(prev, rowg);
                    assert(rowg@ == spec_shelf_plan(items_sorted, shelves_sorted[k as int]));
                    assert(nextsub == prevsub.push(shelves_sorted[k as int]));
                    assert forall|j: int|
                        0 <= j < nextsub.len() implies nextsub.map_values(
                        |sh: ShelfV| spec_shelf_plan(items_sorted, sh),
                    )[j] == view_shelf_plans(shelf_plans@)[j] by {
                        if j < prevsub.len() {
                            assert(prevsub.map_values(
                                |sh: ShelfV| spec_shelf_plan(items_sorted, sh),
                            )[j] == spec_shelf_plan(items_sorted, prevsub[j]));
                        }
                    }
                    assert(view_shelf_plans(shelf_plans@) =~= nextsub.map_values(
                        |sh: ShelfV| spec_shelf_plan(items_sorted, sh),
                    ));
                }
            } else {
                proof {
                    assert(nextsub == prevsub);
                }
            }
        }
        proof {
            assert(shelves_sorted.subrange(0, sn as int) =~= shelves_sorted);
        }
        let row = CabinetPlan {
            name: cabinet.name.clone(),
            description: cabinet.description.clone(),
            shelves: shelf_plans,
        };
        let ghost rowg = row;
        let ghost prev = cabinet_plans@;
        cabinet_plans.push(row);
        proof {
            assert(cabinet_plans@ == prev.push(rowg));
            crate::models::lemma_view_cabinet_plans_push(prev, rowg);
            assert(rowg@ == spec_cabinet_plan(db@, cv));
            assert(view_cabinet_plans(cabinet_plans@) =~= target.cabinets.subrange(
                0,
                i as int + 1,
            ));
        }
    }
    proof {
        assert(target.cabinets.subrange(0, cn as int) =~= target.cabinets);
    }
    let input_count = items.len();
    let mut movements: Vec<FileMovement> = Vec::new();
    proof {
        assert(view_movements(movements@) =~= target.movements.subrange(0, 0));
    }
    for i in 0..input_count
        invariant
            input_count == items@.len(),
            target == spec_plan(db@),
            cabs_sorted == sort_cabinets(db@.cabinets),
            shelves_sorted == sort_shelves(db@.shelves),
            items_sorted == sort_items(db@.items),
            view_cabinets(cabinets@) == cabs_sorted,
            view_shelves(shelves@) == shelves_sorted,
            view_items(items@) == items_sorted,
            target.movements.len() == input_count,
            view_movements(movements@) =~= target.movements.subrange(0, i as int),
    {
        let item = &items[i];
        let ghost iv = items@[i as int]@;
        proof {
            assert(items_sorted[i as int] == iv);
            assert(target.movements[i as int] == spec_movement(db@, iv));
        }
        let (to_cabinet, to_shelf) = match find_shelf_exec(&shelves, item.shelf_id) {
            Some(k) => {
                let shelf = &shelves[k];
                match find_cabinet_exec(&cabinets, shelf.cabinet_id) {
                    Some(c) => (cabinets[c].name.clone(), shelf.name.clone()),
                    None => (String::new(), shelf.name.clone()),
                }
            },
            None => (String::new(), String::new()),
        };
        let row = FileMovement {
            from: item.path.clone(),
            to_cabinet,
            to_shelf,
            new_name: match item.suggested_name {
                Some(ref sugg) => Some(sugg.clone()),
                None => None,
            },
            reasoning: item.description.clone(),
        };
        let ghost rowg = row;
        let ghost prev = movements@;
        movements.push(row);
        proof {
            assert(movements@ == prev.push(rowg));
            crate::models::lemma_view_movements_push(prev, rowg);
            assert(rowg@ == spec_movement(db@, iv));
            assert(view_movements(movements@) =~= target.movements.subrange(0, i as int + 1));
        }
    }
    proof {
        assert(target.movements.subrange(0, input_count as int) =~= target.movements);
    }
    OrganizationPlan { cabinets: cabinet_plans, movements }
}

} // verus!
