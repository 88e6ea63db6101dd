//! Devices.

use vstd::prelude::*;

use crate::ids::{is_id, new_id};
use crate::ledger::{Ledger, LedgerView};
use crate::table::{
    any_row, insert, lemma_any_same, lemma_listed, order, ordered_from, rows, select, update,
    updated, Row,
};
use crate::text::{dup_opt, own, own_opt, same};

verus! {

/// A device as listings show it.
#[derive(Debug, PartialEq, Eq)]
pub struct Device {
    pub id: String,
    pub name: String,
    pub description: Option<String>,
    pub added_at: i64,
    pub retired_at: Option<i64>,
}

/// What a `Device` holds.
#[verifier::ext_equal]
pub struct DeviceView {
    pub id: Seq<char>,
    pub name: Seq<char>,
    pub description: Option<Seq<char>>,
    pub added_at: i64,
    pub retired_at: Option<i64>,
}

impl View for Device {
    type V = DeviceView;

    open spec fn view(&self) -> DeviceView {
        DeviceView {
            id: self.id@,
            name: self.name@,
            description: self.description.deep_view(),
            added_at: self.added_at,
            retired_at: self.retired_at,
        }
    }
}

impl DeepView for Device {
    type V = DeviceView;

    open spec fn deep_view(&self) -> DeviceView {
        self.view()
    }
}

impl Row for Device {
    fn dup(&self) -> (r: Self) {
        Device {
            id: self.id.clone(),
            name: self.name.clone(),
            description: dup_opt(&self.description),
            added_at: self.added_at,
            retired_at: self.retired_at,
        }
    }
}

/// A stored device and its owner.
#[derive(Debug, PartialEq, Eq)]
pub struct DeviceRow {
    pub submissive_id: String,
    pub device: Device,
}

/// What a `DeviceRow` holds.
#[verifier::ext_equal]
pub struct DeviceRowView {
    pub submissive_id: Seq<char>,
    pub device: DeviceView,
}

impl View for DeviceRow {
    type V = DeviceRowView;

    open spec fn view(&self) -> DeviceRowView {
        DeviceRowView {
            submissive_id: self.submissive_id@,
            device: self.device@,
        }
    }
}

impl DeepView for DeviceRow {
    type V = DeviceRowView;

    open spec fn deep_view(&self) -> DeviceRowView {
        self.view()
    }
}

impl Row for DeviceRow {
    fn dup(&self) -> (r: Self) {
        DeviceRow {
            submissive_id: self.submissive_id.clone(),
            device: self.device.dup(),
        }
    }
}

/// A device as it is added.
pub open spec fn new_row(
    id: Seq<char>,
    submissive_id: Seq<char>,
    name: Seq<char>,
    description: Option<Seq<char>>,
    now: i64,
) -> DeviceRowView {
    DeviceRowView {
        submissive_id,
        device: DeviceView { id, name, description, added_at: now, retired_at: None },
    }
}

/// Adds a device.
pub fn add(
    db: &mut Ledger,
    submissive_id: &str,
    name: &str,
    description: Option<&str>,
    now: i64,
) -> (r: String)
    ensures
        is_id(r@),
        final(db)@ == (LedgerView {
            devices: old(db)@.devices.push(
                new_row(r@, submissive_id@, name@, description.deep_view(), now),
            ),
            ..old(db)@
        }),
{
    let id = new_id();
    insert(
        &mut db.devices,
        DeviceRow {
            submissive_id: own(submissive_id),
            device: Device {
                id: id.clone(),
                name: own(name),
                description: own_opt(description),
                added_at: now,
                retired_at: None,
            },
        },
    );
    id
}

/// A device of this submissive.
pub open spec fn of_submissive(submissive_id: Seq<char>) -> spec_fn(DeviceRowView) -> bool {
    |d: DeviceRowView| d.submissive_id == submissive_id
}

/// Newest first.
pub open spec fn newest_first() -> spec_fn(DeviceRowView, DeviceRowView) -> bool {
    |a: DeviceRowView, b: DeviceRowView| a.device.added_at >= b.device.added_at
}

/// As listings show it.
pub open spec fn shown() -> spec_fn(DeviceRowView) -> DeviceView {
    |d: DeviceRowView| d.device
}

/// A submissive's devices, newest first.
pub fn list(db: &Ledger, submissive_id: &str) -> (r: Vec<Device>)
    ensures
        exists|found: Seq<DeviceRowView>|
            #[trigger] ordered_from(
                found,
                db@.devices.filter(of_submissive(submissive_id@)),
                newest_first(),
            ) && rows(r@) == found.map_values(shown()),
{
    let ghost p = of_submissive(submissive_id@);
    let ghost le = newest_first();
    let test = |d: &DeviceRow| -> (b: bool)
        ensures
            b == p(d@),
        { same(d.submissive_id.as_str(), submissive_id) };
    let before = |a: &DeviceRow, b: &DeviceRow| -> (c: bool)
        ensures
            c == le(a@, b@),
        { a.device.added_at >= b.device.added_at };
    let found = order(select(&db.devices, Ghost(p), test), Ghost(le), before);
    let mut out: Vec<Device> = Vec::new();
    let mut i: usize = 0;
    while i < found.len()
        invariant
            i <= found@.len(),
            out@.len() == i,
            forall|j: int| 0 <= j < i ==> #[trigger] out@[j]@ == found@[j]@.device,
        decreases found@.len() - i,
    {
        out.push(found[i].device.dup());
        i = i + 1;
    }
    assert(rows(out@) =~= rows(found@).map_values(shown()));
    assert(ordered_from(rows(found@), db@.devices.filter(p), le));
    out
}

/// This submissive's device with this id, in use.
pub open spec fn in_use(id: Seq<char>, submissive_id: Seq<char>) -> spec_fn(DeviceRowView) -> bool {
    |d: DeviceRowView|
        d.device.id == id && d.submissive_id == submissive_id && d.device.retired_at is None
}

/// Retired now.
pub open spec fn retired(now: i64) -> spec_fn(DeviceRowView) -> DeviceRowView {
    |d: DeviceRowView|
        DeviceRowView { device: DeviceView { retired_at: Some(now), ..d.device }, ..d }
}

/// Retires a device of a submissive; `false` where there is none in use with this id.
pub fn retire(db: &mut Ledger, device_id: &str, submissive_id: &str, now: i64) -> (r: bool)
    ensures
        final(db)@ == (LedgerView {
            devices: updated(old(db)@.devices, in_use(device_id@, submissive_id@), retired(now)),
            ..old(db)@
        }),
        r == any_row(old(db)@.devices, in_use(device_id@, submissive_id@)),
{
    let ghost p = in_use(device_id@, submissive_id@);
    let ghost u = retired(now);
    let change = |d: &DeviceRow| -> (n: Option<DeviceRow>)
        ensures
            match n {
                Some(x) => p(d@) && x@ == u(d@),
                None => !p(d@),
            },
        {
            if same(d.device.id.as_str(), device_id)
                && same(d.submissive_id.as_str(), submissive_id) && d.device.retired_at.is_none() {
                let mut n = d.dup();
                n.device.retired_at = Some(now);

                Some(n)
            } else {
                None
            }
        };
    update(&mut db.devices, Ghost(p), Ghost(u), change)
}

/// A device is retired once, and stays on record.
pub proof fn law_retired_once(devices: Seq<DeviceRowView>, id: Seq<char>, submissive_id: Seq<char>, now: i64)
    ensures
        ({
            let after = updated(devices, in_use(id, submissive_id), retired(now));
            &&& !any_row(after, in_use(id, submissive_id))
            &&& after.len() == devices.len()
        }),
{
    let after = updated(devices, in_use(id, submissive_id), retired(now));
    assert forall|i: int| 0 <= i < after.len() implies !in_use(id, submissive_id)(
        #[trigger] after[i],
    ) by {}
}

/// A device is added as it was named, in use, and retired by its submissive alone, once; no other
/// device changes.
pub proof fn law_devices_are_retired_by_their_own(
    devices: Seq<DeviceRowView>,
    id: Seq<char>,
    submissive_id: Seq<char>,
    name: Seq<char>,
    description: Option<Seq<char>>,
    now: i64,
    k: int,
)
    requires
        0 <= k < devices.len(),
    ensures
        ({
            let d = new_row(id, submissive_id, name, description, now);
            &&& d.submissive_id == submissive_id && d.device.id == id && d.device.name == name
            &&& d.device.description == description && d.device.added_at == now
            &&& d.device.retired_at is None
        }),
        ({
            let d = devices[k];
            let after = updated(devices, in_use(id, submissive_id), retired(now));
            &&& after.len() == devices.len()
            &&& after[k] == (if d.device.id == id && d.submissive_id == submissive_id
                && d.device.retired_at is None {
                DeviceRowView { device: DeviceView { retired_at: Some(now), ..d.device }, ..d }
            } else {
                d
            })
        }),
        any_row(devices, in_use(id, submissive_id)) == any_row(
            devices,
            |d: DeviceRowView|
                d.device.id == id && d.submissive_id == submissive_id
                    && d.device.retired_at is None,
        ),
{
    lemma_any_same(
        devices,
        |d: DeviceRowView|
            d.device.id == id && d.submissive_id == submissive_id && d.device.retired_at is None,
        in_use(id, submissive_id),
    );
}

/// A submissive's devices are listed whole, the latest first, as they stand.
pub proof fn law_devices_are_listed_whole(
    found: Seq<DeviceRowView>,
    devices: Seq<DeviceRowView>,
    submissive_id: Seq<char>,
)
    requires
        ordered_from(found, devices.filter(of_submissive(submissive_id)), newest_first()),
    ensures
        forall|d: DeviceRowView| #[trigger]
            found.contains(d) <==> devices.contains(d) && d.submissive_id == submissive_id,
        forall|i: int, j: int|
            0 <= i < j < found.len() ==> (#[trigger] found[i]).device.added_at >= (
            #[trigger] found[j]).device.added_at,
        found.map_values(shown()).len() == found.len(),
        forall|i: int|
            0 <= i < found.len() ==> #[trigger] found.map_values(shown())[i] == found[i].device,
{
    lemma_listed(found, devices, of_submissive(submissive_id), newest_first());
}

} // verus!
