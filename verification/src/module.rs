//! Installed modules and their lifecycle.
//!
//! ```text
//! (none) --install--> Enabled --disable--> Disabled --enable--> Enabled
//! Enabled | Disabled --uninstall--> PendingRemoval --sweep--> (none)
//! ```
//!
//! A [`Registry`] is a snapshot of what is installed: the caller builds it
//! from what it finds on disk, asks for a transition, and writes the result
//! back. Modules stand in priority order, lowest number first; among equal
//! priorities the one placed first comes first.
use crate::bytes::{append, rows};
use vstd::prelude::*;
use vstd::string::StringSliceAdditionalSpecFns;

verus! {

#[derive(Clone, Copy, PartialEq, Eq, Structural, Debug)]
pub enum ModuleState {
    Enabled,
    Disabled,
    /// Uninstalled, and on disk until the next sweep.
    PendingRemoval,
    /// Being installed: its file tree may be incomplete.
    Updating,
}

#[derive(Clone, Copy, PartialEq, Eq, Structural, Debug)]
pub enum ModuleError {
    /// No module of that id is registered.
    NotFound,
    /// The package lacks its metadata, declares no usable id, or holds an
    /// entry that would land outside the module's directory.
    InvalidPackage,
    /// The package could not be unpacked.
    IoError,
    /// The module declares no action script.
    NoAction,
    /// The action script ended with a status other than zero.
    ActionFailed { status: i32 },
}

#[derive(Clone, Debug)]
pub struct Metadata {
    pub name: Vec<u8>,
    pub version: Vec<u8>,
    pub author: Vec<u8>,
    pub description: Vec<u8>,
}

pub struct MetadataModel {
    pub name: Seq<u8>,
    pub version: Seq<u8>,
    pub author: Seq<u8>,
    pub description: Seq<u8>,
}

impl View for Metadata {
    type V = MetadataModel;

    open spec fn view(&self) -> MetadataModel {
        MetadataModel {
            name: self.name@,
            version: self.version@,
            author: self.author@,
            description: self.description@,
        }
    }
}

#[derive(Clone, Debug)]
pub struct Module {
    pub id: Vec<u8>,
    pub metadata: Metadata,
    pub state: ModuleState,
    /// Lower numbers are mounted first.
    pub priority: i64,
    /// Path of the action script inside the module's directory.
    pub action: Option<Vec<u8>>,
    /// Set where the module asks to be left out of the overlay.
    pub skip_mount: bool,
    /// The system paths that the module's file tree provides.
    pub files: Vec<Vec<u8>>,
}

pub struct ModuleModel {
    pub id: Seq<u8>,
    pub metadata: MetadataModel,
    pub state: ModuleState,
    pub priority: i64,
    pub action: Option<Seq<u8>>,
    pub skip_mount: bool,
    pub files: Seq<Seq<u8>>,
}

impl View for Module {
    type V = ModuleModel;

    open spec fn view(&self) -> ModuleModel {
        ModuleModel {
            id: self.id@,
            metadata: self.metadata@,
            state: self.state,
            priority: self.priority,
            action: match self.action {
                Some(path) => Some(path@),
                None => None,
            },
            skip_mount: self.skip_mount,
            files: rows(self.files@),
        }
    }
}

/// The models of the modules in a vector, in order.
pub open spec fn models(v: Seq<Module>) -> Seq<ModuleModel> {
    v.map_values(|m: Module| m@)
}

/// The directory under which every module has its own.
pub open spec fn modules_root() -> Seq<u8> {
    "/data/adb/modules/".spec_bytes()
}

/// The directory of the module `id`.
pub open spec fn dir_of(id: Seq<u8>) -> Seq<u8> {
    modules_root() + id
}

pub fn module_dir(id: &[u8]) -> (dir: Vec<u8>)
    ensures
        dir@ == dir_of(id@),
{
    append("/data/adb/modules/".as_bytes(), id)
}

/// Two modules share a directory only if they share the id.
pub proof fn law_directory_determines_id(a: Seq<u8>, b: Seq<u8>)
    ensures
        dir_of(a) == dir_of(b) <==> a == b,
{
    if dir_of(a) == dir_of(b) {
        let n = modules_root().len() as int;
        assert(dir_of(a).skip(n) =~= a);
        assert(dir_of(b).skip(n) =~= b);
    }
}

pub open spec fn with_state(m: ModuleModel, state: ModuleState) -> ModuleModel {
    ModuleModel { state, ..m }
}

/// Whether a module of that id is among `ms`.
pub open spec fn registered(ms: Seq<ModuleModel>, id: Seq<u8>) -> bool {
    exists|i: int| 0 <= i < ms.len() && (#[trigger] ms[i]).id == id
}

/// Whether `i` is the first place in `ms` at which a module of that id
/// stands.
pub open spec fn is_first(ms: Seq<ModuleModel>, id: Seq<u8>, i: int) -> bool {
    0 <= i < ms.len() && ms[i].id == id && forall|j: int| 0 <= j < i ==> (#[trigger] ms[j]).id != id
}

/// The place of the module of that id, where there is one.
pub open spec fn position(ms: Seq<ModuleModel>, id: Seq<u8>) -> int {
    choose|i: int| is_first(ms, id, i)
}

pub proof fn lemma_position(ms: Seq<ModuleModel>, id: Seq<u8>, i: int)
    requires
        is_first(ms, id, i),
    ensures
        registered(ms, id),
        position(ms, id) == i,
{
    let p = position(ms, id);
    assert(is_first(ms, id, p));
    if p < i {
        assert(ms[p].id != id);
    }
    if i < p {
        assert(ms[i].id != id);
    }
}

pub proof fn lemma_registered_position(ms: Seq<ModuleModel>, id: Seq<u8>)
    requires
        registered(ms, id),
    ensures
        is_first(ms, id, position(ms, id)),
{
    let w = choose|i: int| 0 <= i < ms.len() && (#[trigger] ms[i]).id == id;
    lemma_first_before(ms, id, w);
}

proof fn lemma_first_before(ms: Seq<ModuleModel>, id: Seq<u8>, w: int)
    requires
        0 <= w < ms.len(),
        ms[w].id == id,
    ensures
        exists|i: int| is_first(ms, id, i),
    decreases w,
{
    if forall|j: int| 0 <= j < w ==> (#[trigger] ms[j]).id != id {
        assert(is_first(ms, id, w));
    } else {
        let j = choose|j: int| 0 <= j < w && (#[trigger] ms[j]).id == id;
        lemma_first_before(ms, id, j);
    }
}

/// No two modules share an id.
pub open spec fn distinct_ids(ms: Seq<ModuleModel>) -> bool {
    forall|i: int, j: int|
        0 <= i < j < ms.len() ==> (#[trigger] ms[i]).id != (#[trigger] ms[j]).id
}

/// Priorities never fall along the sequence.
pub open spec fn by_priority(ms: Seq<ModuleModel>) -> bool {
    forall|i: int, j: int|
        0 <= i < j < ms.len() ==> (#[trigger] ms[i]).priority <= (#[trigger] ms[j]).priority
}

pub open spec fn well_formed(ms: Seq<ModuleModel>) -> bool {
    distinct_ids(ms) && by_priority(ms)
}

/// `ms` with the module of that id, if there is one, in the given state.
pub open spec fn restated(ms: Seq<ModuleModel>, id: Seq<u8>, state: ModuleState) -> Seq<
    ModuleModel,
> {
    if registered(ms, id) {
        ms.update(position(ms, id), with_state(ms[position(ms, id)], state))
    } else {
        ms
    }
}

/// The state that enabling leads to: a disabled module becomes enabled,
/// any other stays as it is.
pub open spec fn enabling(state: ModuleState) -> ModuleState {
    if state == ModuleState::Disabled {
        ModuleState::Enabled
    } else {
        state
    }
}

/// The state that disabling leads to: an enabled module becomes disabled,
/// any other stays as it is.
pub open spec fn disabling(state: ModuleState) -> ModuleState {
    if state == ModuleState::Enabled {
        ModuleState::Disabled
    } else {
        state
    }
}

pub open spec fn enabled_in(ms: Seq<ModuleModel>, id: Seq<u8>) -> Seq<ModuleModel> {
    restated(ms, id, enabling(ms[position(ms, id)].state))
}

pub open spec fn disabled_in(ms: Seq<ModuleModel>, id: Seq<u8>) -> Seq<ModuleModel> {
    restated(ms, id, disabling(ms[position(ms, id)].state))
}

pub open spec fn uninstalled_in(ms: Seq<ModuleModel>, id: Seq<u8>) -> Seq<ModuleModel> {
    restated(ms, id, ModuleState::PendingRemoval)
}

pub open spec fn is_pending(m: ModuleModel) -> bool {
    m.state == ModuleState::PendingRemoval
}

pub open spec fn pending() -> spec_fn(ModuleModel) -> bool {
    |m: ModuleModel| is_pending(m)
}

pub open spec fn staying() -> spec_fn(ModuleModel) -> bool {
    |m: ModuleModel| !is_pending(m)
}

pub open spec fn ids_of(ms: Seq<ModuleModel>) -> Seq<Seq<u8>> {
    ms.map_values(|m: ModuleModel| m.id)
}

/// `ms` with `m` put behind the last module whose priority is not above
/// its own.
pub open spec fn inserted(ms: Seq<ModuleModel>, m: ModuleModel) -> Seq<ModuleModel>
    decreases ms.len(),
{
    if ms.len() == 0 {
        seq![m]
    } else if ms.last().priority <= m.priority {
        ms.push(m)
    } else {
        inserted(ms.drop_last(), m).push(ms.last())
    }
}

/// `ms` without the module of that id.
pub open spec fn without(ms: Seq<ModuleModel>, id: Seq<u8>) -> Seq<ModuleModel> {
    if registered(ms, id) {
        ms.remove(position(ms, id))
    } else {
        ms
    }
}

/// `ms` with `m` in the place of its priority, instead of any module that
/// had its id.
pub open spec fn placed(ms: Seq<ModuleModel>, m: ModuleModel) -> Seq<ModuleModel> {
    inserted(without(ms, m.id), m)
}

pub proof fn lemma_update_keeps_order(ms: Seq<ModuleModel>, i: int, state: ModuleState)
    requires
        well_formed(ms),
        0 <= i < ms.len(),
    ensures
        well_formed(ms.update(i, with_state(ms[i], state))),
{
    let after = ms.update(i, with_state(ms[i], state));
    assert forall|a: int, b: int| 0 <= a < b < after.len() implies (#[trigger] after[a]).id != (
    #[trigger] after[b]).id && after[a].priority <= after[b].priority by {
        assert(after[a].id == ms[a].id && after[a].priority == ms[a].priority);
        assert(after[b].id == ms[b].id && after[b].priority == ms[b].priority);
    }
}

pub proof fn lemma_remove_keeps_order(ms: Seq<ModuleModel>, i: int)
    requires
        well_formed(ms),
        0 <= i < ms.len(),
    ensures
        well_formed(ms.remove(i)),
        !registered(ms.remove(i), ms[i].id),
{
    let after = ms.remove(i);
    assert forall|a: int, b: int| 0 <= a < b < after.len() implies (#[trigger] after[a]).id != (
    #[trigger] after[b]).id && after[a].priority <= after[b].priority by {
        let a0 = if a < i { a } else { a + 1 };
        let b0 = if b < i { b } else { b + 1 };
        assert(after[a] == ms[a0]);
        assert(after[b] == ms[b0]);
    }
    assert forall|a: int| 0 <= a < after.len() implies (#[trigger] after[a]).id != ms[i].id by {
        let a0 = if a < i { a } else { a + 1 };
        assert(after[a] == ms[a0]);
    }
}

/// Putting `m` at `k`, behind what is not above it and before what is, is
/// what [`inserted`] does.
pub proof fn lemma_inserted_at(ms: Seq<ModuleModel>, m: ModuleModel, k: int)
    requires
        0 <= k <= ms.len(),
        k > 0 ==> ms[k - 1].priority <= m.priority,
        forall|j: int| k <= j < ms.len() ==> (#[trigger] ms[j]).priority > m.priority,
    ensures
        inserted(ms, m) == ms.insert(k, m),
    decreases ms.len() - k,
{
    if ms.len() == 0 {
        assert(ms.insert(k, m) =~= seq![m]);
    } else if k == ms.len() {
        assert(ms.insert(k, m) =~= ms.push(m));
    } else {
        assert(ms.last().priority > m.priority);
        let front = ms.drop_last();
        assert forall|j: int| k <= j < front.len() implies (#[trigger] front[j]).priority
            > m.priority by {
            assert(front[j] == ms[j]);
        }
        lemma_inserted_at(front, m, k);
        assert(front.insert(k, m).push(ms.last()) =~= ms.insert(k, m));
    }
}

pub proof fn lemma_insert_keeps_order(ms: Seq<ModuleModel>, m: ModuleModel, k: int)
    requires
        well_formed(ms),
        !registered(ms, m.id),
        0 <= k <= ms.len(),
        k > 0 ==> ms[k - 1].priority <= m.priority,
        forall|j: int| k <= j < ms.len() ==> (#[trigger] ms[j]).priority > m.priority,
    ensures
        well_formed(ms.insert(k, m)),
        is_first(ms.insert(k, m), m.id, k),
{
    let after = ms.insert(k, m);
    assert forall|a: int| 0 <= a < ms.len() implies (#[trigger] ms[a]).id != m.id by {}
    assert forall|a: int, b: int| 0 <= a < b < after.len() implies (#[trigger] after[a]).id != (
    #[trigger] after[b]).id && after[a].priority <= after[b].priority by {
        if a != k {
            let a0 = if a < k { a } else { a - 1 };
            assert(after[a] == ms[a0]);
            if a0 < k && k > 0 {
                assert(ms[a0].priority <= ms[k - 1].priority || a0 == k - 1);
            }
        }
        if b != k {
            let b0 = if b < k { b } else { b - 1 };
            assert(after[b] == ms[b0]);
        }
    }
    assert forall|j: int| 0 <= j < k implies (#[trigger] after[j]).id != m.id by {
        assert(after[j] == ms[j]);
    }
}

/// Where [`inserted`] puts a module of the given priority.
pub open spec fn slot(ms: Seq<ModuleModel>, priority: i64) -> int
    decreases ms.len(),
{
    if ms.len() == 0 {
        0
    } else if ms.last().priority <= priority {
        ms.len() as int
    } else {
        slot(ms.drop_last(), priority)
    }
}

pub proof fn lemma_slot(ms: Seq<ModuleModel>, priority: i64)
    ensures
        0 <= slot(ms, priority) <= ms.len(),
        slot(ms, priority) > 0 ==> ms[slot(ms, priority) - 1].priority <= priority,
        forall|j: int| slot(ms, priority) <= j < ms.len() ==> (#[trigger] ms[j]).priority > priority,
    decreases ms.len(),
{
    if ms.len() == 0 {
    } else if ms.last().priority <= priority {
    } else {
        let front = ms.drop_last();
        lemma_slot(front, priority);
        let k = slot(ms, priority);
        if k > 0 {
            assert(front[k - 1] == ms[k - 1]);
        }
        assert forall|j: int| k <= j < ms.len() implies (#[trigger] ms[j]).priority > priority by {
            if j < front.len() {
                assert(front[j] == ms[j]);
            }
        }
    }
}

/// A registry stays in order when a module is placed in it, and holds the
/// module afterwards, once.
pub proof fn lemma_placed(ms: Seq<ModuleModel>, m: ModuleModel)
    requires
        well_formed(ms),
    ensures
        well_formed(placed(ms, m)),
        registered(placed(ms, m), m.id),
        is_first(placed(ms, m), m.id, position(placed(ms, m), m.id)),
        placed(ms, m)[position(placed(ms, m), m.id)] == m,
{
    let rest = without(ms, m.id);
    if registered(ms, m.id) {
        lemma_registered_position(ms, m.id);
        lemma_remove_keeps_order(ms, position(ms, m.id));
    }
    let k = slot(rest, m.priority);
    lemma_slot(rest, m.priority);
    lemma_inserted_at(rest, m, k);
    lemma_insert_keeps_order(rest, m, k);
    lemma_position(placed(ms, m), m.id, k);
}

/// Changing the state of the module `id` leaves it where it stands.
pub proof fn lemma_restated(ms: Seq<ModuleModel>, id: Seq<u8>, state: ModuleState)
    requires
        well_formed(ms),
        registered(ms, id),
    ensures
        well_formed(restated(ms, id, state)),
        registered(restated(ms, id, state), id),
        position(restated(ms, id, state), id) == position(ms, id),
        restated(ms, id, state)[position(ms, id)] == with_state(ms[position(ms, id)], state),
{
    lemma_registered_position(ms, id);
    let p = position(ms, id);
    let after = restated(ms, id, state);
    lemma_update_keeps_order(ms, p, state);
    assert(is_first(after, id, p)) by {
        assert forall|j: int| 0 <= j < p implies (#[trigger] after[j]).id != id by {
            assert(after[j] == ms[j]);
        }
    }
    lemma_position(after, id, p);
}

} // verus!
