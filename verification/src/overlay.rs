//! The overlay plan: which modules lay a file over which system path.
//!
//! The plan is built afresh from a registry snapshot. Only enabled modules
//! without a skip marker contribute. Under each target path the contributing
//! modules stand in registry order, and the last one is the one whose file
//! is seen.
use crate::bytes::{bytes_eq, append, copy_range, rows};
use crate::module::{dir_of, ids_of, module_dir, well_formed, ModuleModel, ModuleState};
use crate::namespace::{Namespace, NamespaceError};
use crate::registry::Registry;
use vstd::prelude::*;

verus! {

/// A target path and the ids of the modules that provide a file for it.
#[derive(Debug)]
pub struct PlanEntry {
    pub target: Vec<u8>,
    pub modules: Vec<Vec<u8>>,
}

pub struct PlanEntryModel {
    pub target: Seq<u8>,
    pub modules: Seq<Seq<u8>>,
}

impl View for PlanEntry {
    type V = PlanEntryModel;

    open spec fn view(&self) -> PlanEntryModel {
        PlanEntryModel { target: self.target@, modules: rows(self.modules@) }
    }
}

#[derive(Debug)]
pub struct OverlayPlan {
    pub entries: Vec<PlanEntry>,
}

impl View for OverlayPlan {
    type V = Seq<PlanEntryModel>;

    open spec fn view(&self) -> Seq<PlanEntryModel> {
        self.entries@.map_values(|e: PlanEntry| e@)
    }
}

/// Whether a module takes part in the overlay.
pub open spec fn contributes(m: ModuleModel) -> bool {
    m.state == ModuleState::Enabled && !m.skip_mount
}

/// Whether the plan has an entry for the target.
pub open spec fn planned(plan: Seq<PlanEntryModel>, target: Seq<u8>) -> bool {
    exists|i: int| 0 <= i < plan.len() && (#[trigger] plan[i]).target == target
}

pub open spec fn is_first_planned(plan: Seq<PlanEntryModel>, target: Seq<u8>, i: int) -> bool {
    0 <= i < plan.len() && plan[i].target == target && forall|j: int|
        0 <= j < i ==> (#[trigger] plan[j]).target != target
}

/// The place of the entry for the target, where there is one.
pub open spec fn entry_of(plan: Seq<PlanEntryModel>, target: Seq<u8>) -> int {
    choose|i: int| is_first_planned(plan, target, i)
}

/// The modules that the plan stacks at the target, the one that is seen
/// last.
pub open spec fn layers(plan: Seq<PlanEntryModel>, target: Seq<u8>) -> Seq<Seq<u8>> {
    if planned(plan, target) {
        plan[entry_of(plan, target)].modules
    } else {
        Seq::empty()
    }
}

/// `modules` with `module` as its last, once.
pub open spec fn topped(modules: Seq<Seq<u8>>, module: Seq<u8>) -> Seq<Seq<u8>> {
    if modules.len() > 0 && modules.last() == module {
        modules
    } else {
        modules.push(module)
    }
}

/// The plan with one more contribution: the module becomes the last in the
/// entry of the target, or opens a new entry at the end.
pub open spec fn noted(plan: Seq<PlanEntryModel>, target: Seq<u8>, module: Seq<u8>) -> Seq<
    PlanEntryModel,
> {
    if planned(plan, target) {
        let i = entry_of(plan, target);
        plan.update(i, PlanEntryModel { target, modules: topped(plan[i].modules, module) })
    } else {
        plan.push(PlanEntryModel { target, modules: seq![module] })
    }
}

/// The plan with the contributions of one module, file by file.
pub open spec fn with_files(plan: Seq<PlanEntryModel>, module: Seq<u8>, files: Seq<Seq<u8>>) -> Seq<
    PlanEntryModel,
>
    decreases files.len(),
{
    if files.len() == 0 {
        plan
    } else {
        noted(with_files(plan, module, files.drop_last()), files.last(), module)
    }
}

/// The plan for a registry snapshot: the contributions of its contributing
/// modules, in registry order.
pub open spec fn plan_of(ms: Seq<ModuleModel>) -> Seq<PlanEntryModel>
    decreases ms.len(),
{
    if ms.len() == 0 {
        Seq::empty()
    } else if contributes(ms.last()) {
        with_files(plan_of(ms.drop_last()), ms.last().id, ms.last().files)
    } else {
        plan_of(ms.drop_last())
    }
}

pub proof fn lemma_entry_of(plan: Seq<PlanEntryModel>, target: Seq<u8>, i: int)
    requires
        is_first_planned(plan, target, i),
    ensures
        planned(plan, target),
        entry_of(plan, target) == i,
{
    let p = entry_of(plan, target);
    assert(is_first_planned(plan, target, p));
    if p < i {
        assert(plan[p].target != target);
    }
    if i < p {
        assert(plan[i].target != target);
    }
}

impl OverlayPlan {
    /// The place of the entry for the target.
    pub fn find(&self, target: &[u8]) -> (place: Option<usize>)
        ensures
            match place {
                Some(i) => is_first_planned(self@, target@, i as int) && entry_of(self@, target@)
                    == i && planned(self@, target@),
                None => !planned(self@, target@),
            },
    {
        let mut i: usize = 0;
        while i < self.entries.len()
            invariant
                i <= self.entries@.len(),
                forall|j: int| 0 <= j < i ==> (#[trigger] self@[j]).target != target@,
            decreases self.entries.len() - i,
        {
            if bytes_eq(self.entries[i].target.as_slice(), target) {
                proof {
                    lemma_entry_of(self@, target@, i as int);
                }
                return Some(i);
            }
            i += 1;
        }
        None
    }

    /// Notes that the module provides a file for the target.
    pub fn note(&mut self, target: &[u8], module: &[u8])
        ensures
            final(self)@ == noted(old(self)@, target@, module@),
    {
        let id = copy_range(module, 0, module.len());
        assert(id@ =~= module@);
        match self.find(target) {
            Some(i) => {
                let mut entry = self.entries.remove(i);
                let ghost before = rows(entry.modules@);
                let n: usize = entry.modules.len();
                if n == 0 || !bytes_eq(entry.modules[n - 1].as_slice(), module) {
                    entry.modules.push(id);
                    assert(rows(entry.modules@) =~= before.push(module@));
                }
                assert(rows(entry.modules@) =~= topped(before, module@));
                self.entries.insert(i, entry);
                assert(self@ =~= noted(old(self)@, target@, module@));
            },
            None => {
                let path = copy_range(target, 0, target.len());
                assert(path@ =~= target@);
                let mut modules: Vec<Vec<u8>> = Vec::new();
                modules.push(id);
                assert(rows(modules@) =~= seq![module@]);
                self.entries.push(PlanEntry { target: path, modules });
                assert(self@ =~= noted(old(self)@, target@, module@));
            },
        }
    }
}

/// Builds the overlay plan for a registry snapshot.
pub fn build_plan(registry: &Registry) -> (plan: OverlayPlan)
    ensures
        plan@ == plan_of(registry@),
{
    let ghost ms = registry@;
    let mut plan = OverlayPlan { entries: Vec::new() };
    assert(plan@ =~= plan_of(ms.take(0)));
    let mut i: usize = 0;
    while i < registry.modules.len()
        invariant
            i <= registry.modules@.len(),
            ms == registry@,
            plan@ == plan_of(ms.take(i as int)),
        decreases registry.modules.len() - i,
    {
        let module = &registry.modules[i];
        proof {
            assert(ms.take(i + 1).drop_last() =~= ms.take(i as int));
            assert(ms.take(i + 1).last() == module@);
        }
        if module.state == ModuleState::Enabled && !module.skip_mount {
            let ghost base = plan@;
            let ghost files = module@.files;
            let mut k: usize = 0;
            assert(files.take(0) =~= Seq::<Seq<u8>>::empty());
            while k < module.files.len()
                invariant
                    k <= module.files@.len(),
                    files == rows(module.files@),
                    plan@ == with_files(base, module@.id, files.take(k as int)),
                decreases module.files.len() - k,
            {
                proof {
                    assert(files.take(k + 1).drop_last() =~= files.take(k as int));
                    assert(files.take(k + 1).last() == module.files@[k as int]@);
                }
                plan.note(module.files[k].as_slice(), module.id.as_slice());
                k += 1;
            }
            assert(files.take(k as int) =~= files);
        }
        i += 1;
    }
    assert(ms.take(i as int) =~= ms);
    plan
}

/// No two entries share a target.
pub open spec fn distinct_targets(plan: Seq<PlanEntryModel>) -> bool {
    forall|i: int, j: int|
        0 <= i < j < plan.len() ==> (#[trigger] plan[i]).target != (#[trigger] plan[j]).target
}

/// Every entry names at least one module.
pub open spec fn no_empty_entry(plan: Seq<PlanEntryModel>) -> bool {
    forall|i: int| 0 <= i < plan.len() ==> (#[trigger] plan[i]).modules.len() > 0
}

/// In a plan without repeated targets, the layers at an entry's target are
/// that entry's modules.
pub proof fn lemma_layers_at(plan: Seq<PlanEntryModel>, i: int)
    requires
        distinct_targets(plan),
        0 <= i < plan.len(),
    ensures
        planned(plan, plan[i].target),
        entry_of(plan, plan[i].target) == i,
        layers(plan, plan[i].target) == plan[i].modules,
{
    let target = plan[i].target;
    assert forall|j: int| 0 <= j < i implies (#[trigger] plan[j]).target != target by {}
    lemma_entry_of(plan, target, i);
}

/// What one more contribution does to the layers at any target.
pub proof fn lemma_noted(
    plan: Seq<PlanEntryModel>,
    target: Seq<u8>,
    module: Seq<u8>,
    at: Seq<u8>,
)
    requires
        distinct_targets(plan),
        no_empty_entry(plan),
    ensures
        distinct_targets(noted(plan, target, module)),
        no_empty_entry(noted(plan, target, module)),
        layers(noted(plan, target, module), at) == if at == target {
            topped(layers(plan, target), module)
        } else {
            layers(plan, at)
        },
{
    let after = noted(plan, target, module);
    if planned(plan, target) {
        let w = choose|i: int| 0 <= i < plan.len() && (#[trigger] plan[i]).target == target;
        lemma_layers_at(plan, w);
        assert(after.len() == plan.len());
        assert forall|j: int| 0 <= j < after.len() implies (#[trigger] after[j]).target
            == plan[j].target && after[j].modules.len() > 0 && (j != w ==> after[j].modules
            == plan[j].modules) by {}
        assert(distinct_targets(after)) by {
            assert forall|i: int, j: int| 0 <= i < j < after.len() implies (#[trigger] after[i]).target
                != (#[trigger] after[j]).target by {
                assert(plan[i].target != plan[j].target);
            }
        }
        if planned(after, at) {
            let v = choose|i: int| 0 <= i < after.len() && (#[trigger] after[i]).target == at;
            lemma_layers_at(after, v);
            assert(plan[v].target == at);
            lemma_layers_at(plan, v);
        } else {
            if planned(plan, at) {
                let v = choose|i: int| 0 <= i < plan.len() && (#[trigger] plan[i]).target == at;
                assert(after[v].target == at);
            }
        }
    } else {
        let n = plan.len() as int;
        assert(after.len() == n + 1);
        assert(after[n].target == target);
        assert forall|j: int| 0 <= j < n implies (#[trigger] after[j]) == plan[j] by {}
        assert(distinct_targets(after)) by {
            assert forall|i: int, j: int| 0 <= i < j < after.len() implies (#[trigger] after[i]).target
                != (#[trigger] after[j]).target by {
                assert(after[i] == plan[i]);
                if j < n {
                    assert(after[j] == plan[j]);
                }
            }
        }
        assert(no_empty_entry(after)) by {
            assert forall|i: int| 0 <= i < after.len() implies (#[trigger] after[i]).modules.len()
                > 0 by {
                if i < n {
                    assert(after[i] == plan[i]);
                }
            }
        }
        lemma_layers_at(after, n);
        assert(topped(Seq::<Seq<u8>>::empty(), module) =~= seq![module]);
        if at != target {
            if planned(after, at) {
                let v = choose|i: int| 0 <= i < after.len() && (#[trigger] after[i]).target == at;
                lemma_layers_at(after, v);
                assert(after[v] == plan[v]);
                lemma_layers_at(plan, v);
            } else {
                if planned(plan, at) {
                    let v = choose|i: int| 0 <= i < plan.len() && (#[trigger] plan[i]).target
                        == at;
                    assert(after[v].target == at);
                }
            }
        }
    }
}

/// What the contributions of one module, which the plan does not name
/// yet, do to the layers at any target: the module comes on top where it
/// provides a file for the target.
pub proof fn lemma_with_files(
    plan: Seq<PlanEntryModel>,
    module: Seq<u8>,
    files: Seq<Seq<u8>>,
    at: Seq<u8>,
)
    requires
        distinct_targets(plan),
        no_empty_entry(plan),
        forall|x: Seq<u8>| !(#[trigger] layers(plan, x)).contains(module),
    ensures
        distinct_targets(with_files(plan, module, files)),
        no_empty_entry(with_files(plan, module, files)),
        layers(with_files(plan, module, files), at) == if files.contains(at) {
            layers(plan, at).push(module)
        } else {
            layers(plan, at)
        },
    decreases files.len(),
{
    if files.len() == 0 {
    } else {
        let front = files.drop_last();
        let f = files.last();
        let mid = with_files(plan, module, front);
        lemma_with_files(plan, module, front, at);
        lemma_with_files(plan, module, front, f);
        lemma_noted(mid, f, module, at);
        assert(files.contains(f)) by {
            assert(files[files.len() - 1] == f);
        }
        if front.contains(at) {
            let k = choose|k: int| 0 <= k < front.len() && front[k] == at;
            assert(files[k] == at);
        }
        if files.contains(at) && at != f {
            let k = choose|k: int| 0 <= k < files.len() && files[k] == at;
            assert(front[k] == at);
        }
        if at == f {
            if front.contains(f) {
                assert(layers(mid, f).last() == module);
            } else {
                let below = layers(plan, f);
                assert(!below.contains(module));
                if below.len() > 0 {
                    assert(below[below.len() - 1] != module);
                }
            }
        }
    }
}

/// The modules that provide a file for the target and take part in the
/// overlay.
pub open spec fn provides(target: Seq<u8>) -> spec_fn(ModuleModel) -> bool {
    |m: ModuleModel| contributes(m) && m.files.contains(target)
}

/// At every target the plan stacks exactly the contributing modules that
/// provide a file for it, in registry order.
pub proof fn law_layers_are_the_providers(ms: Seq<ModuleModel>, target: Seq<u8>)
    requires
        well_formed(ms),
    ensures
        distinct_targets(plan_of(ms)),
        no_empty_entry(plan_of(ms)),
        layers(plan_of(ms), target) == ids_of(ms.filter(provides(target))),
    decreases ms.len(),
{
    reveal(Seq::filter);
    if ms.len() == 0 {
        assert(layers(plan_of(ms), target) =~= ids_of(ms.filter(provides(target))));
    } else {
        let front = ms.drop_last();
        let last = ms.last();
        assert(well_formed(front)) by {
            assert forall|i: int, j: int| 0 <= i < j < front.len() implies (#[trigger] front[i]).id
                != (#[trigger] front[j]).id && front[i].priority <= front[j].priority by {
                assert(front[i] == ms[i] && front[j] == ms[j]);
            }
        }
        law_layers_are_the_providers(front, target);
        let below = plan_of(front);
        if contributes(last) {
            assert forall|x: Seq<u8>| !(#[trigger] layers(below, x)).contains(last.id) by {
                law_layers_are_the_providers(front, x);
                let kept = front.filter(provides(x));
                if ids_of(kept).contains(last.id) {
                    let k = choose|k: int| 0 <= k < ids_of(kept).len() && ids_of(kept)[k] == last.id;
                    front.lemma_filter_contains_rev(provides(x), kept[k]);
                    let v = choose|v: int| 0 <= v < front.len() && front[v] == kept[k];
                    assert(ms[v].id == ms[ms.len() - 1].id);
                }
            }
            lemma_with_files(below, last.id, last.files, target);
            assert(ids_of(front.filter(provides(target)).push(last)) =~= ids_of(
                front.filter(provides(target)),
            ).push(last.id));
        }
    }
}

/// Whatever the plan stacks at a target traces back to a module that is
/// enabled, carries no skip marker and provides a file for that target: no
/// disabled module, and none that awaits removal or is being installed,
/// appears in a plan.
pub proof fn law_plan_excludes_inactive(ms: Seq<ModuleModel>, e: int, k: int, i: int)
    requires
        well_formed(ms),
        0 <= e < plan_of(ms).len(),
        0 <= k < plan_of(ms)[e].modules.len(),
        0 <= i < ms.len(),
        ms[i].id == plan_of(ms)[e].modules[k],
    ensures
        ms[i].state == ModuleState::Enabled,
        !ms[i].skip_mount,
        ms[i].files.contains(plan_of(ms)[e].target),
{
    let plan = plan_of(ms);
    let target = plan[e].target;
    law_layers_are_the_providers(ms, target);
    lemma_layers_at(plan, e);
    let kept = ms.filter(provides(target));
    assert(ids_of(kept)[k] == kept[k].id);
    ms.lemma_filter_pred(provides(target), k);
    ms.lemma_filter_contains_rev(provides(target), kept[k]);
    let v = choose|v: int| 0 <= v < ms.len() && ms[v] == kept[k];
    if v < i {
        assert(ms[v].id != ms[i].id);
    }
    if i < v {
        assert(ms[i].id != ms[v].id);
    }
}

/// Later modules win: where a contributing module provides a file for a
/// target and no module behind it in the registry does, it is the one on
/// top at that target.
pub proof fn law_last_provider_is_on_top(ms: Seq<ModuleModel>, target: Seq<u8>, i: int)
    requires
        well_formed(ms),
        0 <= i < ms.len(),
        contributes(ms[i]),
        ms[i].files.contains(target),
        forall|j: int| i < j < ms.len() ==> !(contributes(#[trigger] ms[j]) && ms[j].files.contains(
            target,
        )),
    ensures
        layers(plan_of(ms), target).len() > 0,
        layers(plan_of(ms), target).last() == ms[i].id,
    decreases ms.len(),
{
    reveal(Seq::filter);
    law_layers_are_the_providers(ms, target);
    let front = ms.drop_last();
    let last = ms.last();
    if i == ms.len() - 1 {
        assert(ids_of(front.filter(provides(target)).push(last)) =~= ids_of(
            front.filter(provides(target)),
        ).push(last.id));
    } else {
        assert(!(contributes(last) && last.files.contains(target)));
        assert(well_formed(front)) by {
            assert forall|a: int, b: int| 0 <= a < b < front.len() implies (#[trigger] front[a]).id
                != (#[trigger] front[b]).id && front[a].priority <= front[b].priority by {
                assert(front[a] == ms[a] && front[b] == ms[b]);
            }
        }
        assert(front[i] == ms[i]);
        assert forall|j: int| i < j < front.len() implies !(contributes(#[trigger] front[j])
            && front[j].files.contains(target)) by {
            assert(front[j] == ms[j]);
        }
        law_last_provider_is_on_top(front, target, i);
        law_layers_are_the_providers(front, target);
    }
}

/// The module whose file is seen at the target: the last of its layers.
pub open spec fn top_of(plan: Seq<PlanEntryModel>, target: Seq<u8>) -> Option<Seq<u8>> {
    if layers(plan, target).len() > 0 {
        Some(layers(plan, target).last())
    } else {
        None
    }
}

/// Where the file that a module provides for a target lies.
pub open spec fn source_of(module: Seq<u8>, target: Seq<u8>) -> Seq<u8> {
    dir_of(module) + target
}

pub fn source_path(module: &[u8], target: &[u8]) -> (path: Vec<u8>)
    ensures
        path@ == source_of(module@, target@),
{
    let dir = module_dir(module);
    append(dir.as_slice(), target)
}

/// One mount: the target and the files to stack on it, the one that is
/// seen first.
#[derive(Debug)]
pub struct MountStep {
    pub target: Vec<u8>,
    pub layers: Vec<Vec<u8>>,
}

pub struct MountStepModel {
    pub target: Seq<u8>,
    pub layers: Seq<Seq<u8>>,
}

impl View for MountStep {
    type V = MountStepModel;

    open spec fn view(&self) -> MountStepModel {
        MountStepModel { target: self.target@, layers: rows(self.layers@) }
    }
}

/// The mount for one entry: its modules' files, the last module's first.
pub open spec fn step_of(entry: PlanEntryModel) -> MountStepModel {
    MountStepModel {
        target: entry.target,
        layers: Seq::new(
            entry.modules.len(),
            |k: int| source_of(entry.modules[entry.modules.len() - 1 - k], entry.target),
        ),
    }
}

/// The mounts for a plan, entry by entry.
pub open spec fn steps_of(plan: Seq<PlanEntryModel>) -> Seq<MountStepModel> {
    plan.map_values(|entry: PlanEntryModel| step_of(entry))
}

pub open spec fn is_not(module: Seq<u8>) -> spec_fn(Seq<u8>) -> bool {
    |other: Seq<u8>| other != module
}

pub open spec fn has_modules() -> spec_fn(PlanEntryModel) -> bool {
    |entry: PlanEntryModel| entry.modules.len() > 0
}

/// The plan without the module: it leaves every entry, and entries that it
/// held alone leave the plan.
pub open spec fn skipping(plan: Seq<PlanEntryModel>, module: Seq<u8>) -> Seq<PlanEntryModel> {
    plan.map_values(
        |entry: PlanEntryModel|
            PlanEntryModel { target: entry.target, modules: entry.modules.filter(is_not(module)) },
    ).filter(has_modules())
}

fn mount_for(entry: &PlanEntry) -> (step: MountStep)
    ensures
        step@ == step_of(entry@),
{
    let target = copy_range(entry.target.as_slice(), 0, entry.target.len());
    assert(target@ =~= entry@.target);
    let mut layers: Vec<Vec<u8>> = Vec::new();
    let n: usize = entry.modules.len();
    let mut k: usize = 0;
    while k < n
        invariant
            k <= n == entry.modules@.len(),
            layers@.len() == k,
            forall|j: int| 0 <= j < k ==> (#[trigger] layers@[j])@ == step_of(entry@).layers[j],
        decreases n - k,
    {
        let module = &entry.modules[n - 1 - k];
        assert(rows(entry.modules@)[n - 1 - k] == module@);
        layers.push(source_path(module.as_slice(), entry.target.as_slice()));
        k += 1;
    }
    assert(rows(layers@) =~= step_of(entry@).layers);
    MountStep { target, layers }
}

fn without_module(modules: &Vec<Vec<u8>>, module: &[u8]) -> (out: Vec<Vec<u8>>)
    ensures
        rows(out@) == rows(modules@).filter(is_not(module@)),
{
    let ghost all = rows(modules@);
    let mut out: Vec<Vec<u8>> = Vec::new();
    let mut i: usize = 0;
    proof {
        reveal(Seq::filter);
        assert(rows(out@) =~= all.take(0).filter(is_not(module@)));
    }
    while i < modules.len()
        invariant
            i <= modules@.len(),
            all == rows(modules@),
            rows(out@) == all.take(i as int).filter(is_not(module@)),
        decreases modules.len() - i,
    {
        let m = &modules[i];
        proof {
            assert(all[i as int] == m@);
            assert(all.take(i + 1) =~= all.take(i as int).push(m@));
            all.take(i as int).lemma_filter_push(m@, is_not(module@));
        }
        if !bytes_eq(m.as_slice(), module) {
            let ghost before = rows(out@);
            let copy = copy_range(m.as_slice(), 0, m.len());
            assert(copy@ =~= m@);
            out.push(copy);
            assert(rows(out@) =~= before.push(m@));
        }
        i += 1;
    }
    assert(all.take(i as int) =~= all);
    out
}

impl OverlayPlan {
    /// The module whose file is seen at the target, if any module provides
    /// one.
    pub fn on_top(&self, target: &[u8]) -> (r: Option<Vec<u8>>)
        ensures
            match top_of(self@, target@) {
                Some(module) => r matches Some(found) && found@ == module,
                None => r is None,
            },
    {
        match self.find(target) {
            None => None,
            Some(i) => {
                let modules = &self.entries[i].modules;
                let n: usize = modules.len();
                if n == 0 {
                    None
                } else {
                    let top = &modules[n - 1];
                    assert(rows(modules@)[n - 1] == top@);
                    let copy = copy_range(top.as_slice(), 0, top.len());
                    assert(copy@ =~= top@);
                    Some(copy)
                }
            },
        }
    }

    /// The plan that is left when a module's mount has failed: the module
    /// is skipped and the others go on.
    pub fn skip_module(&self, module: &[u8]) -> (plan: OverlayPlan)
        ensures
            plan@ == skipping(self@, module@),
    {
        let ghost stripped = self@.map_values(
            |entry: PlanEntryModel|
                PlanEntryModel {
                    target: entry.target,
                    modules: entry.modules.filter(is_not(module@)),
                },
        );
        let mut plan = OverlayPlan { entries: Vec::new() };
        let mut i: usize = 0;
        proof {
            reveal(Seq::filter);
            assert(plan@ =~= stripped.take(0).filter(has_modules()));
        }
        while i < self.entries.len()
            invariant
                i <= self.entries@.len(),
                stripped.len() == self.entries@.len(),
                forall|j: int|
                    0 <= j < stripped.len() ==> #[trigger] stripped[j] == (PlanEntryModel {
                        target: self@[j].target,
                        modules: self@[j].modules.filter(is_not(module@)),
                    }),
                plan@ == stripped.take(i as int).filter(has_modules()),
            decreases self.entries.len() - i,
        {
            let entry = &self.entries[i];
            let modules = without_module(&entry.modules, module);
            proof {
                assert(stripped.take(i + 1) =~= stripped.take(i as int).push(stripped[i as int]));
                stripped.take(i as int).lemma_filter_push(stripped[i as int], has_modules());
            }
            if modules.len() > 0 {
                let ghost before = plan@;
                let target = copy_range(entry.target.as_slice(), 0, entry.target.len());
                assert(target@ =~= entry@.target);
                plan.entries.push(PlanEntry { target, modules });
                assert(plan@ =~= before.push(stripped[i as int]));
            }
            i += 1;
        }
        assert(stripped.take(i as int) =~= stripped);
        plan
    }
}

/// Turns a plan into mounts, entry by entry. Mounting must not leak to the
/// rest of the system, so a process that is not in a private namespace gets
/// no mounts but the error `NotPrivate`.
pub fn activate(plan: &OverlayPlan, namespace: Namespace) -> (r: Result<
    Vec<MountStep>,
    NamespaceError,
>)
    ensures
        match r {
            Ok(steps) => namespace == Namespace::Private && steps@.map_values(|s: MountStep| s@)
                == steps_of(plan@),
            Err(e) => namespace != Namespace::Private && e == NamespaceError::NotPrivate,
        },
{
    if namespace != Namespace::Private {
        return Err(NamespaceError::NotPrivate);
    }
    let mut steps: Vec<MountStep> = Vec::new();
    let mut i: usize = 0;
    while i < plan.entries.len()
        invariant
            i <= plan.entries@.len(),
            steps@.len() == i,
            forall|j: int| 0 <= j < i ==> (#[trigger] steps@[j])@ == step_of(plan@[j]),
        decreases plan.entries.len() - i,
    {
        steps.push(mount_for(&plan.entries[i]));
        i += 1;
    }
    assert(steps@.map_values(|s: MountStep| s@) =~= steps_of(plan@));
    Ok(steps)
}

} // verus!
