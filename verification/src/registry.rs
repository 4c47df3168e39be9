//! The registry of installed modules and the transitions on it.
use crate::bytes::{bytes_eq, copy_range, rows};
use crate::module::{
    dir_of, disabled_in, disabling, enabled_in, enabling, ids_of, is_first, lemma_insert_keeps_order,
    lemma_inserted_at, lemma_position, lemma_registered_position, lemma_remove_keeps_order, lemma_restated,
    lemma_update_keeps_order, models, module_dir, pending, placed, position, registered, restated,
    staying,
    uninstalled_in, well_formed, with_state, without, Module, ModuleError, ModuleModel, ModuleState,
};
use vstd::prelude::*;

verus! {

/// A snapshot of the installed modules, in priority order.
#[derive(Debug)]
pub struct Registry {
    pub modules: Vec<Module>,
}

impl View for Registry {
    type V = Seq<ModuleModel>;

    open spec fn view(&self) -> Seq<ModuleModel> {
        models(self.modules@)
    }
}

/// What to run for a module's action, and where.
#[derive(Debug)]
pub struct ActionRequest {
    pub script: Vec<u8>,
    pub workdir: Vec<u8>,
}

/// The outcome of asking for the action of module `id`.
pub open spec fn action_in(ms: Seq<ModuleModel>, id: Seq<u8>) -> Result<
    (Seq<u8>, Seq<u8>),
    ModuleError,
> {
    if !registered(ms, id) {
        Err(ModuleError::NotFound)
    } else {
        match ms[position(ms, id)].action {
            None => Err(ModuleError::NoAction),
            Some(script) => Ok((script, dir_of(id))),
        }
    }
}

impl Registry {
    /// No id occurs twice, and the modules stand in priority order.
    pub open spec fn wf(&self) -> bool {
        well_formed(self@)
    }

    pub fn new() -> (registry: Registry)
        ensures
            registry@ == Seq::<ModuleModel>::empty(),
            registry.wf(),
    {
        let registry = Registry { modules: Vec::new() };
        assert(registry@ =~= Seq::<ModuleModel>::empty());
        registry
    }

    /// The place of the module `id`.
    pub fn find(&self, id: &[u8]) -> (place: Option<usize>)
        ensures
            match place {
                Some(i) => is_first(self@, id@, i as int),
                None => !registered(self@, id@),
            },
    {
        let mut i: usize = 0;
        while i < self.modules.len()
            invariant
                i <= self.modules@.len(),
                forall|j: int| 0 <= j < i ==> (#[trigger] self@[j]).id != id@,
            decreases self.modules.len() - i,
        {
            if bytes_eq(self.modules[i].id.as_slice(), id) {
                return Some(i);
            }
            i += 1;
        }
        None
    }

    /// Gives the module at place `i` the given state.
    pub(crate) fn set_state_at(&mut self, i: usize, state: ModuleState)
        requires
            i < old(self)@.len(),
        ensures
            final(self)@ == old(self)@.update(i as int, with_state(old(self)@[i as int], state)),
    {
        let mut module = self.modules.remove(i);
        module.state = state;
        self.modules.insert(i, module);
        assert(self@ =~= old(self)@.update(i as int, with_state(old(self)@[i as int], state)));
    }

    /// Enables the module `id`: a disabled module becomes enabled, a module
    /// in any other state stays as it is. Fails only where no such module is
    /// registered.
    pub fn enable(&mut self, id: &[u8]) -> (r: Result<(), ModuleError>)
        requires
            old(self).wf(),
        ensures
            final(self).wf(),
            final(self)@ == enabled_in(old(self)@, id@),
            r == if registered(old(self)@, id@) {
                Ok::<(), ModuleError>(())
            } else {
                Err(ModuleError::NotFound)
            },
    {
        match self.find(id) {
            None => Err(ModuleError::NotFound),
            Some(i) => {
                proof {
                    lemma_position(self@, id@, i as int);
                    lemma_update_keeps_order(self@, i as int, enabling(self@[i as int].state));
                }
                let next = match self.modules[i].state {
                    ModuleState::Disabled => ModuleState::Enabled,
                    other => other,
                };
                self.set_state_at(i, next);
                Ok(())
            },
        }
    }

    /// Disables the module `id`: an enabled module becomes disabled, a
    /// module in any other state stays as it is. Fails only where no such
    /// module is registered.
    pub fn disable(&mut self, id: &[u8]) -> (r: Result<(), ModuleError>)
        requires
            old(self).wf(),
        ensures
            final(self).wf(),
            final(self)@ == disabled_in(old(self)@, id@),
            r == if registered(old(self)@, id@) {
                Ok::<(), ModuleError>(())
            } else {
                Err(ModuleError::NotFound)
            },
    {
        match self.find(id) {
            None => Err(ModuleError::NotFound),
            Some(i) => {
                proof {
                    lemma_position(self@, id@, i as int);
                    lemma_update_keeps_order(self@, i as int, disabling(self@[i as int].state));
                }
                let next = match self.modules[i].state {
                    ModuleState::Enabled => ModuleState::Disabled,
                    other => other,
                };
                self.set_state_at(i, next);
                Ok(())
            },
        }
    }

    /// Marks the module `id` for removal. It stays registered until the next
    /// sweep. Fails only where no such module is registered.
    pub fn uninstall(&mut self, id: &[u8]) -> (r: Result<(), ModuleError>)
        requires
            old(self).wf(),
        ensures
            final(self).wf(),
            final(self)@ == uninstalled_in(old(self)@, id@),
            r == if registered(old(self)@, id@) {
                Ok::<(), ModuleError>(())
            } else {
                Err(ModuleError::NotFound)
            },
    {
        match self.find(id) {
            None => Err(ModuleError::NotFound),
            Some(i) => {
                proof {
                    lemma_position(self@, id@, i as int);
                    lemma_update_keeps_order(self@, i as int, ModuleState::PendingRemoval);
                }
                self.set_state_at(i, ModuleState::PendingRemoval);
                Ok(())
            },
        }
    }

    /// Drops every module that is marked for removal and returns their ids,
    /// in registry order. The others keep their order.
    pub fn sweep(&mut self) -> (removed: Vec<Vec<u8>>)
        requires
            old(self).wf(),
        ensures
            final(self).wf(),
            final(self)@ == old(self)@.filter(staying()),
            rows(removed@) == ids_of(old(self)@.filter(pending())),
    {
        let ghost start = self@;
        let ghost mut k: int = 0;
        let mut removed: Vec<Vec<u8>> = Vec::new();
        let mut i: usize = 0;
        proof {
            reveal(Seq::filter);
            assert(start.take(0).filter(staying()) =~= Seq::<ModuleModel>::empty());
            assert(start.take(0).filter(pending()) =~= Seq::<ModuleModel>::empty());
            assert(start.skip(0) =~= start);
            assert(self@ =~= start.take(0).filter(staying()) + start.skip(0));
            assert(rows(removed@) =~= ids_of(start.take(0).filter(pending())));
        }
        while i < self.modules.len()
            invariant
                0 <= k <= start.len(),
                i == start.take(k).filter(staying()).len(),
                self@ == start.take(k).filter(staying()) + start.skip(k),
                rows(removed@) == ids_of(start.take(k).filter(pending())),
                well_formed(self@),
            decreases start.len() - k,
        {
            let ghost kept = start.take(k).filter(staying());
            let ghost gone = start.take(k).filter(pending());
            proof {
                assert(self@[i as int] == start.skip(k)[0]);
                assert(start.take(k + 1) =~= start.take(k).push(start[k]));
                start.take(k).lemma_filter_push(start[k], staying());
                start.take(k).lemma_filter_push(start[k], pending());
                assert(start.skip(k + 1) =~= start.skip(k).skip(1));
            }
            if self.modules[i].state == ModuleState::PendingRemoval {
                proof {
                    lemma_remove_keeps_order(self@, i as int);
                }
                let ghost before = rows(removed@);
                let ghost current = self@;
                let module = self.modules.remove(i);
                removed.push(module.id);
                proof {
                    assert(self@ =~= current.remove(i as int));
                    assert(current.remove(i as int) =~= kept + start.skip(k + 1));
                    assert(rows(removed@) =~= before.push(start[k].id));
                    assert(ids_of(gone.push(start[k])) =~= ids_of(gone).push(start[k].id));
                }
            } else {
                proof {
                    assert(self@ =~= kept.push(start[k]) + start.skip(k + 1));
                }
                i += 1;
            }
            proof {
                k = k + 1;
            }
        }
        proof {
            assert(start.take(k) =~= start);
            assert(self@ =~= start.filter(staying()));
        }
        removed
    }

    /// Puts a module into the registry, in the place of its priority and
    /// instead of any module that had its id.
    pub fn put(&mut self, module: Module)
        requires
            old(self).wf(),
        ensures
            final(self).wf(),
            final(self)@ == placed(old(self)@, module@),
            is_first(final(self)@, module@.id, position(final(self)@, module@.id)),
    {
        match self.find(module.id.as_slice()) {
            Some(i) => {
                proof {
                    lemma_position(self@, module@.id, i as int);
                    lemma_remove_keeps_order(self@, i as int);
                }
                let _ = self.modules.remove(i);
                assert(self@ =~= old(self)@.remove(i as int));
            },
            None => {},
        }
        assert(self@ == without(old(self)@, module@.id));
        let priority: i64 = module.priority;
        let mut k: usize = self.modules.len();
        while k > 0 && self.modules[k - 1].priority > priority
            invariant
                k <= self.modules@.len(),
                forall|j: int| k <= j < self@.len() ==> (#[trigger] self@[j]).priority > priority,
            decreases k,
        {
            k -= 1;
        }
        let ghost before = self@;
        proof {
            lemma_inserted_at(before, module@, k as int);
            lemma_insert_keeps_order(before, module@, k as int);
        }
        self.modules.insert(k, module);
        proof {
            assert(self@ =~= before.insert(k as int, module@));
            lemma_position(self@, module@.id, k as int);
        }
    }

    /// The modules in priority order. An empty registry gives an empty list.
    pub fn list(&self) -> (modules: &Vec<Module>)
        ensures
            models(modules@) == self@,
    {
        &self.modules
    }

    /// What to run as the action of module `id`: its script, in the
    /// module's own directory.
    pub fn run_action(&self, id: &[u8]) -> (r: Result<ActionRequest, ModuleError>)
        ensures
            match action_in(self@, id@) {
                Ok((script, workdir)) => r matches Ok(request) && request.script@ == script
                    && request.workdir@ == workdir,
                Err(e) => r matches Err(f) && f == e,
            },
    {
        match self.find(id) {
            None => Err(ModuleError::NotFound),
            Some(i) => {
                proof {
                    lemma_position(self@, id@, i as int);
                }
                match &self.modules[i].action {
                    None => Err(ModuleError::NoAction),
                    Some(script) => {
                        let copy = copy_range(script.as_slice(), 0, script.len());
                        assert(copy@ =~= script@);
                        Ok(ActionRequest { script: copy, workdir: module_dir(id) })
                    },
                }
            },
        }
    }
}

/// What a finished action script amounts to: success on status zero, and
/// otherwise a failure that carries the status.
pub fn action_result(status: i32) -> (r: Result<(), ModuleError>)
    ensures
        r == if status == 0 {
            Ok::<(), ModuleError>(())
        } else {
            Err(ModuleError::ActionFailed { status })
        },
{
    if status == 0 {
        Ok(())
    } else {
        Err(ModuleError::ActionFailed { status })
    }
}

/// Disabling and then enabling a module that was enabled or disabled
/// leaves it enabled, with everything else about it, and every other
/// module, as before.
pub proof fn law_disable_enable_restores(ms: Seq<ModuleModel>, id: Seq<u8>)
    requires
        well_formed(ms),
        registered(ms, id),
        ms[position(ms, id)].state == ModuleState::Enabled || ms[position(ms, id)].state
            == ModuleState::Disabled,
    ensures
        enabled_in(disabled_in(ms, id), id) == ms.update(
            position(ms, id),
            with_state(ms[position(ms, id)], ModuleState::Enabled),
        ),
        ms[position(ms, id)].state == ModuleState::Enabled ==> enabled_in(disabled_in(ms, id), id)
            == ms,
{
    lemma_registered_position(ms, id);
    let p = position(ms, id);
    let mid = disabled_in(ms, id);
    assert(is_first(mid, id, p)) by {
        assert forall|j: int| 0 <= j < p implies (#[trigger] mid[j]).id != id by {
            assert(mid[j] == ms[j]);
        }
    }
    lemma_position(mid, id, p);
    let end = enabled_in(mid, id);
    assert(end =~= ms.update(p, with_state(ms[p], ModuleState::Enabled)));
    if ms[p].state == ModuleState::Enabled {
        assert(with_state(ms[p], ModuleState::Enabled) == ms[p]);
        assert(end =~= ms);
    }
}

/// An uninstalled module stays registered, marked for removal, until a
/// sweep; after the sweep it is gone.
pub proof fn law_uninstalled_until_swept(ms: Seq<ModuleModel>, id: Seq<u8>)
    requires
        well_formed(ms),
        registered(ms, id),
    ensures
        registered(uninstalled_in(ms, id), id),
        uninstalled_in(ms, id)[position(uninstalled_in(ms, id), id)].state
            == ModuleState::PendingRemoval,
        !registered(uninstalled_in(ms, id).filter(staying()), id),
{
    lemma_registered_position(ms, id);
    let p = position(ms, id);
    let marked = uninstalled_in(ms, id);
    assert(is_first(marked, id, p)) by {
        assert forall|j: int| 0 <= j < p implies (#[trigger] marked[j]).id != id by {
            assert(marked[j] == ms[j]);
        }
    }
    lemma_position(marked, id, p);
    lemma_update_keeps_order(ms, p, ModuleState::PendingRemoval);
    let swept = marked.filter(staying());
    if registered(swept, id) {
        let w = choose|i: int| 0 <= i < swept.len() && (#[trigger] swept[i]).id == id;
        marked.lemma_filter_pred(staying(), w);
        marked.lemma_filter_contains_rev(staying(), swept[w]);
        let v = choose|i: int| 0 <= i < marked.len() && marked[i] == swept[w];
        assert(marked[v].id == id);
        if v < p {
            assert(marked[v].id != marked[p].id);
        }
        if p < v {
            assert(marked[p].id != marked[v].id);
        }
        assert(false);
    }
}

/// Enabling twice is enabling once, and so is disabling.
pub proof fn law_toggling_twice_changes_nothing(ms: Seq<ModuleModel>, id: Seq<u8>)
    requires
        well_formed(ms),
    ensures
        enabled_in(enabled_in(ms, id), id) == enabled_in(ms, id),
        disabled_in(disabled_in(ms, id), id) == disabled_in(ms, id),
{
    if registered(ms, id) {
        let p = position(ms, id);
        lemma_registered_position(ms, id);
        lemma_restated(ms, id, enabling(ms[p].state));
        lemma_restated(ms, id, disabling(ms[p].state));
        let on = enabled_in(ms, id);
        assert(on == restated(ms, id, enabling(ms[p].state)));
        assert(with_state(on[p], enabling(on[p].state)) == on[p]);
        assert(registered(on, id) && position(on, id) == p);
        assert(on.update(p, on[p]) =~= on);
        assert(enabled_in(on, id) == on);
        let off = disabled_in(ms, id);
        assert(off == restated(ms, id, disabling(ms[p].state)));
        assert(with_state(off[p], disabling(off[p].state)) == off[p]);
        assert(registered(off, id) && position(off, id) == p);
        assert(off.update(p, off[p]) =~= off);
        assert(disabled_in(off, id) == off);
    }
}

} // verus!
