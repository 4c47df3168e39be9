//! Module packages: what a package must hold, what it declares, and how it
//! is installed.
//!
//! A package is a list of entries, each a path and its content. The entry
//! `module.prop` holds the metadata, one `key=value` per line; the key `id`
//! names the module. Entries below `system/` make up the file tree that the
//! module lays over the system. The entry `action.sh` is the module's action
//! script, and the entry `skip_mount` asks to leave the module out of the
//! overlay.
use crate::bytes::{
    bytes_eq, append, copy_range, has_prefix, lemma_run_len_is, pieces, rows, run_len, split,
    starts_with, Delim,
};
use crate::module::{
    dir_of, lemma_placed, lemma_position, lemma_restated, module_dir, placed, position,
    registered, restated, well_formed, Metadata, MetadataModel, Module, ModuleError, ModuleModel,
    ModuleState,
};
use crate::registry::Registry;
use vstd::prelude::*;
use vstd::string::StringSliceAdditionalSpecFns;

verus! {

#[derive(Clone, Debug)]
pub struct PackageEntry {
    pub path: Vec<u8>,
    pub data: Vec<u8>,
}

pub struct EntryModel {
    pub path: Seq<u8>,
    pub data: Seq<u8>,
}

impl View for PackageEntry {
    type V = EntryModel;

    open spec fn view(&self) -> EntryModel {
        EntryModel { path: self.path@, data: self.data@ }
    }
}

#[derive(Clone, Debug)]
pub struct Package {
    pub entries: Vec<PackageEntry>,
    /// Set where the package asks that an update start out enabled, whatever
    /// the module's state was.
    pub reset_state: bool,
}

pub struct PackageModel {
    pub entries: Seq<EntryModel>,
    pub reset_state: bool,
}

impl View for Package {
    type V = PackageModel;

    open spec fn view(&self) -> PackageModel {
        PackageModel {
            entries: self.entries@.map_values(|e: PackageEntry| e@),
            reset_state: self.reset_state,
        }
    }
}

/// What becomes of a module's state when an install replaces it.
#[derive(Clone, Copy, PartialEq, Eq, Structural, Debug)]
pub enum UpdatePolicy {
    /// A disabled module stays disabled, unless the package asks otherwise.
    PreserveState,
    /// The module is enabled.
    ResetToEnabled,
}

#[derive(Clone, Copy, Debug)]
pub struct InstallOptions {
    pub priority: i64,
    pub on_update: UpdatePolicy,
}

/// Handed out when an install begins, and handed back when it ends.
#[derive(Debug)]
pub struct InstallTicket {
    pub id: Vec<u8>,
    /// The directory to unpack the package into.
    pub dir: Vec<u8>,
    /// Whether the module is disabled once installed.
    pub disabled: bool,
}

/// The component `..`.
pub open spec fn is_parent(component: Seq<u8>) -> bool {
    component.len() == 2 && component[0] == 46 && component[1] == 46
}

/// A path that stays below the directory it is unpacked into: not empty,
/// not absolute, and without a `..` among its components.
pub open spec fn is_safe_path(path: Seq<u8>) -> bool {
    path.len() > 0 && path[0] != 47 && forall|i: int|
        0 <= i < pieces(path, Delim::Slash).len() ==> !is_parent(
            #[trigger] pieces(path, Delim::Slash)[i],
        )
}

pub open spec fn all_safe(entries: Seq<EntryModel>) -> bool {
    forall|i: int| 0 <= i < entries.len() ==> is_safe_path((#[trigger] entries[i]).path)
}

pub open spec fn holds_entry(entries: Seq<EntryModel>, path: Seq<u8>) -> bool {
    exists|i: int| 0 <= i < entries.len() && (#[trigger] entries[i]).path == path
}

pub open spec fn is_first_entry(entries: Seq<EntryModel>, path: Seq<u8>, i: int) -> bool {
    0 <= i < entries.len() && entries[i].path == path && forall|j: int|
        0 <= j < i ==> (#[trigger] entries[j]).path != path
}

/// The place of the first entry of that path, where there is one.
pub open spec fn entry_place(entries: Seq<EntryModel>, path: Seq<u8>) -> int {
    choose|i: int| is_first_entry(entries, path, i)
}

/// The key of a metadata line: what stands before its first `=`.
pub open spec fn key_of(line: Seq<u8>) -> Option<Seq<u8>> {
    let n = run_len(line, Delim::Equals);
    if n < line.len() {
        Some(line.take(n as int))
    } else {
        None
    }
}

/// The value of a metadata line: what stands behind its first `=`.
pub open spec fn value_of(line: Seq<u8>) -> Seq<u8> {
    line.skip(run_len(line, Delim::Equals) as int + 1)
}

/// The value of the first of `lines` that has the key.
pub open spec fn lookup(lines: Seq<Seq<u8>>, key: Seq<u8>) -> Option<Seq<u8>>
    decreases lines.len(),
{
    if lines.len() == 0 {
        None
    } else if key_of(lines[0]) == Some(key) {
        Some(value_of(lines[0]))
    } else {
        lookup(lines.skip(1), key)
    }
}

/// The value that metadata gives to a key.
pub open spec fn prop_of(data: Seq<u8>, key: Seq<u8>) -> Option<Seq<u8>> {
    lookup(pieces(data, Delim::Line), key)
}

pub open spec fn prop_or_empty(data: Seq<u8>, key: Seq<u8>) -> Seq<u8> {
    match prop_of(data, key) {
        Some(value) => value,
        None => Seq::empty(),
    }
}

pub open spec fn is_letter(b: u8) -> bool {
    (65 <= b && b <= 90) || (97 <= b && b <= 122)
}

/// A letter, a digit, a dot, an underscore or a hyphen.
pub open spec fn id_byte(b: u8) -> bool {
    is_letter(b) || (48 <= b && b <= 57) || b == 46 || b == 95 || b == 45
}

/// An id begins with a letter and goes on with letters, digits, dots,
/// underscores and hyphens.
pub open spec fn valid_id(id: Seq<u8>) -> bool {
    id.len() > 0 && is_letter(id[0]) && forall|k: int| 0 <= k < id.len() ==> id_byte(#[trigger] id[k])
}

/// An entry below `system/` that is a file.
pub open spec fn is_system_file(entry: EntryModel) -> bool {
    has_prefix(entry.path, "system/".spec_bytes()) && entry.path.len() > "system/".spec_bytes().len()
        && entry.path.last() != 47
}

pub open spec fn system_files() -> spec_fn(EntryModel) -> bool {
    |entry: EntryModel| is_system_file(entry)
}

/// The system path that an entry's file is laid over.
pub open spec fn target_of(entry: EntryModel) -> Seq<u8> {
    seq![47u8] + entry.path
}

/// The system paths that a package's file tree provides, in entry order.
pub open spec fn provided(entries: Seq<EntryModel>) -> Seq<Seq<u8>> {
    entries.filter(system_files()).map_values(|entry: EntryModel| target_of(entry))
}

/// The module that a package declares, as it stands while it is installed
/// with the given priority. A package declares a module where all its paths
/// are safe and its metadata names a valid id.
pub open spec fn declared(package: PackageModel, priority: i64) -> Option<ModuleModel> {
    let entries = package.entries;
    if !all_safe(entries) || !holds_entry(entries, "module.prop".spec_bytes()) {
        None
    } else {
        let data = entries[entry_place(entries, "module.prop".spec_bytes())].data;
        match prop_of(data, "id".spec_bytes()) {
            None => None,
            Some(id) => if !valid_id(id) {
                None
            } else {
                Some(
                    ModuleModel {
                        id,
                        metadata: MetadataModel {
                            name: prop_or_empty(data, "name".spec_bytes()),
                            version: prop_or_empty(data, "version".spec_bytes()),
                            author: prop_or_empty(data, "author".spec_bytes()),
                            description: prop_or_empty(data, "description".spec_bytes()),
                        },
                        state: ModuleState::Updating,
                        priority,
                        action: if holds_entry(entries, "action.sh".spec_bytes()) {
                            Some(dir_of(id) + "/action.sh".spec_bytes())
                        } else {
                            None
                        },
                        skip_mount: holds_entry(entries, "skip_mount".spec_bytes()),
                        files: provided(entries),
                    },
                )
            },
        }
    }
}

pub fn safe_path(path: &[u8]) -> (ok: bool)
    ensures
        ok == is_safe_path(path@),
{
    if path.len() == 0 || path[0] == 47 {
        return false;
    }
    let components = split(path, Delim::Slash);
    let mut i: usize = 0;
    while i < components.len()
        invariant
            i <= components@.len(),
            rows(components@) == pieces(path@, Delim::Slash),
            forall|j: int| 0 <= j < i ==> !is_parent(#[trigger] pieces(path@, Delim::Slash)[j]),
        decreases components.len() - i,
    {
        let c = &components[i];
        assert(rows(components@)[i as int] == c@);
        if c.len() == 2 && c[0] == 46 && c[1] == 46 {
            return false;
        }
        i += 1;
    }
    true
}

pub fn check_id(id: &[u8]) -> (ok: bool)
    ensures
        ok == valid_id(id@),
{
    if id.len() == 0 {
        return false;
    }
    let first: u8 = id[0];
    if !((65 <= first && first <= 90) || (97 <= first && first <= 122)) {
        return false;
    }
    let mut i: usize = 0;
    while i < id.len()
        invariant
            i <= id@.len(),
            forall|k: int| 0 <= k < i ==> id_byte(#[trigger] id@[k]),
        decreases id.len() - i,
    {
        let b: u8 = id[i];
        if !((65 <= b && b <= 90) || (97 <= b && b <= 122) || (48 <= b && b <= 57) || b == 46 || b
            == 95 || b == 45) {
            return false;
        }
        i += 1;
    }
    true
}

impl Package {
    /// The place of the first entry of that path.
    pub fn find_entry(&self, path: &[u8]) -> (place: Option<usize>)
        ensures
            match place {
                Some(i) => is_first_entry(self@.entries, path@, i as int) && entry_place(
                    self@.entries,
                    path@,
                ) == i && holds_entry(self@.entries, path@),
                None => !holds_entry(self@.entries, path@),
            },
    {
        let mut i: usize = 0;
        while i < self.entries.len()
            invariant
                i <= self.entries@.len(),
                forall|j: int| 0 <= j < i ==> (#[trigger] self@.entries[j]).path != path@,
            decreases self.entries.len() - i,
        {
            if bytes_eq(self.entries[i].path.as_slice(), path) {
                proof {
                    let entries = self@.entries;
                    assert(is_first_entry(entries, path@, i as int));
                    let p = entry_place(entries, path@);
                    assert(is_first_entry(entries, path@, p));
                    if p < i {
                        assert(entries[p].path != path@);
                    }
                    if i < p {
                        assert(entries[i as int].path != path@);
                    }
                }
                return Some(i);
            }
            i += 1;
        }
        None
    }

    /// Whether every entry's path is safe.
    pub fn paths_safe(&self) -> (ok: bool)
        ensures
            ok == all_safe(self@.entries),
    {
        let mut i: usize = 0;
        while i < self.entries.len()
            invariant
                i <= self.entries@.len(),
                forall|j: int| 0 <= j < i ==> is_safe_path((#[trigger] self@.entries[j]).path),
            decreases self.entries.len() - i,
        {
            if !safe_path(self.entries[i].path.as_slice()) {
                assert(!is_safe_path(self@.entries[i as int].path));
                return false;
            }
            i += 1;
        }
        true
    }

    /// The system paths that the package's file tree provides.
    pub fn provided_files(&self) -> (files: Vec<Vec<u8>>)
        ensures
            rows(files@) == provided(self@.entries),
    {
        let ghost entries = self@.entries;
        let mut files: Vec<Vec<u8>> = Vec::new();
        let mut i: usize = 0;
        proof {
            reveal(Seq::filter);
            assert(entries.take(0).filter(system_files()) =~= Seq::<EntryModel>::empty());
            assert(rows(files@) =~= provided(entries.take(0)));
        }
        while i < self.entries.len()
            invariant
                i <= self.entries@.len(),
                entries == self@.entries,
                rows(files@) == provided(entries.take(i as int)),
            decreases self.entries.len() - i,
        {
            let path = &self.entries[i].path;
            let ghost entry = entries[i as int];
            proof {
                assert(entry.path == path@);
                assert(entries.take(i + 1) =~= entries.take(i as int).push(entry));
                entries.take(i as int).lemma_filter_push(entry, system_files());
            }
            let prefix = "system/".as_bytes();
            if starts_with(path.as_slice(), prefix) && path.len() > prefix.len() && path[path.len()
                - 1] != 47 {
                let ghost before = rows(files@);
                let slash: [u8; 1] = [47];
                assert(slash@ =~= seq![47u8]);
                let target = append(slash.as_slice(), path.as_slice());
                files.push(target);
                proof {
                    assert(rows(files@) =~= before.push(target_of(entry)));
                    assert(provided(entries.take(i as int).push(entry)) =~= provided(
                        entries.take(i as int),
                    ).push(target_of(entry)));
                }
            }
            i += 1;
        }
        proof {
            assert(entries.take(i as int) =~= entries);
        }
        files
    }
}

/// Looks a key up in metadata.
pub fn prop_value(data: &[u8], key: &[u8]) -> (r: Option<Vec<u8>>)
    ensures
        match prop_of(data@, key@) {
            Some(value) => r matches Some(found) && found@ == value,
            None => r is None,
        },
{
    let lines = split(data, Delim::Line);
    let ghost all = rows(lines@);
    let mut i: usize = 0;
    assert(all.skip(0) =~= all);
    while i < lines.len()
        invariant
            i <= lines@.len(),
            all == rows(lines@),
            all == pieces(data@, Delim::Line),
            lookup(all, key@) == lookup(all.skip(i as int), key@),
        decreases lines.len() - i,
    {
        let line = &lines[i];
        proof {
            assert(all.skip(i as int)[0] == line@);
            assert(all.skip(i as int).skip(1) =~= all.skip(i + 1));
        }
        let mut j: usize = 0;
        while j < line.len() && line[j] != 61
            invariant
                j <= line@.len(),
                forall|k: int| 0 <= k < j ==> (#[trigger] line@[k]) != 61,
            decreases line.len() - j,
        {
            j += 1;
        }
        proof {
            lemma_run_len_is(line@, Delim::Equals, j as nat);
        }
        if j < line.len() && j == key.len() && starts_with(line.as_slice(), key) {
            assert(line@.take(j as int) =~= line@.subrange(0, key@.len() as int));
            let value = copy_range(line.as_slice(), j + 1, line.len());
            assert(value@ =~= value_of(line@));
            return Some(value);
        }
        proof {
            if j < line@.len() {
                assert(line@.take(j as int) =~= line@.subrange(0, j as int));
                if key_of(line@) == Some(key@) {
                    assert(line@.take(j as int).len() == key@.len());
                }
            }
        }
        i += 1;
    }
    None
}

fn prop_or_default(data: &[u8], key: &[u8]) -> (value: Vec<u8>)
    ensures
        value@ == prop_or_empty(data@, key@),
{
    match prop_value(data, key) {
        Some(value) => value,
        None => Vec::new(),
    }
}

/// Reads what a package declares. Fails with `InvalidPackage` exactly where
/// the package declares no module.
pub fn read_package(package: &Package, priority: i64) -> (r: Result<Module, ModuleError>)
    ensures
        match declared(package@, priority) {
            Some(model) => r matches Ok(module) && module@ == model,
            None => r matches Err(e) && e == ModuleError::InvalidPackage,
        },
{
    if !package.paths_safe() {
        return Err(ModuleError::InvalidPackage);
    }
    let at = match package.find_entry("module.prop".as_bytes()) {
        None => {
            return Err(ModuleError::InvalidPackage);
        },
        Some(at) => at,
    };
    let data = package.entries[at].data.as_slice();
    assert(data@ == package@.entries[at as int].data);
    let id = match prop_value(data, "id".as_bytes()) {
        None => {
            return Err(ModuleError::InvalidPackage);
        },
        Some(id) => id,
    };
    if !check_id(id.as_slice()) {
        return Err(ModuleError::InvalidPackage);
    }
    let metadata = Metadata {
        name: prop_or_default(data, "name".as_bytes()),
        version: prop_or_default(data, "version".as_bytes()),
        author: prop_or_default(data, "author".as_bytes()),
        description: prop_or_default(data, "description".as_bytes()),
    };
    let action = match package.find_entry("action.sh".as_bytes()) {
        None => None,
        Some(_) => {
            let dir = module_dir(id.as_slice());
            Some(append(dir.as_slice(), "/action.sh".as_bytes()))
        },
    };
    let skip_mount = package.find_entry("skip_mount".as_bytes()).is_some();
    let files = package.provided_files();
    Ok(Module { id, metadata, state: ModuleState::Updating, priority, action, skip_mount, files })
}

/// Whether an install of the module `id` leaves it disabled: it was
/// disabled, states are preserved, and the package does not ask otherwise.
pub open spec fn resumes_disabled(
    ms: Seq<ModuleModel>,
    id: Seq<u8>,
    reset: bool,
    policy: UpdatePolicy,
) -> bool {
    registered(ms, id) && ms[position(ms, id)].state == ModuleState::Disabled && policy
        == UpdatePolicy::PreserveState && !reset
}

/// The registry after an install has ended: where the package was
/// unpacked, the module takes the state it was promised.
pub open spec fn concluded(ms: Seq<ModuleModel>, id: Seq<u8>, disabled: bool, unpacked: bool) -> Seq<
    ModuleModel,
> {
    if unpacked {
        restated(
            ms,
            id,
            if disabled {
                ModuleState::Disabled
            } else {
                ModuleState::Enabled
            },
        )
    } else {
        ms
    }
}

pub open spec fn conclusion(ms: Seq<ModuleModel>, id: Seq<u8>, unpacked: bool) -> Result<
    (),
    ModuleError,
> {
    if !unpacked {
        Err(ModuleError::IoError)
    } else if !registered(ms, id) {
        Err(ModuleError::NotFound)
    } else {
        Ok(())
    }
}

/// The registry after the module `m` of a package was installed.
pub open spec fn installed(
    ms: Seq<ModuleModel>,
    m: ModuleModel,
    reset: bool,
    policy: UpdatePolicy,
) -> Seq<ModuleModel> {
    concluded(placed(ms, m), m.id, resumes_disabled(ms, m.id, reset, policy), true)
}

impl Registry {
    /// Begins an install. A package that declares no module is refused as
    /// `InvalidPackage` and nothing changes. Otherwise the declared module
    /// takes its place in the registry, instead of any module of the same
    /// id, in state `Updating`; the ticket says where to unpack the package
    /// and which state the module is to have in the end.
    pub fn begin_install(&mut self, package: &Package, options: InstallOptions) -> (r: Result<
        InstallTicket,
        ModuleError,
    >)
        requires
            old(self).wf(),
        ensures
            final(self).wf(),
            match declared(package@, options.priority) {
                None => r matches Err(e) && e == ModuleError::InvalidPackage && final(self)@ == old(
                    self,
                )@,
                Some(m) => r matches Ok(ticket) && ticket.id@ == m.id && ticket.dir@ == dir_of(m.id)
                    && ticket.disabled == resumes_disabled(
                    old(self)@,
                    m.id,
                    package@.reset_state,
                    options.on_update,
                ) && final(self)@ == placed(old(self)@, m),
            },
    {
        let module = match read_package(package, options.priority) {
            Err(e) => {
                return Err(e);
            },
            Ok(module) => module,
        };
        let was_disabled = match self.find(module.id.as_slice()) {
            None => false,
            Some(i) => {
                proof {
                    lemma_position(self@, module@.id, i as int);
                }
                self.modules[i].state == ModuleState::Disabled
            },
        };
        let disabled = was_disabled && options.on_update == UpdatePolicy::PreserveState
            && !package.reset_state;
        let id = copy_range(module.id.as_slice(), 0, module.id.len());
        assert(id@ =~= module@.id);
        let dir = module_dir(id.as_slice());
        self.put(module);
        Ok(InstallTicket { id, dir, disabled })
    }

    /// Ends an install. `unpacked` says whether the package was unpacked
    /// into the ticket's directory. If it was not, the install fails with
    /// `IoError` and the module stays as it is, in state `Updating`. If it
    /// was, the module takes the state that the ticket promised.
    pub fn finish_install(&mut self, ticket: &InstallTicket, unpacked: bool) -> (r: Result<
        (),
        ModuleError,
    >)
        requires
            old(self).wf(),
        ensures
            final(self).wf(),
            final(self)@ == concluded(old(self)@, ticket.id@, ticket.disabled, unpacked),
            r == conclusion(old(self)@, ticket.id@, unpacked),
    {
        if !unpacked {
            return Err(ModuleError::IoError);
        }
        let state = if ticket.disabled {
            ModuleState::Disabled
        } else {
            ModuleState::Enabled
        };
        match self.find(ticket.id.as_slice()) {
            None => Err(ModuleError::NotFound),
            Some(i) => {
                proof {
                    lemma_position(self@, ticket.id@, i as int);
                    lemma_restated(self@, ticket.id@, state);
                }
                self.set_state_at(i, state);
                Ok(())
            },
        }
    }

    /// Installs a package that the caller unpacks on its own account: the
    /// two steps of an install in one.
    pub fn install(&mut self, package: &Package, options: InstallOptions) -> (r: Result<
        (),
        ModuleError,
    >)
        requires
            old(self).wf(),
        ensures
            final(self).wf(),
            match declared(package@, options.priority) {
                None => r == Err::<(), ModuleError>(ModuleError::InvalidPackage) && final(self)@
                    == old(self)@,
                Some(m) => r == Ok::<(), ModuleError>(()) && final(self)@ == installed(
                    old(self)@,
                    m,
                    package@.reset_state,
                    options.on_update,
                ),
            },
    {
        match self.begin_install(package, options) {
            Err(e) => Err(e),
            Ok(ticket) => {
                proof {
                    lemma_placed(old(self)@, declared(package@, options.priority).unwrap());
                }
                self.finish_install(&ticket, true)
            },
        }
    }
}

/// After a package that declares a module is installed, the registry
/// holds a module of the declared id, and holds it enabled, unless the
/// install preserved a disabled state.
pub proof fn law_install_registers_enabled(
    ms: Seq<ModuleModel>,
    package: PackageModel,
    options: InstallOptions,
)
    requires
        well_formed(ms),
        declared(package, options.priority) is Some,
    ensures
        ({
            let m = declared(package, options.priority).unwrap();
            let after = installed(ms, m, package.reset_state, options.on_update);
            &&& well_formed(after)
            &&& registered(after, m.id)
            &&& after[position(after, m.id)].id == m.id
            &&& after[position(after, m.id)].metadata == m.metadata
            &&& after[position(after, m.id)].state == if resumes_disabled(
                ms,
                m.id,
                package.reset_state,
                options.on_update,
            ) {
                ModuleState::Disabled
            } else {
                ModuleState::Enabled
            }
        }),
{
    let m = declared(package, options.priority).unwrap();
    lemma_placed(ms, m);
    let state = if resumes_disabled(ms, m.id, package.reset_state, options.on_update) {
        ModuleState::Disabled
    } else {
        ModuleState::Enabled
    };
    lemma_restated(placed(ms, m), m.id, state);
}

} // verus!
