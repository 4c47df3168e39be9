//! Profiles and templates: which policy an application runs under.
//!
//! A profile binds an application package to a policy domain and to a policy
//! statement, which it holds itself or takes from a template by name.
//! Templates are shared between profiles and nothing ties them to the
//! profiles that name them: a template may be deleted while profiles still
//! name it, and such a profile then falls back to the default domain with no
//! statement of its own.
use crate::bytes::{bytes_eq, copy_range, rows};
use vstd::prelude::*;
use vstd::string::StringSliceAdditionalSpecFns;

verus! {

/// The domain of a profile whose template is gone, and of a profile that is
/// made without one.
pub const DEFAULT_DOMAIN: &'static str = "u:r:su:s0";

#[derive(Clone, Copy, PartialEq, Eq, Structural, Debug)]
pub enum ProfileError {
    /// No profile of that package, or no template of that id.
    NotFound,
}

/// Where a profile has its policy statement from.
#[derive(Clone, Debug)]
pub enum PolicySource {
    Inline { statement: Vec<u8> },
    Template { id: Vec<u8> },
}

pub enum PolicySourceModel {
    Inline { statement: Seq<u8> },
    Template { id: Seq<u8> },
}

impl View for PolicySource {
    type V = PolicySourceModel;

    open spec fn view(&self) -> PolicySourceModel {
        match self {
            PolicySource::Inline { statement } => PolicySourceModel::Inline {
                statement: statement@,
            },
            PolicySource::Template { id } => PolicySourceModel::Template { id: id@ },
        }
    }
}

#[derive(Clone, Debug)]
pub struct Profile {
    pub package: Vec<u8>,
    pub domain: Vec<u8>,
    pub policy: PolicySource,
}

pub struct ProfileModel {
    pub package: Seq<u8>,
    pub domain: Seq<u8>,
    pub policy: PolicySourceModel,
}

impl View for Profile {
    type V = ProfileModel;

    open spec fn view(&self) -> ProfileModel {
        ProfileModel { package: self.package@, domain: self.domain@, policy: self.policy@ }
    }
}

#[derive(Clone, Debug)]
pub struct Template {
    pub id: Vec<u8>,
    pub statement: Vec<u8>,
}

pub struct TemplateModel {
    pub id: Seq<u8>,
    pub statement: Seq<u8>,
}

impl View for Template {
    type V = TemplateModel;

    open spec fn view(&self) -> TemplateModel {
        TemplateModel { id: self.id@, statement: self.statement@ }
    }
}

/// The profiles and templates as they are at the time of a query.
#[derive(Debug)]
pub struct ProfileStore {
    pub profiles: Vec<Profile>,
    pub templates: Vec<Template>,
}

pub struct StoreModel {
    pub profiles: Seq<ProfileModel>,
    pub templates: Seq<TemplateModel>,
}

impl View for ProfileStore {
    type V = StoreModel;

    open spec fn view(&self) -> StoreModel {
        StoreModel {
            profiles: self.profiles@.map_values(|p: Profile| p@),
            templates: self.templates@.map_values(|t: Template| t@),
        }
    }
}

pub open spec fn packages(profiles: Seq<ProfileModel>) -> Seq<Seq<u8>> {
    profiles.map_values(|p: ProfileModel| p.package)
}

pub open spec fn template_ids(templates: Seq<TemplateModel>) -> Seq<Seq<u8>> {
    templates.map_values(|t: TemplateModel| t.id)
}

/// The statement of the template `id`.
pub open spec fn template_in(templates: Seq<TemplateModel>, id: Seq<u8>) -> Option<Seq<u8>> {
    match template_ids(templates).index_of_first(id) {
        Some(i) => Some(templates[i].statement),
        None => None,
    }
}

/// The profile of the package.
pub open spec fn profile_in(profiles: Seq<ProfileModel>, package: Seq<u8>) -> Option<ProfileModel> {
    match packages(profiles).index_of_first(package) {
        Some(i) => Some(profiles[i]),
        None => None,
    }
}

/// Whether the profile names a template that is not there.
pub open spec fn dangles(profile: ProfileModel, templates: Seq<TemplateModel>) -> bool {
    profile.policy matches PolicySourceModel::Template { id } && template_in(templates, id) is None
}

/// The statement that a profile stands for: its own, or that of the
/// template it names; none where that template is gone.
pub open spec fn statement_of(profile: ProfileModel, templates: Seq<TemplateModel>) -> Seq<u8> {
    match profile.policy {
        PolicySourceModel::Inline { statement } => statement,
        PolicySourceModel::Template { id } => match template_in(templates, id) {
            Some(statement) => statement,
            None => Seq::empty(),
        },
    }
}

/// The domain that a profile stands for: its own, or the default where
/// the template it names is gone.
pub open spec fn domain_of(profile: ProfileModel, templates: Seq<TemplateModel>) -> Seq<u8> {
    if dangles(profile, templates) {
        DEFAULT_DOMAIN.spec_bytes()
    } else {
        profile.domain
    }
}

/// The templates with `id` bound to `statement`: in the place of the
/// template that had the id, or at the end.
pub open spec fn with_template(
    templates: Seq<TemplateModel>,
    id: Seq<u8>,
    statement: Seq<u8>,
) -> Seq<TemplateModel> {
    match template_ids(templates).index_of_first(id) {
        Some(i) => templates.update(i, TemplateModel { id, statement }),
        None => templates.push(TemplateModel { id, statement }),
    }
}

/// The templates without the template `id`.
pub open spec fn without_template(templates: Seq<TemplateModel>, id: Seq<u8>) -> Seq<
    TemplateModel,
> {
    match template_ids(templates).index_of_first(id) {
        Some(i) => templates.remove(i),
        None => templates,
    }
}

/// The profiles with the package bound to a statement of its own: its
/// profile keeps its domain, and a package without profile gets one in the
/// default domain, at the end.
pub open spec fn with_sepolicy(
    profiles: Seq<ProfileModel>,
    package: Seq<u8>,
    statement: Seq<u8>,
) -> Seq<ProfileModel> {
    match packages(profiles).index_of_first(package) {
        Some(i) => profiles.update(
            i,
            ProfileModel {
                package,
                domain: profiles[i].domain,
                policy: PolicySourceModel::Inline { statement },
            },
        ),
        None => profiles.push(
            ProfileModel {
                package,
                domain: DEFAULT_DOMAIN.spec_bytes(),
                policy: PolicySourceModel::Inline { statement },
            },
        ),
    }
}

/// The first place of a key is the place before which it does not occur.
pub proof fn lemma_first_place(keys: Seq<Seq<u8>>, key: Seq<u8>, i: int)
    requires
        0 <= i < keys.len(),
        keys[i] == key,
        forall|j: int| 0 <= j < i ==> keys[j] != key,
    ensures
        keys.index_of_first(key) == Some(i),
{
    keys.index_of_first_ensures(key);
    assert(keys.contains(key));
    let found = keys.index_of_first(key).unwrap();
    if found < i {
        assert(keys[found] != key);
    }
}

fn copy(text: &Vec<u8>) -> (out: Vec<u8>)
    ensures
        out@ == text@,
{
    let out = copy_range(text.as_slice(), 0, text.len());
    assert(out@ =~= text@);
    out
}

impl ProfileStore {
    /// No package has two profiles and no id two templates.
    pub open spec fn wf(&self) -> bool {
        packages(self@.profiles).no_duplicates() && template_ids(self@.templates).no_duplicates()
    }

    pub fn new() -> (store: ProfileStore)
        ensures
            store@.profiles == Seq::<ProfileModel>::empty(),
            store@.templates == Seq::<TemplateModel>::empty(),
            store.wf(),
    {
        let store = ProfileStore { profiles: Vec::new(), templates: Vec::new() };
        assert(store@.profiles =~= Seq::<ProfileModel>::empty());
        assert(store@.templates =~= Seq::<TemplateModel>::empty());
        store
    }

    /// The place of the template `id`.
    pub fn find_template(&self, id: &[u8]) -> (place: Option<usize>)
        ensures
            match place {
                Some(i) => i < self@.templates.len() && template_ids(
                    self@.templates,
                ).index_of_first(id@) == Some(i as int),
                None => template_ids(self@.templates).index_of_first(id@) is None,
            },
    {
        let ghost keys = template_ids(self@.templates);
        let mut i: usize = 0;
        while i < self.templates.len()
            invariant
                i <= self.templates@.len(),
                keys == template_ids(self@.templates),
                forall|j: int| 0 <= j < i ==> keys[j] != id@,
            decreases self.templates.len() - i,
        {
            if bytes_eq(self.templates[i].id.as_slice(), id) {
                proof {
                    lemma_first_place(keys, id@, i as int);
                }
                return Some(i);
            }
            i += 1;
        }
        proof {
            keys.index_of_first_ensures(id@);
        }
        None
    }

    /// The place of the profile of the package.
    pub fn find_profile(&self, package: &[u8]) -> (place: Option<usize>)
        ensures
            match place {
                Some(i) => i < self@.profiles.len() && packages(self@.profiles).index_of_first(
                    package@,
                ) == Some(i as int),
                None => packages(self@.profiles).index_of_first(package@) is None,
            },
    {
        let ghost keys = packages(self@.profiles);
        let mut i: usize = 0;
        while i < self.profiles.len()
            invariant
                i <= self.profiles@.len(),
                keys == packages(self@.profiles),
                forall|j: int| 0 <= j < i ==> keys[j] != package@,
            decreases self.profiles.len() - i,
        {
            if bytes_eq(self.profiles[i].package.as_slice(), package) {
                proof {
                    lemma_first_place(keys, package@, i as int);
                }
                return Some(i);
            }
            i += 1;
        }
        proof {
            keys.index_of_first_ensures(package@);
        }
        None
    }

    /// The statement of the template `id`.
    pub fn get_template(&self, id: &[u8]) -> (r: Result<Vec<u8>, ProfileError>)
        ensures
            match template_in(self@.templates, id@) {
                Some(statement) => r matches Ok(found) && found@ == statement,
                None => r matches Err(e) && e == ProfileError::NotFound,
            },
    {
        match self.find_template(id) {
            None => Err(ProfileError::NotFound),
            Some(i) => Ok(copy(&self.templates[i].statement)),
        }
    }

    /// Binds the template `id` to a statement, whether or not it was there.
    pub fn set_template(&mut self, id: &[u8], statement: &[u8])
        ensures
            final(self)@.templates == with_template(old(self)@.templates, id@, statement@),
            final(self)@.profiles == old(self)@.profiles,
            old(self).wf() ==> final(self).wf(),
            template_in(final(self)@.templates, id@) == Some(statement@),
    {
        let key = copy_range(id, 0, id.len());
        let text = copy_range(statement, 0, statement.len());
        assert(key@ =~= id@ && text@ =~= statement@);
        let ghost before = self@.templates;
        let ghost keys = template_ids(before);
        let template = Template { id: key, statement: text };
        match self.find_template(id) {
            Some(i) => {
                self.templates.set(i, template);
                proof {
                    keys.index_of_first_ensures(id@);
                    assert(self@.templates =~= before.update(i as int, template@));
                    assert(template_ids(self@.templates) =~= keys);
                }
            },
            None => {
                self.templates.push(template);
                proof {
                    assert(self@.templates =~= before.push(template@));
                    let after = template_ids(self@.templates);
                    assert(after =~= keys.push(id@));
                    keys.index_of_first_ensures(id@);
                    assert forall|j: int| 0 <= j < keys.len() implies after[j] != id@ by {
                        assert(keys[j] == after[j]);
                        if keys[j] == id@ {
                            assert(keys.contains(id@));
                        }
                    }
                    lemma_first_place(after, id@, keys.len() as int);
                    if keys.no_duplicates() {
                        assert forall|a: int, b: int|
                            0 <= a < after.len() && 0 <= b < after.len() && a != b implies after[a]
                            != after[b] by {
                            if a < keys.len() && b < keys.len() {
                                assert(keys[a] != keys[b]);
                            }
                        }
                    }
                }
            },
        }
        assert(self@.profiles =~= old(self)@.profiles);
    }

    /// Deletes the template `id`. Profiles that name it are left as they
    /// are. Fails only where there is no such template.
    pub fn delete_template(&mut self, id: &[u8]) -> (r: Result<(), ProfileError>)
        ensures
            final(self)@.templates == without_template(old(self)@.templates, id@),
            final(self)@.profiles == old(self)@.profiles,
            old(self).wf() ==> final(self).wf(),
            r == if template_in(old(self)@.templates, id@) is Some {
                Ok::<(), ProfileError>(())
            } else {
                Err(ProfileError::NotFound)
            },
    {
        let ghost before = self@.templates;
        let ghost keys = template_ids(before);
        match self.find_template(id) {
            None => Err(ProfileError::NotFound),
            Some(i) => {
                let _ = self.templates.remove(i);
                proof {
                    assert(self@.templates =~= before.remove(i as int));
                    let after = template_ids(self@.templates);
                    assert(after =~= keys.remove(i as int));
                    if keys.no_duplicates() {
                        assert forall|a: int, b: int|
                            0 <= a < after.len() && 0 <= b < after.len() && a != b implies after[a]
                            != after[b] by {
                            let a0 = if a < i { a } else { a + 1 };
                            let b0 = if b < i { b } else { b + 1 };
                            assert(keys[a0] != keys[b0]);
                        }
                    }
                    assert(self@.profiles =~= old(self)@.profiles);
                }
                Ok(())
            },
        }
    }

    /// The ids of the templates, in order.
    pub fn list_templates(&self) -> (ids: Vec<Vec<u8>>)
        ensures
            rows(ids@) == template_ids(self@.templates),
    {
        let mut ids: Vec<Vec<u8>> = Vec::new();
        let mut i: usize = 0;
        while i < self.templates.len()
            invariant
                i <= self.templates@.len(),
                ids@.len() == i,
                forall|j: int| 0 <= j < i ==> (#[trigger] ids@[j])@ == self@.templates[j].id,
            decreases self.templates.len() - i,
        {
            ids.push(copy(&self.templates[i].id));
            i += 1;
        }
        assert(rows(ids@) =~= template_ids(self@.templates));
        ids
    }

    /// The statement that the profile of the package stands for.
    pub fn get_sepolicy(&self, package: &[u8]) -> (r: Result<Vec<u8>, ProfileError>)
        ensures
            match profile_in(self@.profiles, package@) {
                Some(profile) => r matches Ok(found) && found@ == statement_of(
                    profile,
                    self@.templates,
                ),
                None => r matches Err(e) && e == ProfileError::NotFound,
            },
    {
        match self.find_profile(package) {
            None => Err(ProfileError::NotFound),
            Some(i) => match &self.profiles[i].policy {
                PolicySource::Inline { statement } => Ok(copy(statement)),
                PolicySource::Template { id } => match self.get_template(id.as_slice()) {
                    Ok(statement) => Ok(statement),
                    Err(_) => Ok(Vec::new()),
                },
            },
        }
    }

    /// The domain that the profile of the package stands for.
    pub fn get_domain(&self, package: &[u8]) -> (r: Result<Vec<u8>, ProfileError>)
        ensures
            match profile_in(self@.profiles, package@) {
                Some(profile) => r matches Ok(found) && found@ == domain_of(profile, self@.templates),
                None => r matches Err(e) && e == ProfileError::NotFound,
            },
    {
        match self.find_profile(package) {
            None => Err(ProfileError::NotFound),
            Some(i) => {
                let profile = &self.profiles[i];
                let gone = match &profile.policy {
                    PolicySource::Inline { .. } => false,
                    PolicySource::Template { id } => self.find_template(id.as_slice()).is_none(),
                };
                if gone {
                    let fallback = DEFAULT_DOMAIN.as_bytes();
                    let out = copy_range(fallback, 0, fallback.len());
                    assert(out@ =~= DEFAULT_DOMAIN.spec_bytes());
                    Ok(out)
                } else {
                    Ok(copy(&profile.domain))
                }
            },
        }
    }

    /// Gives the package a statement of its own.
    pub fn set_sepolicy(&mut self, package: &[u8], statement: &[u8])
        ensures
            final(self)@.profiles == with_sepolicy(old(self)@.profiles, package@, statement@),
            final(self)@.templates == old(self)@.templates,
            old(self).wf() ==> final(self).wf(),
    {
        let name = copy_range(package, 0, package.len());
        let text = copy_range(statement, 0, statement.len());
        assert(name@ =~= package@ && text@ =~= statement@);
        let ghost before = self@.profiles;
        let ghost keys = packages(before);
        match self.find_profile(package) {
            Some(i) => {
                let domain = copy(&self.profiles[i].domain);
                let profile = Profile {
                    package: name,
                    domain,
                    policy: PolicySource::Inline { statement: text },
                };
                self.profiles.set(i, profile);
                proof {
                    keys.index_of_first_ensures(package@);
                    assert(self@.profiles =~= with_sepolicy(before, package@, statement@));
                    assert(packages(self@.profiles) =~= keys);
                }
            },
            None => {
                let fallback = DEFAULT_DOMAIN.as_bytes();
                let domain = copy_range(fallback, 0, fallback.len());
                assert(domain@ =~= DEFAULT_DOMAIN.spec_bytes());
                let profile = Profile {
                    package: name,
                    domain,
                    policy: PolicySource::Inline { statement: text },
                };
                self.profiles.push(profile);
                proof {
                    assert(self@.profiles =~= with_sepolicy(before, package@, statement@));
                    let after = packages(self@.profiles);
                    assert(after =~= keys.push(package@));
                    keys.index_of_first_ensures(package@);
                    if keys.no_duplicates() {
                        assert forall|a: int, b: int|
                            0 <= a < after.len() && 0 <= b < after.len() && a != b implies after[a]
                            != after[b] by {
                            if a < keys.len() && b < keys.len() {
                                assert(keys[a] != keys[b]);
                            } else if a < keys.len() {
                                assert(keys[a] == after[a]);
                                if keys[a] == package@ {
                                    assert(keys.contains(package@));
                                }
                            } else {
                                assert(keys[b] == after[b]);
                                if keys[b] == package@ {
                                    assert(keys.contains(package@));
                                }
                            }
                        }
                    }
                }
            },
        }
        assert(self@.templates =~= old(self)@.templates);
    }
}

/// A template can be deleted whatever names it. Once it is gone, a
/// profile that names it stands for the default domain and for no
/// statement; every profile with a statement of its own stands for what it
/// stood for before.
pub proof fn law_deleted_template_falls_back(
    templates: Seq<TemplateModel>,
    id: Seq<u8>,
    profile: ProfileModel,
)
    requires
        template_ids(templates).no_duplicates(),
    ensures
        template_in(without_template(templates, id), id) is None,
        profile.policy == (PolicySourceModel::Template { id }) ==> domain_of(
            profile,
            without_template(templates, id),
        ) == DEFAULT_DOMAIN.spec_bytes() && statement_of(profile, without_template(templates, id))
            == Seq::<u8>::empty(),
        profile.policy is Inline ==> domain_of(profile, without_template(templates, id))
            == domain_of(profile, templates) && statement_of(
            profile,
            without_template(templates, id),
        ) == statement_of(profile, templates),
{
    let keys = template_ids(templates);
    let rest = without_template(templates, id);
    let left = template_ids(rest);
    keys.index_of_first_ensures(id);
    left.index_of_first_ensures(id);
    match keys.index_of_first(id) {
        Some(i) => {
            assert(left =~= keys.remove(i));
            if left.contains(id) {
                let k = choose|k: int| 0 <= k < left.len() && left[k] == id;
                let k0 = if k < i { k } else { k + 1 };
                assert(keys[k0] == id);
                assert(keys[i] == id);
            }
        },
        None => {},
    }
}

} // verus!
