//! Modules served from git: where a module lies in a repository, and the
//! table of the modules that a catalog repository offers.

use crate::catalog::{
    uid_of, version_opt_view, DescriptorView, ModuleDescriptor, Version, VersionView,
};
use crate::strings::{str_eq, str_to_string};
use vstd::prelude::*;
use vstd::string::StringSliceAdditionalSpecFns;

verus! {

/// Mathematical value of the place of a module in a git repository.
pub struct GitLocationView {
    pub git_url: Option<Seq<char>>,
    pub git_branch: Option<Seq<char>>,
    pub git_subdir: Option<Seq<char>>,
    pub git_main_file: Option<Seq<char>>,
}

/// Where a module lies in git: the address of the repository, the branch,
/// the directory within the repository that is the module, and the file
/// within that directory that is the module. Each may be left out.
#[derive(Debug)]
pub struct ModuleGitLocation {
    pub git_url: Option<String>,
    pub git_branch: Option<String>,
    pub git_subdir: Option<String>,
    pub git_main_file: Option<String>,
}

/// The view of a text that may be absent.
pub open spec fn string_opt_view(s: Option<String>) -> Option<Seq<char>> {
    match s {
        Some(s) => Some(s@),
        None => None,
    }
}

impl View for ModuleGitLocation {
    type V = GitLocationView;

    open spec fn view(&self) -> GitLocationView {
        GitLocationView {
            git_url: string_opt_view(self.git_url),
            git_branch: string_opt_view(self.git_branch),
            git_subdir: string_opt_view(self.git_subdir),
            git_main_file: string_opt_view(self.git_main_file),
        }
    }
}

fn clone_opt(s: &Option<String>) -> (r: Option<String>)
    ensures
        string_opt_view(r) == string_opt_view(*s),
{
    match s {
        Some(s) => Some(s.clone()),
        None => None,
    }
}

impl Clone for ModuleGitLocation {
    fn clone(&self) -> (r: Self)
        ensures
            r@ == self@,
    {
        ModuleGitLocation {
            git_url: clone_opt(&self.git_url),
            git_branch: clone_opt(&self.git_branch),
            git_subdir: clone_opt(&self.git_subdir),
            git_main_file: clone_opt(&self.git_main_file),
        }
    }
}

impl Default for ModuleGitLocation {
    fn default() -> (r: Self)
        ensures
            r@ == (GitLocationView {
                git_url: None,
                git_branch: None,
                git_subdir: None,
                git_main_file: None,
            }),
    {
        ModuleGitLocation { git_url: None, git_branch: None, git_subdir: None, git_main_file: None }
    }
}

/// The text of a part of a location: the text itself, or nothing where the
/// part is left out.
pub open spec fn plain_part(s: Option<Seq<char>>) -> Seq<char> {
    match s {
        Some(s) => s,
        None => Seq::empty(),
    }
}

/// The identity of a location: its four parts, as they are written, joined
/// by `-`.
pub open spec fn identity(l: GitLocationView) -> Seq<char> {
    plain_part(l.git_url) + "-"@ + plain_part(l.git_branch) + "-"@ + plain_part(l.git_subdir) + "-"@
        + plain_part(l.git_main_file)
}

impl ModuleGitLocation {
    /// The location of the repository at the given address, with nothing
    /// else said.
    pub fn new(url: String) -> (r: Self)
        ensures
            r@ == (GitLocationView {
                git_url: Some(url@),
                git_branch: None,
                git_subdir: None,
                git_main_file: None,
            }),
    {
        let mut r = ModuleGitLocation::default();
        r.git_url = Some(url);
        r
    }

    /// The address of the repository.
    pub fn get_url(&self) -> (r: Option<&str>)
        ensures
            match r {
                Some(s) => self@.git_url == Some(s@),
                None => self@.git_url is None,
            },
    {
        match &self.git_url {
            Some(s) => Some(s.as_str()),
            None => None,
        }
    }

    /// The identity of the location as text.
    pub fn identity_string(&self) -> (r: String)
        ensures
            r@ == identity(self@),
    {
        let mut out = String::new();
        match &self.git_url {
            Some(s) => {
                out.append(s.as_str());
            },
            None => {},
        }
        out.append("-");
        match &self.git_branch {
            Some(s) => {
                out.append(s.as_str());
            },
            None => {},
        }
        out.append("-");
        match &self.git_subdir {
            Some(s) => {
                out.append(s.as_str());
            },
            None => {},
        }
        out.append("-");
        match &self.git_main_file {
            Some(s) => {
                out.append(s.as_str());
            },
            None => {},
        }
        assert(out@ =~= identity(self@));
        out
    }

    /// The identity number of the location: that of the bytes of its
    /// identity, in the format 0.
    pub fn uid(&self) -> (r: u64)
        ensures
            r == location_uid(self@),
    {
        let text = self.identity_string();
        ModuleDescriptor::uid_from_ident_bytes_and_fmt_id(text.as_str().as_bytes(), 0)
    }
}

/// What is done for a module that is asked for by its place in git: it is
/// entered in the catalog of such modules where the place names a
/// repository and there is such a catalog; without the catalog that is an
/// error; without a repository nothing is done.
pub open spec fn explicit_plan(l: GitLocationView, mod_name: Seq<char>, has_catalog: bool) -> Result<
    bool,
    Seq<char>,
> {
    if l.git_url is None {
        Ok(false)
    } else if has_catalog {
        Ok(true)
    } else {
        Err(
            "Unable to pull module \""@ + mod_name
                + "\" from git; no local \"caches\" directory available"@,
        )
    }
}

impl ModuleGitLocation {
    /// Decides what is done for a module that is asked for by this place:
    /// whether it is to be entered in the catalog of such modules and
    /// loaded through it.
    pub fn get_loader_in_explicit_catalog(&self, mod_name: &str, has_catalog: bool) -> (r: Result<
        bool,
        String,
    >)
        ensures
            match r {
                Ok(b) => explicit_plan(self@, mod_name@, has_catalog) == Ok::<bool, Seq<char>>(b),
                Err(e) => explicit_plan(self@, mod_name@, has_catalog) == Err::<bool, Seq<char>>(
                    e@,
                ),
            },
    {
        if self.get_url().is_none() {
            Ok(false)
        } else if has_catalog {
            Ok(true)
        } else {
            let mut message = str_to_string("Unable to pull module \"");
            message.append(mod_name);
            message.append("\" from git; no local \"caches\" directory available");
            Err(message)
        }
    }
}

/// The identity number of a location.
pub open spec fn location_uid(l: GitLocationView) -> u64 {
    uid_of(vstd::utf8::encode_utf8(identity(l)), 0)
}

/// How a copy of a repository is brought up to date.
#[derive(Clone, Copy, Debug, PartialEq, Eq, Structural)]
pub enum UpdateMode {
    /// Clone the repository where there is no copy, and leave a copy alone.
    PullIfMissing,
    /// Pull the latest, and go on with the copy where that fails.
    TryPullLatest,
    /// Pull the latest where the copy is older than this many seconds.
    TryPullIfOlderThan(u64),
}

/// How a module from git is made ready: in which directory, and how its
/// copy is brought up to date.
pub open spec fn prepare_spec(local_dir: Option<Seq<char>>, should_refresh: bool) -> Result<
    (Seq<char>, UpdateMode),
    Seq<char>,
> {
    match local_dir {
        Some(dir) => Ok(
            (
                dir,
                if should_refresh {
                    UpdateMode::TryPullLatest
                } else {
                    UpdateMode::PullIfMissing
                },
            ),
        ),
        None => Err("GitCatalog: Cannot prepare git-based module without local cache directory"@),
    }
}

/// Decides how a module from git is made ready. It needs a directory for
/// its copy; a refresh pulls the latest, otherwise a copy that is there is
/// left alone.
pub fn prepare_plan(local_dir: Option<&str>, should_refresh: bool) -> (r: Result<
    (String, UpdateMode),
    String,
>)
    ensures
        match r {
            Ok((dir, mode)) => prepare_spec(crate::catalog::text_opt_view(local_dir), should_refresh)
                == Ok::<(Seq<char>, UpdateMode), Seq<char>>((dir@, mode)),
            Err(e) => prepare_spec(crate::catalog::text_opt_view(local_dir), should_refresh)
                == Err::<(Seq<char>, UpdateMode), Seq<char>>(e@),
        },
{
    let mode = if should_refresh {
        UpdateMode::TryPullLatest
    } else {
        UpdateMode::PullIfMissing
    };
    match local_dir {
        Some(dir) => Ok((str_to_string(dir), mode)),
        None => Err(
            str_to_string(
                "GitCatalog: Cannot prepare git-based module without local cache directory",
            ),
        ),
    }
}

/// Mathematical value of an entry of a catalog file.
pub struct CatalogModView {
    pub name: Seq<char>,
    pub version: Option<VersionView>,
    pub git_location: GitLocationView,
}

/// One module in a catalog file.
#[derive(Debug)]
pub struct CatalogFileMod {
    pub name: String,
    pub version: Option<Version>,
    pub git_location: ModuleGitLocation,
}

impl View for CatalogFileMod {
    type V = CatalogModView;

    open spec fn view(&self) -> CatalogModView {
        CatalogModView {
            name: self.name@,
            version: version_opt_view(self.version),
            git_location: self.git_location@,
        }
    }
}

impl Clone for CatalogFileMod {
    fn clone(&self) -> (r: Self)
        ensures
            r@ == self@,
    {
        let version = match &self.version {
            Some(v) => Some(v.clone()),
            None => None,
        };
        CatalogFileMod {
            name: self.name.clone(),
            version,
            git_location: self.git_location.clone(),
        }
    }
}

/// The descriptor of an entry of a catalog file.
pub open spec fn mod_descriptor(m: CatalogModView) -> DescriptorView {
    DescriptorView { name: m.name, version: m.version, uid: Some(location_uid(m.git_location)) }
}

impl CatalogFileMod {
    pub fn new(name: String, version: Option<Version>, git_location: ModuleGitLocation) -> (r: Self)
        ensures
            r@ == (CatalogModView {
                name: name@,
                version: version_opt_view(version),
                git_location: git_location@,
            }),
    {
        CatalogFileMod { name, version, git_location }
    }

    /// The descriptor by which the module is known.
    pub fn descriptor(&self) -> (r: ModuleDescriptor)
        ensures
            r@ == mod_descriptor(self@),
    {
        let version = match &self.version {
            Some(v) => Some(v.clone()),
            None => None,
        };
        ModuleDescriptor::new(self.name.clone(), version, Some(self.git_location.uid()))
    }
}

/// Views of the entries of a catalog file.
pub open spec fn mods_view(s: Seq<CatalogFileMod>) -> Seq<CatalogModView> {
    Seq::new(s.len(), |i: int| s[i]@)
}

/// Views of a sequence of descriptors.
pub open spec fn descriptors_view(s: Seq<ModuleDescriptor>) -> Seq<DescriptorView> {
    Seq::new(s.len(), |i: int| s[i]@)
}

/// The descriptors of the entries from position `i` on that have the name.
pub open spec fn mods_with_name_from(mods: Seq<CatalogModView>, name: Seq<char>, i: int) -> Seq<
    DescriptorView,
>
    decreases mods.len() - i,
{
    if i < 0 || i >= mods.len() {
        Seq::empty()
    } else if mods[i].name == name {
        seq![mod_descriptor(mods[i])] + mods_with_name_from(mods, name, i + 1)
    } else {
        mods_with_name_from(mods, name, i + 1)
    }
}

/// The position of the first entry at or after `i` that has the descriptor.
pub open spec fn mod_index_from(mods: Seq<CatalogModView>, d: DescriptorView, i: int) -> Option<
    int,
>
    decreases mods.len() - i,
{
    if i < 0 || i >= mods.len() {
        None
    } else if mod_descriptor(mods[i]) == d {
        Some(i)
    } else {
        mod_index_from(mods, d, i + 1)
    }
}

/// The table of modules of a catalog: what the file `catalog.json` of a
/// catalog repository holds.
#[derive(Debug)]
pub struct CatalogFileFormat {
    pub modules: Vec<CatalogFileMod>,
}

impl View for CatalogFileFormat {
    type V = Seq<CatalogModView>;

    open spec fn view(&self) -> Seq<CatalogModView> {
        mods_view(self.modules@)
    }
}

impl Default for CatalogFileFormat {
    fn default() -> (r: Self)
        ensures
            r@ == Seq::<CatalogModView>::empty(),
    {
        let r = CatalogFileFormat { modules: Vec::new() };
        assert(r@ =~= Seq::<CatalogModView>::empty());
        r
    }
}

impl CatalogFileFormat {
    /// The descriptors of all modules of the given name, in the order of
    /// the table.
    pub fn find_mods_with_name(&self, name: &str) -> (r: Vec<ModuleDescriptor>)
        ensures
            descriptors_view(r@) == mods_with_name_from(self@, name@, 0),
    {
        let mut results: Vec<ModuleDescriptor> = Vec::new();
        let mut i: usize = 0;
        assert(descriptors_view(results@) =~= Seq::empty());
        while i < self.modules.len()
            invariant
                0 <= i <= self.modules.len(),
                descriptors_view(results@) + mods_with_name_from(self@, name@, i as int)
                    == mods_with_name_from(self@, name@, 0),
            decreases self.modules.len() - i,
        {
            let ghost before = descriptors_view(results@);
            assert(self@[i as int] == self.modules@[i as int]@);
            if str_eq(self.modules[i].name.as_str(), name) {
                let d = self.modules[i].descriptor();
                results.push(d);
                assert(descriptors_view(results@) =~= before.push(d@));
            }
            assert(descriptors_view(results@) + mods_with_name_from(self@, name@, i + 1) =~= before
                + mods_with_name_from(self@, name@, i as int));
            i += 1;
        }
        assert(descriptors_view(results@) + Seq::<DescriptorView>::empty() =~= descriptors_view(
            results@,
        ));
        results
    }

    /// The position of the first module that has the descriptor.
    pub fn find_mod_idx_with_descriptor(&self, descriptor: &ModuleDescriptor) -> (r: Option<usize>)
        ensures
            match r {
                Some(k) => mod_index_from(self@, descriptor@, 0) == Some(k as int) && k
                    < self@.len(),
                None => mod_index_from(self@, descriptor@, 0) is None,
            },
    {
        let mut i: usize = 0;
        while i < self.modules.len()
            invariant
                0 <= i <= self.modules.len(),
                mod_index_from(self@, descriptor@, i as int) == mod_index_from(
                    self@,
                    descriptor@,
                    0,
                ),
            decreases self.modules.len() - i,
        {
            assert(self@[i as int] == self.modules@[i as int]@);
            let d = self.modules[i].descriptor();
            if d == *descriptor {
                return Some(i);
            }
            i += 1;
        }
        None
    }

    /// Adds a module to the table unless one with the same descriptor is
    /// there, and gives its descriptor.
    pub fn add(&mut self, new_mod: CatalogFileMod) -> (r: Result<ModuleDescriptor, String>)
        ensures
            r matches Ok(d) && d@ == mod_descriptor(new_mod@),
            final(self)@ == if mod_index_from(old(self)@, mod_descriptor(new_mod@), 0) is None {
                old(self)@.push(new_mod@)
            } else {
                old(self)@
            },
    {
        let descriptor = new_mod.descriptor();
        if self.find_mod_idx_with_descriptor(&descriptor).is_none() {
            self.modules.push(new_mod);
            assert(self@ =~= old(self)@.push(new_mod@));
        }
        Ok(descriptor)
    }
}

/// What a lookup in a git catalog does after the copy of the catalog
/// repository was brought up to date.
#[derive(Clone, Copy, Debug, PartialEq, Eq, Structural)]
pub enum LookupStep {
    /// The update failed: the lookup answers that it knows no module.
    Answer,
    /// The file of the table has to be read before the table is searched.
    ReadFile,
    /// The table that was read before is searched.
    Find,
}

/// A catalog of modules kept in git: its name, the seconds after which its
/// table is fetched anew, and the table as far as it has been read.
#[derive(Debug)]
pub struct GitCatalog {
    name: String,
    refresh_time: u64,
    catalog: Option<CatalogFileFormat>,
}

/// The view of a table that may not have been read yet.
pub open spec fn catalog_opt_view(c: Option<CatalogFileFormat>) -> Option<Seq<CatalogModView>> {
    match c {
        Some(c) => Some(c@),
        None => None,
    }
}

impl GitCatalog {
    /// The name of the catalog.
    pub closed spec fn name_spec(&self) -> Seq<char> {
        self.name@
    }

    /// The seconds after which the table is fetched anew.
    pub closed spec fn refresh_spec(&self) -> u64 {
        self.refresh_time
    }

    /// The table, where it has been read.
    pub closed spec fn table(&self) -> Option<Seq<CatalogModView>> {
        catalog_opt_view(self.catalog)
    }

    /// A catalog whose table is fetched from a repository every
    /// `refresh_time` seconds. The table is not read yet.
    pub fn new(name: &str, refresh_time: u64) -> (r: Self)
        ensures
            r.name_spec() == name@,
            r.refresh_spec() == refresh_time,
            r.table() is None,
    {
        GitCatalog { name: str_to_string(name), refresh_time, catalog: None }
    }

    /// A catalog that is not kept in step with a repository.
    pub fn new_without_source_repo(name: &str) -> (r: Self)
        ensures
            r.name_spec() == name@,
            r.refresh_spec() == 0,
            r.table() is None,
    {
        GitCatalog { name: str_to_string(name), refresh_time: 0, catalog: None }
    }

    /// How the copy of the catalog repository is brought up to date before
    /// a lookup.
    pub fn update_mode(&self) -> (r: UpdateMode)
        ensures
            r == UpdateMode::TryPullIfOlderThan(self.refresh_spec()),
    {
        UpdateMode::TryPullIfOlderThan(self.refresh_time)
    }

    /// Whether the file of the table has to be read: after an update of
    /// the repository, and where the table has not been read yet.
    pub fn needs_reading(&self, did_update: bool) -> (r: bool)
        ensures
            r == (did_update || self.table() is None),
    {
        did_update || self.catalog.is_none()
    }

    /// What a lookup does after the update of the copy of the catalog
    /// repository: it gives up where the update failed, reads the file of
    /// the table where the repository changed or no table was read yet,
    /// and else searches the table that it has.
    pub fn after_update(&self, update: &Result<bool, String>) -> (r: LookupStep)
        ensures
            r == match update {
                Err(_) => LookupStep::Answer,
                Ok(d) => if *d || self.table() is None {
                    LookupStep::ReadFile
                } else {
                    LookupStep::Find
                },
            },
    {
        match update {
            Err(_) => LookupStep::Answer,
            Ok(did_update) => if self.needs_reading(*did_update) {
                LookupStep::ReadFile
            } else {
                LookupStep::Find
            },
        }
    }

    /// What a lookup answers after the file of the table was read: where
    /// it could not be read, no module, and the catalog stays as it was;
    /// else the catalog takes the table, and the answer is the modules of
    /// the name in it.
    pub fn after_read(&mut self, name: &str, read: Result<CatalogFileFormat, String>) -> (r: Vec<
        ModuleDescriptor,
    >)
        ensures
            final(self).name_spec() == old(self).name_spec(),
            final(self).refresh_spec() == old(self).refresh_spec(),
            match read {
                Err(_) => final(self).table() == old(self).table() && descriptors_view(r@)
                    == Seq::<DescriptorView>::empty(),
                Ok(t) => final(self).table() == Some(t@) && descriptors_view(r@)
                    == mods_with_name_from(t@, name@, 0),
            },
    {
        match read {
            Err(_) => {
                let none: Vec<ModuleDescriptor> = Vec::new();
                assert(descriptors_view(none@) =~= Seq::<DescriptorView>::empty());
                none
            },
            Ok(table) => {
                self.set_catalog(table);
                self.find_mods_with_name(name)
            },
        }
    }

    /// Takes the table that was read from the file.
    pub fn set_catalog(&mut self, catalog: CatalogFileFormat)
        ensures
            final(self).table() == Some(catalog@),
            final(self).name_spec() == old(self).name_spec(),
            final(self).refresh_spec() == old(self).refresh_spec(),
    {
        self.catalog = Some(catalog);
    }

    /// Enters a module at the given place, and gives the descriptor by
    /// which it is known. An empty table is made where none has been read.
    pub fn register_mod(
        &mut self,
        mod_name: &str,
        version: Option<&Version>,
        git_location: &ModuleGitLocation,
    ) -> (r: Result<ModuleDescriptor, String>)
        ensures
            final(self).name_spec() == old(self).name_spec(),
            final(self).refresh_spec() == old(self).refresh_spec(),
            ({
                let entry = CatalogModView {
                    name: mod_name@,
                    version: match version {
                        Some(v) => Some(v@),
                        None => None,
                    },
                    git_location: git_location@,
                };
                let before = match old(self).table() {
                    Some(t) => t,
                    None => Seq::empty(),
                };
                &&& r matches Ok(d) && d@ == mod_descriptor(entry)
                &&& final(self).table() == Some(
                    if mod_index_from(before, mod_descriptor(entry), 0) is None {
                        before.push(entry)
                    } else {
                        before
                    },
                )
            }),
    {
        let v = match version {
            Some(v) => Some(v.clone()),
            None => None,
        };
        let entry = CatalogFileMod::new(str_to_string(mod_name), v, git_location.clone());
        let mut table = match self.catalog.take() {
            Some(t) => t,
            None => CatalogFileFormat::default(),
        };
        let r = table.add(entry);
        self.catalog = Some(table);
        r
    }

    /// The descriptors of the modules of the given name in the table; none
    /// where the table has not been read.
    pub fn find_mods_with_name(&self, name: &str) -> (r: Vec<ModuleDescriptor>)
        ensures
            descriptors_view(r@) == match self.table() {
                Some(t) => mods_with_name_from(t, name@, 0),
                None => Seq::empty(),
            },
    {
        match &self.catalog {
            Some(c) => c.find_mods_with_name(name),
            None => {
                let r: Vec<ModuleDescriptor> = Vec::new();
                assert(descriptors_view(r@) =~= Seq::empty());
                r
            },
        }
    }

    /// The position in the table of the module that has the descriptor.
    pub fn find_mod_idx_with_descriptor(&self, descriptor: &ModuleDescriptor) -> (r: Option<usize>)
        ensures
            match self.table() {
                Some(t) => match r {
                    Some(k) => mod_index_from(t, descriptor@, 0) == Some(k as int),
                    None => mod_index_from(t, descriptor@, 0) is None,
                },
                None => r is None,
            },
    {
        match &self.catalog {
            Some(c) => c.find_mod_idx_with_descriptor(descriptor),
            None => None,
        }
    }

    /// The entry of the table for the descriptor, from which the module is
    /// loaded.
    pub fn get_module(&self, descriptor: &ModuleDescriptor) -> (r: Option<CatalogFileMod>)
        ensures
            match self.table() {
                Some(t) => match r {
                    Some(m) => mod_index_from(t, descriptor@, 0) matches Some(k) && m@ == t[k],
                    None => mod_index_from(t, descriptor@, 0) is None,
                },
                None => r is None,
            },
    {
        match &self.catalog {
            Some(c) => match c.find_mod_idx_with_descriptor(descriptor) {
                Some(k) => {
                    assert(c@[k as int] == c.modules@[k as int]@);
                    Some(c.modules[k].clone())
                },
                None => None,
            },
            None => None,
        }
    }
}

} // verus!
