//! A local catalog: a table of the modules kept in a directory on disk,
//! backed by catalogs upstream that are asked where the table has nothing.

use crate::catalog::{
    descriptor_result_view, dir_name, dir_name_from_descriptor, parse_descriptor_from_dir_name,
    parse_dir_name, DescriptorView, ModuleDescriptor,
};
use crate::git_catalog::descriptors_view;
use crate::strings::{str_eq, str_to_string};
use vstd::prelude::*;

verus! {

/// A catalog of modules: it is asked by name for the modules it knows.
pub trait ModuleCatalog {
    /// The descriptors of the modules of the given name.
    fn lookup(&self, name: &str) -> Vec<ModuleDescriptor>;

    /// The name and identity number of every module of the catalog, where
    /// the catalog can list them.
    fn list_name_uid_pairs(&self) -> Option<Vec<(String, Option<u64>)>>;

    /// The descriptor of the newest module of the given name and identity
    /// number.
    fn lookup_newest_with_uid(&self, name: &str, uid: Option<u64>) -> Option<ModuleDescriptor>;
}

/// Whether the catalog, asked for the newest module of the name and
/// identity number, may answer that there is none.
pub open spec fn newest_absent<C: ModuleCatalog + ?Sized>(
    catalog: &C,
    name: Seq<char>,
    uid: Option<u64>,
) -> bool {
    exists|n: &str|
        n@ == name && #[trigger] call_ensures(C::lookup_newest_with_uid, (catalog, n, uid), None)
}

/// Whether the catalog, asked for the newest module of the name and
/// identity number, may answer with a descriptor of which `then` holds.
pub open spec fn newest_found<C: ModuleCatalog + ?Sized>(
    catalog: &C,
    name: Seq<char>,
    uid: Option<u64>,
    then: spec_fn(ModuleDescriptor) -> bool,
) -> bool {
    exists|n: &str, d: ModuleDescriptor|
        n@ == name && #[trigger] call_ensures(C::lookup_newest_with_uid, (catalog, n, uid), Some(d))
            && then(d)
}

/// Whether `dealt` holds of each of the first `k` listed modules.
pub open spec fn dealt_upto(
    pairs: Seq<(String, Option<u64>)>,
    k: int,
    dealt: spec_fn(Seq<char>, Option<u64>) -> bool,
) -> bool {
    forall|j: int| 0 <= j < k && j < pairs.len() ==> dealt((#[trigger] pairs[j]).0@, pairs[j].1)
}

/// A catalog whose modules are managed explicitly, as a local mirror of
/// catalogs upstream.
pub trait ManagedCatalog: ModuleCatalog {
    /// Removes all modules that are kept locally.
    fn clear_all(&self) -> Result<(), String>;

    /// Fetches a module from upstream, unless it is already there.
    fn fetch(&self, descriptor: &ModuleDescriptor) -> Result<(), String>;

    /// Removes a module.
    fn remove(&self, descriptor: &ModuleDescriptor) -> Result<(), String>;

    /// Fetches the newest version of every module of the catalog. The
    /// modules are taken in the order in which the catalog lists them; for
    /// each, the catalog is asked for the newest module of that name and
    /// identity number, and what it answers is fetched. It succeeds where
    /// the catalog lists its modules and, for each of them, knows no
    /// newest module or fetches it without error. It fails where the
    /// catalog cannot list its modules, and with the error of the first
    /// fetch that fails, all modules before that one having been dealt
    /// with.
    fn fetch_newest_for_all(&self) -> (r: Result<(), String>)
        ensures
            match r {
                Ok(_) => exists|pairs: Vec<(String, Option<u64>)>|
                    #[trigger] call_ensures(Self::list_name_uid_pairs, (self,), Some(pairs))
                        && dealt_upto(
                        pairs@,
                        pairs@.len() as int,
                        |name: Seq<char>, uid: Option<u64>|
                            newest_absent(self, name, uid) || newest_found(
                                self,
                                name,
                                uid,
                                |d: ModuleDescriptor|
                                    call_ensures(Self::fetch, (self, &d), Ok::<(), String>(())),
                            ),
                    ),
                Err(m) => (m@ == "managed catalog must support `list` method"@ && call_ensures(
                    Self::list_name_uid_pairs,
                    (self,),
                    None,
                )) || exists|pairs: Vec<(String, Option<u64>)>, k: int|
                    #![trigger call_ensures(Self::list_name_uid_pairs, (self,), Some(pairs)), pairs@[k]]
                    call_ensures(Self::list_name_uid_pairs, (self,), Some(pairs)) && 0 <= k
                        < pairs@.len() && dealt_upto(
                        pairs@,
                        k,
                        |name: Seq<char>, uid: Option<u64>|
                            newest_absent(self, name, uid) || newest_found(
                                self,
                                name,
                                uid,
                                |d: ModuleDescriptor|
                                    call_ensures(Self::fetch, (self, &d), Ok::<(), String>(())),
                            ),
                    ) && newest_found(
                        self,
                        pairs@[k].0@,
                        pairs@[k].1,
                        |d: ModuleDescriptor|
                            call_ensures(Self::fetch, (self, &d), Err::<(), String>(m)),
                    ),
            },
    {
        let pairs = match self.list_name_uid_pairs() {
            Some(pairs) => pairs,
            None => {
                return Err(str_to_string("managed catalog must support `list` method"));
            },
        };
        let ghost fetched = |d: ModuleDescriptor|
            call_ensures(Self::fetch, (self, &d), Ok::<(), String>(()));
        let ghost dealt = |name: Seq<char>, uid: Option<u64>|
            newest_absent(self, name, uid) || newest_found(self, name, uid, fetched);
        let mut i: usize = 0;
        while i < pairs.len()
            invariant
                0 <= i <= pairs.len(),
                call_ensures(Self::list_name_uid_pairs, (self,), Some(pairs)),
                fetched == |d: ModuleDescriptor|
                    call_ensures(Self::fetch, (self, &d), Ok::<(), String>(())),
                dealt == |name: Seq<char>, uid: Option<u64>|
                    newest_absent(self, name, uid) || newest_found(self, name, uid, fetched),
                dealt_upto(pairs@, i as int, dealt),
            decreases pairs.len() - i,
        {
            let name = pairs[i].0.as_str();
            let uid = pairs[i].1;
            match self.lookup_newest_with_uid(name, uid) {
                Some(desc) => match self.fetch(&desc) {
                    Ok(done) => {
                        assert(fetched(desc));
                        assert(newest_found(self, pairs@[i as int].0@, pairs@[i as int].1, fetched));
                    },
                    Err(e) => {
                        let ghost failed = |d: ModuleDescriptor|
                            call_ensures(Self::fetch, (self, &d), Err::<(), String>(e));
                        assert(failed(desc));
                        assert(newest_found(self, pairs@[i as int].0@, pairs@[i as int].1, failed));
                        return Err(e);
                    },
                },
                None => {
                    assert(newest_absent(self, pairs@[i as int].0@, pairs@[i as int].1));
                },
            }
            assert(dealt(pairs@[i as int].0@, pairs@[i as int].1));
            i += 1;
        }
        Ok(())
    }
}

/// The descriptors from position `i` on that have the name.
pub open spec fn with_name_from(toc: Seq<DescriptorView>, name: Seq<char>, i: int) -> Seq<
    DescriptorView,
>
    decreases toc.len() - i,
{
    if i < 0 || i >= toc.len() {
        Seq::empty()
    } else if toc[i].name == name {
        seq![toc[i]] + with_name_from(toc, name, i + 1)
    } else {
        with_name_from(toc, name, i + 1)
    }
}

/// The table with the descriptor added, unless it is there already.
pub open spec fn toc_add(toc: Seq<DescriptorView>, d: DescriptorView) -> Seq<DescriptorView> {
    if toc.contains(d) {
        toc
    } else {
        toc.push(d)
    }
}

/// The table built from the names of directories from position `i` on,
/// after the table `toc`: each name is read as a descriptor and added. The
/// first name that is no descriptor ends it with its error.
pub open spec fn toc_from_names(toc: Seq<DescriptorView>, names: Seq<Seq<char>>, i: int) -> Result<
    Seq<DescriptorView>,
    Seq<char>,
>
    decreases names.len() - i,
{
    if i < 0 || i >= names.len() {
        Ok(toc)
    } else {
        match parse_dir_name(names[i]) {
            Err(e) => Err(e),
            Ok(d) => toc_from_names(toc_add(toc, d), names, i + 1),
        }
    }
}

/// Views of a sequence of texts.
pub open spec fn names_view(s: Seq<String>) -> Seq<Seq<char>> {
    Seq::new(s.len(), |i: int| s[i]@)
}

/// The table of contents of a local catalog: the descriptors of the
/// modules kept in its directory, each once, in the order in which they
/// were entered.
#[derive(Debug)]
pub struct LocalCatalogTOC {
    mods: Vec<ModuleDescriptor>,
}

impl View for LocalCatalogTOC {
    type V = Seq<DescriptorView>;

    closed spec fn view(&self) -> Seq<DescriptorView> {
        descriptors_view(self.mods@)
    }
}

impl LocalCatalogTOC {
    /// Whether no descriptor is in the table twice. Every table made by
    /// the functions below is so.
    pub open spec fn wf(&self) -> bool {
        self@.no_duplicates()
    }

    /// The empty table.
    pub fn new() -> (r: Self)
        ensures
            r@ == Seq::<DescriptorView>::empty(),
            r.wf(),
    {
        let mods: Vec<ModuleDescriptor> = Vec::new();
        assert(descriptors_view(mods@) =~= Seq::<DescriptorView>::empty());
        LocalCatalogTOC { mods }
    }

    /// The table of the modules whose directories have the given names.
    pub fn build_from_names(names: &Vec<String>) -> (r: Result<Self, String>)
        ensures
            match r {
                Ok(toc) => toc_from_names(Seq::empty(), names_view(names@), 0) == Ok::<
                    Seq<DescriptorView>,
                    Seq<char>,
                >(toc@),
                Err(e) => toc_from_names(Seq::empty(), names_view(names@), 0) == Err::<
                    Seq<DescriptorView>,
                    Seq<char>,
                >(e@),
            },
            r matches Ok(toc) ==> toc.wf(),
    {
        let mut toc = LocalCatalogTOC::new();
        let mut i: usize = 0;
        while i < names.len()
            invariant
                0 <= i <= names.len(),
                toc.wf(),
                toc_from_names(toc@, names_view(names@), i as int) == toc_from_names(
                    Seq::empty(),
                    names_view(names@),
                    0,
                ),
            decreases names.len() - i,
        {
            assert(names_view(names@)[i as int] == names@[i as int]@);
            match parse_descriptor_from_dir_name(names[i].as_str()) {
                Err(e) => {
                    return Err(e);
                },
                Ok(d) => {
                    let _ = toc.add_descriptor(d);
                },
            }
            i += 1;
        }
        Ok(toc)
    }

    /// Whether the descriptor is in the table.
    pub fn contains(&self, descriptor: &ModuleDescriptor) -> (r: bool)
        ensures
            r == self@.contains(descriptor@),
    {
        let mut i: usize = 0;
        while i < self.mods.len()
            invariant
                0 <= i <= self.mods.len(),
                forall|j: int| 0 <= j < i ==> self@[j] != descriptor@,
            decreases self.mods.len() - i,
        {
            assert(self@[i as int] == self.mods@[i as int]@);
            if self.mods[i] == *descriptor {
                return true;
            }
            i += 1;
        }
        false
    }

    /// The descriptors of the modules of the given name, where there are
    /// any.
    pub fn lookup_by_name(&self, name: &str) -> (r: Option<Vec<ModuleDescriptor>>)
        ensures
            match r {
                Some(v) => descriptors_view(v@) == with_name_from(self@, name@, 0) && v@.len() > 0,
                None => with_name_from(self@, name@, 0).len() == 0,
            },
    {
        let mut found: Vec<ModuleDescriptor> = Vec::new();
        let mut i: usize = 0;
        assert(descriptors_view(found@) =~= Seq::empty());
        while i < self.mods.len()
            invariant
                0 <= i <= self.mods.len(),
                descriptors_view(found@) + with_name_from(self@, name@, i as int) == with_name_from(
                    self@,
                    name@,
                    0,
                ),
            decreases self.mods.len() - i,
        {
            let ghost before = descriptors_view(found@);
            assert(self@[i as int] == self.mods@[i as int]@);
            if str_eq(self.mods[i].name(), name) {
                let d = self.mods[i].clone();
                found.push(d);
                assert(descriptors_view(found@) =~= before.push(d@));
            }
            assert(descriptors_view(found@) + with_name_from(self@, name@, i + 1) =~= before
                + with_name_from(self@, name@, i as int));
            i += 1;
        }
        assert(descriptors_view(found@) + Seq::<DescriptorView>::empty() =~= descriptors_view(
            found@,
        ));
        if found.len() > 0 {
            Some(found)
        } else {
            None
        }
    }

    /// Adds a descriptor to the table, unless it is there already.
    pub fn add_descriptor(&mut self, descriptor: ModuleDescriptor) -> (r: Result<(), String>)
        ensures
            r is Ok,
            final(self)@ == toc_add(old(self)@, descriptor@),
            old(self).wf() ==> final(self).wf(),
    {
        if !self.contains(&descriptor) {
            let ghost before = descriptors_view(self.mods@);
            self.mods.push(descriptor);
            assert(descriptors_view(self.mods@) =~= before.push(descriptor@));
        }
        Ok(())
    }
}

/// What a lookup does next: it is done with these descriptors, or it has
/// to ask the upstream catalog at this position.
#[derive(Debug)]
pub enum LookupAction {
    Done(Vec<ModuleDescriptor>),
    Ask(usize),
}

/// Mathematical value of the next action of a lookup.
pub enum LookupView {
    Done(Seq<DescriptorView>),
    Ask(int),
}

impl View for LookupAction {
    type V = LookupView;

    open spec fn view(&self) -> LookupView {
        match self {
            LookupAction::Done(v) => LookupView::Done(descriptors_view(v@)),
            LookupAction::Ask(k) => LookupView::Ask(*k as int),
        }
    }
}

/// What the search for the catalog upstream that supplies a module does
/// next.
#[derive(Clone, Copy, Debug, PartialEq, Eq, Structural)]
pub enum SupplierAction {
    /// The catalog upstream at this position supplies the module.
    Found(usize),
    /// The catalog upstream at this position is to be asked.
    Ask(usize),
    /// No catalog upstream is left to ask.
    NoneLeft,
}

/// How a module of a local catalog is loaded: from the upstream catalog at
/// the position `upstream`, into the directory `cache_dir_name` within the
/// directory `storage_dir`, with or without a refresh.
#[derive(Debug)]
pub struct LoaderPlan {
    pub storage_dir: String,
    pub cache_dir_name: String,
    pub upstream: usize,
    pub should_refresh: bool,
}

impl LoaderPlan {
    /// Whether the module is refreshed when it is made ready: where the
    /// caller asks for it, and where the plan was made with a refresh.
    pub fn refresh(&self, should_refresh: bool) -> (r: bool)
        ensures
            r == (should_refresh || self.should_refresh),
    {
        should_refresh || self.should_refresh
    }
}

/// A catalog of the modules kept in a directory on disk. Where its table
/// has no module of a name, the catalogs upstream are asked in order.
pub struct LocalCatalog<C> {
    name: String,
    upstream_catalogs: Vec<C>,
    storage_dir: String,
    local_toc: LocalCatalogTOC,
}

impl<C> LocalCatalog<C> {
    /// The name of the catalog.
    pub closed spec fn name_spec(&self) -> Seq<char> {
        self.name@
    }

    /// The directory in which the modules are kept.
    pub closed spec fn storage_spec(&self) -> Seq<char> {
        self.storage_dir@
    }

    /// The table of contents.
    pub closed spec fn toc(&self) -> Seq<DescriptorView> {
        self.local_toc@
    }

    /// The catalogs upstream, in the order in which they are asked.
    pub closed spec fn upstream(&self) -> Seq<C> {
        self.upstream_catalogs@
    }

    /// The catalog of the directory `storage_dir`, which holds the
    /// directories of the given names, one for each module.
    pub fn new(storage_dir: &str, name: &str, dir_names: &Vec<String>) -> (r: Result<Self, String>)
        ensures
            match r {
                Ok(c) => toc_from_names(Seq::empty(), names_view(dir_names@), 0) == Ok::<
                    Seq<DescriptorView>,
                    Seq<char>,
                >(c.toc()) && c.name_spec() == name@ && c.storage_spec() == storage_dir@
                    && c.upstream() == Seq::<C>::empty(),
                Err(e) => toc_from_names(Seq::empty(), names_view(dir_names@), 0) == Err::<
                    Seq<DescriptorView>,
                    Seq<char>,
                >(e@),
            },
    {
        let local_toc = match LocalCatalogTOC::build_from_names(dir_names) {
            Ok(toc) => toc,
            Err(e) => {
                return Err(e);
            },
        };
        Ok(
            LocalCatalog {
                name: str_to_string(name),
                upstream_catalogs: Vec::new(),
                storage_dir: str_to_string(storage_dir),
                local_toc,
            },
        )
    }

    /// Adds a catalog upstream, to be asked after those already there.
    pub fn push_upstream_catalog(&mut self, catalog: C)
        ensures
            final(self).upstream() == old(self).upstream().push(catalog),
            final(self).toc() == old(self).toc(),
            final(self).name_spec() == old(self).name_spec(),
            final(self).storage_spec() == old(self).storage_spec(),
    {
        self.upstream_catalogs.push(catalog);
    }

    /// The catalogs upstream.
    pub fn upstream_catalogs(&self) -> (r: &Vec<C>)
        ensures
            r@ == self.upstream(),
    {
        &self.upstream_catalogs
    }

    /// The descriptors of the modules of the given name in the table.
    pub fn lookup_by_name_in_toc(&self, name: &str) -> (r: Option<Vec<ModuleDescriptor>>)
        ensures
            match r {
                Some(v) => descriptors_view(v@) == with_name_from(self.toc(), name@, 0) && v@.len()
                    > 0,
                None => with_name_from(self.toc(), name@, 0).len() == 0,
            },
    {
        self.local_toc.lookup_by_name(name)
    }

    /// Adds a descriptor to the table, unless it is there already.
    pub fn add_to_toc(&mut self, descriptor: ModuleDescriptor) -> (r: Result<(), String>)
        ensures
            r is Ok,
            final(self).toc() == toc_add(old(self).toc(), descriptor@),
            final(self).upstream() == old(self).upstream(),
            final(self).name_spec() == old(self).name_spec(),
            final(self).storage_spec() == old(self).storage_spec(),
    {
        self.local_toc.add_descriptor(descriptor)
    }

    /// How a lookup begins: with the modules of the table where it has
    /// some of the name, else with the first catalog upstream, else with
    /// nothing.
    pub fn lookup_start(&self, name: &str) -> (r: LookupAction)
        ensures
            r@ == lookup_start_spec(self.toc(), self.upstream().len(), name@),
    {
        match self.lookup_by_name_in_toc(name) {
            Some(found) => LookupAction::Done(found),
            None => if self.upstream_catalogs.len() > 0 {
                LookupAction::Ask(0)
            } else {
                let none: Vec<ModuleDescriptor> = Vec::new();
                assert(descriptors_view(none@) =~= Seq::empty());
                LookupAction::Done(none)
            },
        }
    }

    /// How a lookup goes on after the catalog upstream at the position
    /// `asked` has answered: with the answer where it holds a module, else
    /// with the next catalog, else with nothing.
    pub fn lookup_continue(&self, asked: usize, answer: Vec<ModuleDescriptor>) -> (r: LookupAction)
        ensures
            r@ == lookup_continue_spec(
                self.upstream().len(),
                asked as int,
                descriptors_view(answer@),
            ),
    {
        if answer.len() > 0 {
            LookupAction::Done(answer)
        } else if asked < self.upstream_catalogs.len() && asked + 1 < self.upstream_catalogs.len() {
            LookupAction::Ask(asked + 1)
        } else {
            assert(descriptors_view(answer@) =~= Seq::empty());
            LookupAction::Done(answer)
        }
    }

    /// How the search for the catalog upstream that supplies a module
    /// begins: with the first catalog, where there is one.
    pub fn supplier_start(&self) -> (r: SupplierAction)
        ensures
            r == if self.upstream().len() > 0 {
                SupplierAction::Ask(0)
            } else {
                SupplierAction::NoneLeft
            },
    {
        if self.upstream_catalogs.len() > 0 {
            SupplierAction::Ask(0)
        } else {
            SupplierAction::NoneLeft
        }
    }

    /// How the search goes on after the catalog upstream at the position
    /// `asked` has answered: it ends there where that catalog supplies the
    /// module, and else goes on to the next catalog, where there is one.
    pub fn supplier_continue(&self, asked: usize, supplied: bool) -> (r: SupplierAction)
        ensures
            r == if supplied {
                SupplierAction::Found(asked)
            } else if asked + 1 < self.upstream().len() {
                SupplierAction::Ask((asked + 1) as usize)
            } else {
                SupplierAction::NoneLeft
            },
    {
        if supplied {
            SupplierAction::Found(asked)
        } else if asked < self.upstream_catalogs.len() && asked + 1 < self.upstream_catalogs.len() {
            SupplierAction::Ask(asked + 1)
        } else {
            SupplierAction::NoneLeft
        }
    }

    /// Decides how a module is loaded, given the position of the first
    /// catalog upstream that can supply it. The module is entered in the
    /// table. Where no catalog can supply it, that is an error.
    pub fn get_loader_with_explicit_refresh(
        &mut self,
        descriptor: &ModuleDescriptor,
        supplier: Option<usize>,
        should_refresh: bool,
    ) -> (r: Result<LoaderPlan, String>)
        ensures
            final(self).upstream() == old(self).upstream(),
            final(self).name_spec() == old(self).name_spec(),
            final(self).storage_spec() == old(self).storage_spec(),
            match supplier {
                None => r matches Err(e) && e@ == "Upstream Catalogs can no longer supply module "@
                    + descriptor@.name && final(self).toc() == old(self).toc(),
                Some(k) => r matches Ok(plan) && plan.upstream == k && plan.should_refresh
                    == should_refresh && plan.cache_dir_name@ == dir_name(descriptor@)
                    && plan.storage_dir@ == old(self).storage_spec() && final(self).toc()
                    == toc_add(old(self).toc(), descriptor@),
            },
    {
        let upstream = match supplier {
            Some(k) => k,
            None => {
                let mut message = str_to_string("Upstream Catalogs can no longer supply module ");
                message.append(descriptor.name());
                return Err(message);
            },
        };
        let cache_dir_name = dir_name_from_descriptor(descriptor);
        let _ = self.add_to_toc(descriptor.clone());
        Ok(
            LoaderPlan {
                storage_dir: self.storage_dir.clone(),
                cache_dir_name,
                upstream,
                should_refresh,
            },
        )
    }

    /// Decides how a module is loaded without a refresh.
    pub fn get_loader(&mut self, descriptor: &ModuleDescriptor, supplier: Option<usize>) -> (r:
        Result<LoaderPlan, String>)
        ensures
            final(self).upstream() == old(self).upstream(),
            final(self).name_spec() == old(self).name_spec(),
            final(self).storage_spec() == old(self).storage_spec(),
            match supplier {
                None => r matches Err(e) && e@ == "Upstream Catalogs can no longer supply module "@
                    + descriptor@.name && final(self).toc() == old(self).toc(),
                Some(k) => r matches Ok(plan) && plan.upstream == k && !plan.should_refresh
                    && plan.cache_dir_name@ == dir_name(descriptor@) && plan.storage_dir@ == old(
                    self,
                ).storage_spec() && final(self).toc() == toc_add(old(self).toc(), descriptor@),
            },
    {
        self.get_loader_with_explicit_refresh(descriptor, supplier, false)
    }
}

/// How a lookup begins.
pub open spec fn lookup_start_spec(toc: Seq<DescriptorView>, upstreams: nat, name: Seq<char>)
    -> LookupView {
    let found = with_name_from(toc, name, 0);
    if found.len() > 0 {
        LookupView::Done(found)
    } else if upstreams > 0 {
        LookupView::Ask(0)
    } else {
        LookupView::Done(Seq::empty())
    }
}

/// How a lookup goes on after an answer from upstream.
pub open spec fn lookup_continue_spec(upstreams: nat, asked: int, answer: Seq<DescriptorView>)
    -> LookupView {
    if answer.len() > 0 {
        LookupView::Done(answer)
    } else if asked + 1 < upstreams {
        LookupView::Ask(asked + 1)
    } else {
        LookupView::Done(Seq::empty())
    }
}

} // verus!
