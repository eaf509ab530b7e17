use hyperon::catalog::{
    descriptor_from_parts, dir_name_from_descriptor, parse_descriptor_from_dir_name,
    parse_uid_text, ModuleDescriptor, Version,
};
use hyperon::git_catalog::{
    prepare_plan, CatalogFileFormat, CatalogFileMod, GitCatalog, LookupStep, ModuleGitLocation,
    UpdateMode,
};
use hyperon::managed_catalog::{
    LocalCatalog, LocalCatalogTOC, LookupAction, ManagedCatalog, ModuleCatalog, SupplierAction,
};
use hyperon::strings::{
    chars_lt, chars_to_u64, i64_to_decimal, str_chars, str_lt, u64_to_numeral,
    u64_to_numeral_fixed,
};

fn version(major: u64, minor: u64, patch: u64) -> Version {
    Version { major, minor, patch, pre: String::new(), build: String::new() }
}

fn desc(name: &str, v: Option<Version>, uid: Option<u64>) -> ModuleDescriptor {
    ModuleDescriptor::new(name.to_string(), v, uid)
}

#[test]
fn numerals_are_written_exactly() {
    assert_eq!(u64_to_numeral(0, 10), "0");
    assert_eq!(u64_to_numeral(7, 10), "7");
    assert_eq!(u64_to_numeral(1203, 10), "1203");
    assert_eq!(u64_to_numeral(u64::MAX, 10), "18446744073709551615");
    assert_eq!(u64_to_numeral(255, 16), "ff");
    assert_eq!(u64_to_numeral(5, 2), "101");
    assert_eq!(u64_to_numeral_fixed(255, 16, 16), "00000000000000ff");
    assert_eq!(u64_to_numeral_fixed(u64::MAX, 16, 16), "ffffffffffffffff");
    assert_eq!(u64_to_numeral_fixed(0x1234, 16, 2), "34");
    assert_eq!(u64_to_numeral_fixed(9, 10, 0), "");
    assert_eq!(i64_to_decimal(0), "0");
    assert_eq!(i64_to_decimal(-42), "-42");
    assert_eq!(i64_to_decimal(i64::MAX), "9223372036854775807");
    assert_eq!(i64_to_decimal(i64::MIN), "-9223372036854775808");
}

#[test]
fn numerals_are_read_exactly() {
    assert_eq!(chars_to_u64(&str_chars("0"), 10), Some(0));
    assert_eq!(chars_to_u64(&str_chars("007"), 10), Some(7));
    assert_eq!(chars_to_u64(&str_chars("18446744073709551615"), 10), Some(u64::MAX));
    assert_eq!(chars_to_u64(&str_chars("18446744073709551616"), 10), None);
    assert_eq!(chars_to_u64(&str_chars(""), 10), None);
    assert_eq!(chars_to_u64(&str_chars("12a"), 10), None);
    assert_eq!(chars_to_u64(&str_chars("fF"), 16), Some(255));
    assert_eq!(chars_to_u64(&str_chars("g"), 16), None);
    assert_eq!(chars_to_u64(&str_chars("-1"), 10), None);
}

#[test]
fn names_are_ordered_by_characters() {
    assert!(str_lt("a", "b"));
    assert!(!str_lt("b", "a"));
    assert!(!str_lt("a", "a"));
    assert!(str_lt("", "a"));
    assert!(!str_lt("a", ""));
    assert!(str_lt("a", "ab"));
    assert!(str_lt("Z", "a"));
    assert!(chars_lt(&vec!['a', 'b'], &vec!['a', 'c']));
    assert_eq!(str_chars("h\u{e9}llo"), vec!['h', '\u{e9}', 'l', 'l', 'o']);
}

#[test]
fn identity_numbers_are_hashes_of_the_identity() {
    assert_eq!(ModuleDescriptor::uid_from_ident_bytes_and_fmt_id(b"", 0), 0xcbf29ce484222325);
    assert_eq!(ModuleDescriptor::uid_from_ident_bytes_and_fmt_id(b"a", 0), 0xaf63dc4c8601ec8c);
    assert_eq!(
        ModuleDescriptor::uid_from_ident_bytes_and_fmt_id(b"foobar", 0),
        0x85944171f73967e8
    );
    assert_eq!(
        ModuleDescriptor::uid_from_ident_bytes_and_fmt_id(b"foobar", 0xff),
        0x85944171f73967e8 ^ 0xff
    );
}

#[test]
fn identity_of_a_git_location() {
    let mut location = ModuleGitLocation::new("https://example.org/repo.git".to_string());
    assert_eq!(location.get_url(), Some("https://example.org/repo.git"));
    assert_eq!(location.identity_string(), "https://example.org/repo.git---");
    assert_eq!(
        location.uid(),
        ModuleDescriptor::uid_from_ident_bytes_and_fmt_id(b"https://example.org/repo.git---", 0)
    );
    location.git_branch = Some("main".to_string());
    location.git_subdir = Some("sub/dir".to_string());
    location.git_main_file = Some("mod \"x\".metta".to_string());
    assert_eq!(
        location.identity_string(),
        "https://example.org/repo.git-main-sub/dir-mod \"x\".metta"
    );
    let empty = ModuleGitLocation::default();
    assert_eq!(empty.get_url(), None);
    assert_eq!(empty.identity_string(), "---");
    assert_ne!(empty.uid(), location.uid());
}

#[test]
fn versions_are_parsed_by_semver_and_written_back() {
    let v = Version::parse("1.2.3").unwrap();
    assert_eq!(v, version(1, 2, 3));
    assert_eq!(v.to_string(), "1.2.3");
    let v = Version::parse("10.0.7-alpha.1+build.5").unwrap();
    assert_eq!(v.major, 10);
    assert_eq!(v.minor, 0);
    assert_eq!(v.patch, 7);
    assert_eq!(v.pre, "alpha.1");
    assert_eq!(v.build, "build.5");
    assert_eq!(v.to_string(), "10.0.7-alpha.1+build.5");
    let v = Version::parse("0.0.0+only").unwrap();
    assert_eq!(v.to_string(), "0.0.0+only");
    for text in ["1.2.3", "1.2.3-rc.1", "1.2.3+b", "18446744073709551615.0.0-x.7.z+a-b"] {
        let ours = Version::parse(text).unwrap().to_string();
        let theirs = semver::Version::parse(text).unwrap().to_string();
        assert_eq!(ours, theirs);
    }
    for text in ["", "1", "1.2", "1.x.3", "01.2.3", "1.2.3-", "99999999999999999999.0.0"] {
        let ours = Version::parse(text).unwrap_err();
        let theirs = semver::Version::parse(text).unwrap_err().to_string();
        assert_eq!(ours, theirs);
    }
}

#[test]
fn directory_names_are_written_exactly() {
    assert_eq!(dir_name_from_descriptor(&desc("mod", None, None)), "mod");
    assert_eq!(dir_name_from_descriptor(&desc("mod", Some(version(1, 2, 3)), None)), "mod@1.2.3");
    assert_eq!(
        dir_name_from_descriptor(&desc("mod", None, Some(0xabc))),
        "mod#0000000000000abc"
    );
    assert_eq!(
        dir_name_from_descriptor(&desc("mod", Some(version(0, 1, 0)), Some(u64::MAX))),
        "mod@0.1.0#ffffffffffffffff"
    );
}

#[test]
fn directory_names_are_read_back() {
    assert_eq!(parse_descriptor_from_dir_name("mod"), Ok(desc("mod", None, None)));
    assert_eq!(
        parse_descriptor_from_dir_name("mod@1.2.3"),
        Ok(desc("mod", Some(version(1, 2, 3)), None))
    );
    assert_eq!(
        parse_descriptor_from_dir_name("mod#0000000000000abc"),
        Ok(desc("mod", None, Some(0xabc)))
    );
    assert_eq!(
        parse_descriptor_from_dir_name("mod@0.1.0#ffffffffffffffff"),
        Ok(desc("mod", Some(version(0, 1, 0)), Some(u64::MAX)))
    );
    let pre = Version {
        major: 1,
        minor: 0,
        patch: 0,
        pre: "rc.1".to_string(),
        build: "b7".to_string(),
    };
    let d = desc("some-mod", Some(pre), Some(77));
    assert_eq!(parse_descriptor_from_dir_name(&dir_name_from_descriptor(&d)), Ok(d.clone()));
    assert_eq!(d.name(), "some-mod");
    assert_eq!(d.uid(), Some(77));
    assert_eq!(d.version().unwrap().to_string(), "1.0.0-rc.1+b7");
    // The last `#` and the first `@` split the name.
    assert_eq!(parse_descriptor_from_dir_name("a#b#10"), Ok(desc("a#b", None, Some(16))));
    assert_eq!(parse_descriptor_from_dir_name("a@1.0.0+x#ff").unwrap().uid(), Some(255));
    assert_eq!(parse_descriptor_from_dir_name(""), Ok(desc("", None, None)));
}

#[test]
fn directory_names_that_are_no_descriptors() {
    assert_eq!(
        parse_descriptor_from_dir_name("mod#"),
        Err("cannot parse integer from empty string".to_string())
    );
    assert_eq!(
        parse_descriptor_from_dir_name("mod#xyz"),
        Err("invalid digit found in string".to_string())
    );
    assert_eq!(
        parse_descriptor_from_dir_name("mod#10000000000000000"),
        Err("number too large to fit in target type".to_string())
    );
    assert_eq!(
        parse_descriptor_from_dir_name("mod@one"),
        Err(semver::Version::parse("one").unwrap_err().to_string())
    );
    // The version is looked at before the identity number.
    assert_eq!(
        parse_descriptor_from_dir_name("mod@1.2#zz"),
        Err(semver::Version::parse("1.2").unwrap_err().to_string())
    );
    assert_eq!(parse_uid_text("ff"), Ok(255));
    assert_eq!(parse_uid_text("+ff"), Ok(255));
    assert_eq!(parse_descriptor_from_dir_name("foo#+ff"), Ok(desc("foo", None, Some(255))));
    for text in ["", "+", "-", "-ff", "++f", "f+", "0x10", "ffffffffffffffff", "+0000000000000000000ff", "10000000000000000", " 1"] {
        assert_eq!(
            parse_uid_text(text),
            u64::from_str_radix(text, 16).map_err(|e| e.to_string()),
            "{text:?}"
        );
    }
    assert_eq!(
        descriptor_from_parts("m", Some(Err("bad version".to_string())), Some("zz")),
        Err("bad version".to_string())
    );
    assert_eq!(
        descriptor_from_parts("m", Some(Ok(version(1, 0, 0))), Some("a")),
        Ok(desc("m", Some(version(1, 0, 0)), Some(10)))
    );
}

fn entry(name: &str, v: Option<Version>, url: &str) -> CatalogFileMod {
    CatalogFileMod::new(name.to_string(), v, ModuleGitLocation::new(url.to_string()))
}

#[test]
fn catalog_table_finds_and_adds() {
    let mut table = CatalogFileFormat::default();
    let a1 = entry("a", Some(version(1, 0, 0)), "u1");
    let a2 = entry("a", Some(version(2, 0, 0)), "u1");
    let b = entry("b", None, "u2");
    let da1 = table.add(a1.clone()).unwrap();
    let db = table.add(b.clone()).unwrap();
    let da2 = table.add(a2.clone()).unwrap();
    assert_eq!(table.modules.len(), 3);
    assert_eq!(table.add(a1.clone()), Ok(da1.clone()));
    assert_eq!(table.modules.len(), 3);
    assert_eq!(da1, a1.descriptor());
    assert_eq!(da1.uid(), Some(ModuleGitLocation::new("u1".to_string()).uid()));
    assert_eq!(table.find_mods_with_name("a"), vec![da1.clone(), da2.clone()]);
    assert_eq!(table.find_mods_with_name("b"), vec![db.clone()]);
    assert!(table.find_mods_with_name("c").is_empty());
    assert_eq!(table.find_mod_idx_with_descriptor(&da2), Some(2));
    assert_eq!(table.find_mod_idx_with_descriptor(&db), Some(1));
    assert_eq!(table.find_mod_idx_with_descriptor(&desc("a", None, da1.uid())), None);
    // An entry of the same name and version at another place is another module.
    let other = entry("a", Some(version(1, 0, 0)), "u9");
    table.add(other).unwrap();
    assert_eq!(table.modules.len(), 4);
}

#[test]
fn git_catalog_registers_and_reads() {
    let mut catalog = GitCatalog::new_without_source_repo("explicit");
    assert!(catalog.needs_reading(false));
    assert!(catalog.find_mods_with_name("m").is_empty());
    assert_eq!(catalog.find_mod_idx_with_descriptor(&desc("m", None, None)), None);
    assert_eq!(catalog.update_mode(), UpdateMode::TryPullIfOlderThan(0));
    let location = ModuleGitLocation::new("url".to_string());
    let d = catalog.register_mod("m", Some(&version(1, 0, 0)), &location).unwrap();
    assert_eq!(d, desc("m", Some(version(1, 0, 0)), Some(location.uid())));
    assert_eq!(catalog.register_mod("m", Some(&version(1, 0, 0)), &location), Ok(d.clone()));
    assert_eq!(catalog.find_mods_with_name("m"), vec![d.clone()]);
    assert_eq!(catalog.find_mod_idx_with_descriptor(&d), Some(0));
    assert_eq!(catalog.get_module(&d).unwrap().name, "m");
    assert!(catalog.get_module(&desc("m", None, None)).is_none());
    assert!(!catalog.needs_reading(false));
    assert!(catalog.needs_reading(true));
    let mut fetched = GitCatalog::new("remote", 3600);
    assert_eq!(fetched.update_mode(), UpdateMode::TryPullIfOlderThan(3600));
    fetched.set_catalog(CatalogFileFormat::default());
    assert!(!fetched.needs_reading(false));
}

#[test]
fn preparing_a_git_module_needs_a_directory() {
    assert_eq!(prepare_plan(Some("dir"), true), Ok(("dir".to_string(), UpdateMode::TryPullLatest)));
    assert_eq!(prepare_plan(Some("dir"), false), Ok(("dir".to_string(), UpdateMode::PullIfMissing)));
    assert_eq!(
        prepare_plan(None, true),
        Err("GitCatalog: Cannot prepare git-based module without local cache directory".to_string())
    );
}

#[test]
fn table_of_contents_holds_each_module_once() {
    let mut toc = LocalCatalogTOC::new();
    let a = desc("a", Some(version(1, 0, 0)), Some(1));
    let a2 = desc("a", Some(version(1, 0, 0)), Some(2));
    let b = desc("b", None, None);
    assert_eq!(toc.lookup_by_name("a"), None);
    assert_eq!(toc.add_descriptor(a.clone()), Ok(()));
    assert_eq!(toc.add_descriptor(b.clone()), Ok(()));
    assert_eq!(toc.add_descriptor(a2.clone()), Ok(()));
    assert_eq!(toc.add_descriptor(a.clone()), Ok(()));
    assert_eq!(toc.lookup_by_name("a"), Some(vec![a.clone(), a2.clone()]));
    assert_eq!(toc.lookup_by_name("b"), Some(vec![b.clone()]));
    assert_eq!(toc.lookup_by_name("c"), None);
    assert!(toc.contains(&a2));
    assert!(!toc.contains(&desc("a", None, Some(1))));
    let names = vec!["a@1.0.0#0000000000000001".to_string(), "b".to_string(), "a@1.0.0#0000000000000001".to_string()];
    let built = LocalCatalogTOC::build_from_names(&names).unwrap();
    assert_eq!(built.lookup_by_name("a"), Some(vec![a.clone()]));
    assert_eq!(built.lookup_by_name("b"), Some(vec![b]));
    let names = vec!["a".to_string(), "b#zz".to_string(), "c@bad".to_string()];
    assert_eq!(
        LocalCatalogTOC::build_from_names(&names).unwrap_err(),
        "invalid digit found in string"
    );
}

#[test]
fn local_catalog_looks_locally_then_upstream() {
    let names = vec!["a@1.0.0".to_string()];
    let mut catalog: LocalCatalog<&str> = LocalCatalog::new("/caches/local", "local", &names).unwrap();
    let a = desc("a", Some(version(1, 0, 0)), None);
    assert!(catalog.upstream_catalogs().is_empty());
    assert!(matches!(catalog.lookup_start("a"), LookupAction::Done(found) if found == vec![a.clone()]));
    assert!(matches!(catalog.lookup_start("b"), LookupAction::Done(found) if found.is_empty()));
    catalog.push_upstream_catalog("first");
    catalog.push_upstream_catalog("second");
    assert_eq!(catalog.upstream_catalogs(), &vec!["first", "second"]);
    assert!(matches!(catalog.lookup_start("a"), LookupAction::Done(found) if found == vec![a.clone()]));
    assert!(matches!(catalog.lookup_start("b"), LookupAction::Ask(0)));
    assert!(matches!(catalog.lookup_continue(0, vec![]), LookupAction::Ask(1)));
    assert!(matches!(catalog.lookup_continue(1, vec![]), LookupAction::Done(found) if found.is_empty()));
    let b = desc("b", None, Some(5));
    assert!(matches!(catalog.lookup_continue(0, vec![b.clone()]), LookupAction::Done(found) if found == vec![b.clone()]));
    assert_eq!(catalog.lookup_by_name_in_toc("b"), None);

    let plan = catalog.get_loader_with_explicit_refresh(&b, Some(1), true).unwrap();
    assert_eq!(plan.upstream, 1);
    assert_eq!(plan.storage_dir, "/caches/local");
    assert_eq!(plan.cache_dir_name, "b#0000000000000005");
    assert!(plan.should_refresh);
    assert!(plan.refresh(false));
    assert_eq!(catalog.lookup_by_name_in_toc("b"), Some(vec![b.clone()]));
    let plan = catalog.get_loader(&a, Some(0)).unwrap();
    assert!(!plan.should_refresh);
    assert!(!plan.refresh(false));
    assert!(plan.refresh(true));
    let c = desc("c", None, None);
    assert_eq!(
        catalog.get_loader_with_explicit_refresh(&c, None, false).unwrap_err(),
        "Upstream Catalogs can no longer supply module c"
    );
    assert_eq!(catalog.lookup_by_name_in_toc("c"), None);
    assert_eq!(catalog.add_to_toc(c.clone()), Ok(()));
    assert_eq!(catalog.lookup_by_name_in_toc("c"), Some(vec![c]));
    let bad = vec!["x#".to_string()];
    assert!(LocalCatalog::<&str>::new("/caches/local", "local", &bad).is_err());
}

#[test]
fn a_module_by_its_place_needs_the_catalog_of_such_modules() {
    let location = ModuleGitLocation::new("url".to_string());
    assert_eq!(location.get_loader_in_explicit_catalog("m", true), Ok(true));
    assert_eq!(
        location.get_loader_in_explicit_catalog("m", false),
        Err("Unable to pull module \"m\" from git; no local \"caches\" directory available"
            .to_string())
    );
    let nowhere = ModuleGitLocation::default();
    assert_eq!(nowhere.get_loader_in_explicit_catalog("m", false), Ok(false));
    assert_eq!(nowhere.get_loader_in_explicit_catalog("m", true), Ok(false));
}

struct Mirror {
    listed: Option<Vec<(String, Option<u64>)>>,
    fetched: std::cell::RefCell<Vec<String>>,
    failing: Option<String>,
}

impl ModuleCatalog for Mirror {
    fn lookup(&self, name: &str) -> Vec<ModuleDescriptor> {
        vec![desc(name, None, None)]
    }

    fn list_name_uid_pairs(&self) -> Option<Vec<(String, Option<u64>)>> {
        self.listed.clone()
    }

    fn lookup_newest_with_uid(&self, name: &str, uid: Option<u64>) -> Option<ModuleDescriptor> {
        if name == "gone" {
            None
        } else {
            Some(desc(name, Some(version(9, 0, 0)), uid))
        }
    }
}

impl ManagedCatalog for Mirror {
    fn clear_all(&self) -> Result<(), String> {
        Ok(())
    }

    fn fetch(&self, descriptor: &ModuleDescriptor) -> Result<(), String> {
        if self.failing.as_deref() == Some(descriptor.name()) {
            return Err(format!("cannot fetch {}", descriptor.name()));
        }
        self.fetched.borrow_mut().push(dir_name_from_descriptor(descriptor));
        Ok(())
    }

    fn remove(&self, _descriptor: &ModuleDescriptor) -> Result<(), String> {
        Ok(())
    }
}

#[test]
fn fetching_the_newest_of_all_modules() {
    let pairs = vec![("a".to_string(), Some(1)), ("gone".to_string(), None), ("b".to_string(), None)];
    let mirror = Mirror { listed: Some(pairs.clone()), fetched: Default::default(), failing: None };
    assert_eq!(mirror.fetch_newest_for_all(), Ok(()));
    assert_eq!(*mirror.fetched.borrow(), vec!["a@9.0.0#0000000000000001", "b@9.0.0"]);
    let mirror = Mirror { listed: None, fetched: Default::default(), failing: None };
    assert_eq!(
        mirror.fetch_newest_for_all(),
        Err("managed catalog must support `list` method".to_string())
    );
    let mirror =
        Mirror { listed: Some(pairs), fetched: Default::default(), failing: Some("a".to_string()) };
    assert_eq!(mirror.fetch_newest_for_all(), Err("cannot fetch a".to_string()));
    assert!(mirror.fetched.borrow().is_empty());
}

#[test]
fn git_lookup_goes_by_the_outcome_of_the_update() {
    let mut catalog = GitCatalog::new("remote", 60);
    assert_eq!(catalog.after_update(&Err("no network".to_string())), LookupStep::Answer);
    assert_eq!(catalog.after_update(&Ok(false)), LookupStep::ReadFile);
    assert_eq!(catalog.after_update(&Ok(true)), LookupStep::ReadFile);
    assert!(catalog.after_read("m", Err("no file".to_string())).is_empty());
    assert_eq!(catalog.after_update(&Ok(false)), LookupStep::ReadFile);
    let mut table = CatalogFileFormat::default();
    let d = table.add(entry("m", None, "url")).unwrap();
    table.add(entry("n", None, "url")).unwrap();
    assert_eq!(catalog.after_read("m", Ok(table)), vec![d.clone()]);
    assert_eq!(catalog.after_update(&Ok(false)), LookupStep::Find);
    assert_eq!(catalog.after_update(&Ok(true)), LookupStep::ReadFile);
    assert_eq!(catalog.after_update(&Err("x".to_string())), LookupStep::Answer);
    assert_eq!(catalog.find_mods_with_name("m"), vec![d.clone()]);
    assert!(catalog.after_read("m", Err("gone".to_string())).is_empty());
    assert_eq!(catalog.find_mods_with_name("m"), vec![d]);
}

#[test]
fn the_first_upstream_that_supplies_a_module_is_taken() {
    let mut catalog: LocalCatalog<&str> = LocalCatalog::new("/c", "local", &vec![]).unwrap();
    assert_eq!(catalog.supplier_start(), SupplierAction::NoneLeft);
    catalog.push_upstream_catalog("first");
    catalog.push_upstream_catalog("second");
    assert_eq!(catalog.supplier_start(), SupplierAction::Ask(0));
    assert_eq!(catalog.supplier_continue(0, true), SupplierAction::Found(0));
    assert_eq!(catalog.supplier_continue(0, false), SupplierAction::Ask(1));
    assert_eq!(catalog.supplier_continue(1, true), SupplierAction::Found(1));
    assert_eq!(catalog.supplier_continue(1, false), SupplierAction::NoneLeft);
    assert_eq!(catalog.supplier_continue(usize::MAX, false), SupplierAction::NoneLeft);
}

#[test]
fn equal_locations_have_equal_identity_numbers() {
    let make = || ModuleGitLocation {
        git_url: Some("u".to_string()),
        git_branch: Some("b".to_string()),
        git_subdir: Some("s".to_string()),
        git_main_file: Some("f".to_string()),
    };
    assert_eq!(make().identity_string(), "u-b-s-f");
    assert_eq!(make().uid(), ModuleDescriptor::uid_from_ident_bytes_and_fmt_id(b"u-b-s-f", 0));
    assert_eq!(make().uid(), make().uid());
}
