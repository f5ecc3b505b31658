use asciii::config::{resolve_storage_path, setup, Config};
use asciii::error::StorageError;
use asciii::paths::{parse_path, FsPath};
use asciii::project_list::ProjectList;
use asciii::record::Record;
use asciii::storable::Storable;
use asciii::storage::{DirsPresent, Storage, StorageDir, StorageSelection, UnarchiveFacts};

fn store() -> Storage<Record> {
    Storage::try_new(&parse_path("/store"), "working", "archive", "templates", "tyml").unwrap()
}

fn record(ident: &str, prefix: Option<&str>, year: Option<i32>, ready: bool) -> Record {
    let dir = parse_path("/store/working").join(ident);
    let file = dir.join(&format!("{}.yml", ident));
    Record::new(
        ident.to_string(),
        prefix.map(|p| p.to_string()),
        year,
        None,
        dir,
        file,
        ident.to_string(),
        ready,
    )
}

fn parts(p: &FsPath) -> Vec<String> {
    p.components().clone()
}

fn all_present() -> DirsPresent {
    DirsPresent { root: true, working: true, archive: true, templates: true }
}

#[test]
fn construction_requires_an_absolute_root() {
    let err = Storage::<Record>::try_new(&parse_path("rel"), "w", "a", "t", "x").unwrap_err();
    assert!(matches!(err, StorageError::StoragePathNotAbsolute));
    let s = store();
    assert_eq!(parts(s.working_dir()), vec!["store", "working"]);
    assert_eq!(parts(s.archive_dir()), vec!["store", "archive"]);
    assert_eq!(parts(s.templates_dir()), vec!["store", "templates"]);
    assert_eq!(parts(s.extras_dir()), vec!["store", "extras"]);
    assert!(s.repository().is_none());
    assert!(matches!(s.get_repository(), Err(StorageError::RepoUninitialized)));
}

#[test]
fn paths_report_reflects_the_layout() {
    let s = store();
    let paths = s.paths();
    assert_eq!(parts(&paths.storage), vec!["store"]);
    assert_eq!(parts(&paths.working), vec!["store", "working"]);
    assert_eq!(parts(&paths.archive), vec!["store", "archive"]);
    assert_eq!(parts(&paths.templates), vec!["store", "templates"]);
    let extra = s.get_extra_file("logo.png");
    assert_eq!(parts(&extra), vec!["store", "extras", "logo.png"]);
}

#[test]
fn project_lists_grow_and_move() {
    let mut a: ProjectList<Record> = ProjectList::new();
    assert!(a.is_empty());
    a.push(record("one", None, None, false));
    let mut b = ProjectList::from_vec(vec![record("two", None, None, false)]);
    a.append(&mut b);
    assert_eq!(a.len(), 2);
    assert!(b.is_empty());
    assert_eq!(a.get(1).ident(), "two");
}

#[test]
fn health_check_wants_all_four_directories() {
    let s = store();
    assert!(s.health_check(&all_present()).is_ok());
    let mut missing = all_present();
    missing.archive = false;
    assert!(matches!(s.health_check(&missing), Err(StorageError::InvalidDirStructure)));
}

#[test]
fn create_dirs_is_idempotent() {
    let s = store();
    let none = DirsPresent { root: false, working: false, archive: false, templates: false };
    let plan = s.create_dirs(&none).unwrap();
    assert_eq!(plan.len(), 4);
    assert_eq!(parts(&plan[0]), vec!["store"]);
    assert_eq!(parts(&plan[1]), vec!["store", "working"]);
    assert_eq!(parts(&plan[2]), vec!["store", "archive"]);
    assert_eq!(parts(&plan[3]), vec!["store", "templates"]);
    // after creating everything the plan is empty, and stays empty
    let again = s.create_dirs(&all_present()).unwrap();
    assert_eq!(again.len(), 0);
    let third = s.create_dirs(&all_present()).unwrap();
    assert_eq!(third.len(), 0);
}

#[test]
fn create_archive_names_the_year_partition() {
    let s = store();
    let (partition, create) = s.create_archive(2001, false);
    assert_eq!(parts(&partition), vec!["store", "archive", "2001"]);
    assert!(create);
    let (_, create_again) = s.create_archive(2001, true);
    assert!(!create_again);
}

#[test]
fn archive_lands_under_prefix_and_slug() {
    let s = store();
    let r = record("birthday-party", Some("R007"), Some(2024), true);
    let moved = s.archive_project(&r, 2024);
    assert_eq!(moved.len(), 2);
    assert_eq!(parts(&moved[0]), vec!["store", "working", "birthday-party"]);
    assert_eq!(parts(&moved[1]), vec!["store", "archive", "2024", "R007_birthday-party"]);
}

#[test]
fn archive_without_prefix_uses_the_plain_ident() {
    let s = store();
    let r = record("quiet-affair", None, Some(2023), true);
    let moved = s.archive_project(&r, 2023);
    assert_eq!(parts(&moved[1]), vec!["store", "archive", "2023", "quiet-affair"]);
}

#[test]
fn round_trip_restores_the_original_path() {
    let s = store();
    let r = record("bp", Some("R007"), Some(2024), true);
    let moved = s.archive_project(&r, 2024);
    // after the rename the moved directory still lists the record file
    let entries = vec![parse_path("bp.yml")];
    let back = s.unarchive_project_dir(&moved[1], entries, false).unwrap();
    assert_eq!(parts(&back), parts(&moved[0]));
    assert_eq!(parts(&back), parts(&r.dir()));
}

#[test]
fn unarchive_rejects_bad_sources() {
    let s = store();
    let entries = || vec![parse_path("bp.yml")];
    // the archive root itself
    let err = s.unarchive_project_dir(&parse_path("/store/archive"), entries(), false);
    assert!(matches!(err, Err(StorageError::InvalidDirStructure)));
    // a parent that is not a year
    let err = s.unarchive_project_dir(&parse_path("/store/archive/notyear/bp"), entries(), false);
    assert!(matches!(err, Err(StorageError::InvalidDirStructure)));
    // a path outside the archive root
    let err = s.unarchive_project_dir(&parse_path("/elsewhere/2024/bp"), entries(), false);
    assert!(matches!(err, Err(StorageError::InvalidDirStructure)));
    // an already-occupied working slot
    let err = s.unarchive_project_dir(&parse_path("/store/archive/2024/bp"), entries(), true);
    assert!(matches!(err, Err(StorageError::ProjectFileExists)));
    // a directory without a record file
    let err = s.unarchive_project_dir(
        &parse_path("/store/archive/2024/bp"),
        vec![parse_path("notes.txt")],
        false,
    );
    assert!(matches!(err, Err(StorageError::ProjectDoesNotExist)));
    // and a good one passes
    let ok = s.unarchive_project_dir(&parse_path("/store/archive/2024/bp"), entries(), false);
    assert_eq!(parts(&ok.unwrap()), vec!["store", "working", "bp"]);
}

#[test]
fn unarchive_many_collects_old_and_new_paths() {
    let s = store();
    let a = Record::new(
        "a".into(),
        None,
        Some(2024),
        None,
        parse_path("/store/archive/2024/a"),
        parse_path("/store/archive/2024/a/a.yml"),
        "a".into(),
        true,
    );
    let b = Record::new(
        "b".into(),
        None,
        Some(2024),
        None,
        parse_path("/store/archive/2024/b"),
        parse_path("/store/archive/2024/b/b.yml"),
        "b".into(),
        true,
    );
    let facts = vec![
        UnarchiveFacts { entries: vec![parse_path("a.yml")], target_exists: false },
        UnarchiveFacts { entries: vec![parse_path("b.yml")], target_exists: false },
    ];
    let moved = s.unarchive_projects(ProjectList::from_vec(vec![a, b]), facts);
    assert_eq!(moved.len(), 4);
    assert_eq!(parts(&moved[0]), vec!["store", "archive", "2024", "a"]);
    assert_eq!(parts(&moved[1]), vec!["store", "working", "a"]);
    assert_eq!(parts(&moved[2]), vec!["store", "archive", "2024", "b"]);
    assert_eq!(parts(&moved[3]), vec!["store", "working", "b"]);
}

#[test]
fn batch_archive_skips_unready_records() {
    let s = store();
    let ready = record("done-deal", None, Some(2024), true);
    let not_ready = record("still-open", None, Some(2024), false);
    let moved = s
        .archive_projects_if(ProjectList::from_vec(vec![ready, not_ready]), None, false)
        .unwrap();
    // only the ready record moves: its directory (twice) and its target
    assert_eq!(moved.len(), 3);
    assert_eq!(parts(&moved[0]), vec!["store", "working", "done-deal"]);
    assert_eq!(parts(&moved[1]), vec!["store", "working", "done-deal"]);
    assert_eq!(parts(&moved[2]), vec!["store", "archive", "2024", "done-deal"]);
}

#[test]
fn batch_archive_with_force_takes_everything() {
    let s = store();
    let not_ready = record("still-open", None, None, false);
    let moved = s
        .archive_projects_if(ProjectList::from_vec(vec![not_ready]), Some(2020), true)
        .unwrap();
    assert_eq!(moved.len(), 3);
    assert_eq!(parts(&moved[2]), vec!["store", "archive", "2020", "still-open"]);
}

#[test]
fn batch_archive_of_nothing_is_an_error() {
    let s = store();
    let err = s.archive_projects_if(ProjectList::from_vec(Vec::new()), None, true);
    assert!(matches!(err, Err(StorageError::ProjectDoesNotExist)));
}

#[test]
fn creation_conflict_leaves_the_existing_directory_alone() {
    let s = store();
    let templates = vec![parse_path("/store/templates/default.tyml")];
    // the name slugifies onto an existing working directory
    let err = s.create_project(
        "Birthday Party",
        "default",
        &Vec::new(),
        true,
        true,
        templates.clone(),
    );
    assert!(matches!(err, Err(StorageError::ProjectDirExists)));
    // with the slot free the record is created under the slugged name
    let (rec, dir, file) = s
        .create_project("Birthday Party", "default", &Vec::new(), true, false, templates)
        .unwrap();
    assert_eq!(parts(&dir), vec!["store", "working", "birthday-party"]);
    assert_eq!(parts(&file), vec!["store", "working", "birthday-party", "birthday-party.yml"]);
    assert_eq!(rec.ident(), "Birthday Party");
}

#[test]
fn creation_needs_working_dir_and_template() {
    let s = store();
    let err = s.create_project("x", "default", &Vec::new(), false, false, Vec::new());
    assert!(matches!(err, Err(StorageError::NoWorkingDir)));
    let err = s.create_project("x", "default", &Vec::new(), true, false, Vec::new());
    assert!(matches!(err, Err(StorageError::TemplateNotFound)));
    let wrong_name = vec![parse_path("/store/templates/other.tyml")];
    let err = s.create_project("x", "default", &Vec::new(), true, false, wrong_name);
    assert!(matches!(err, Err(StorageError::TemplateNotFound)));
}

#[test]
fn deletion_staging_failure_is_fatal() {
    let with_git =
        Storage::<Record>::try_new_with_git(&parse_path("/store"), "working", "archive",
            "templates", "tyml")
            .unwrap();
    assert!(with_git.get_repository().is_ok());
    assert_eq!(with_git.delete_project_if(false, false).unwrap(), false);
    assert_eq!(with_git.delete_project_if(true, true).unwrap(), true);
    let err = with_git.delete_project_if(true, false);
    assert!(matches!(err, Err(StorageError::GitProcessFailed)));
    // without a repository nothing needs staging
    let s = store();
    assert_eq!(s.delete_project_if(true, false).unwrap(), true);
}

#[test]
fn templates_are_found_by_extension_and_stem() {
    let s = store();
    let entries = vec![
        parse_path("/store/templates/default.tyml"),
        parse_path("/store/templates/readme.md"),
        parse_path("/store/templates/fancy.tyml"),
    ];
    let files = s.list_template_files(entries.clone()).unwrap();
    assert_eq!(files.len(), 2);
    let names = s.list_template_names(entries.clone()).unwrap();
    assert_eq!(names, vec!["default", "fancy"]);
    let f = s.get_template_file("fancy", entries.clone()).unwrap();
    assert_eq!(parts(&f), vec!["store", "templates", "fancy.tyml"]);
    assert!(matches!(
        s.get_template_file("missing", entries),
        Err(StorageError::TemplateNotFound)
    ));
    assert!(matches!(
        s.list_template_files(vec![parse_path("/store/templates/readme.md")]),
        Err(StorageError::TemplateNotFound)
    ));
}

#[test]
fn years_are_parsed_and_sorted() {
    let s = store();
    let entries = vec![
        parse_path("/store/archive/2021"),
        parse_path("/store/archive/2019"),
        parse_path("/store/archive/extras"),
        parse_path("/store/archive/2024"),
    ];
    assert_eq!(s.list_years(entries), vec![2019, 2021, 2024]);
}

#[test]
fn folders_listing_respects_the_directory_kind() {
    let s = store();
    let working = vec![parse_path("/store/working/p1"), parse_path("/store/working/.git")];
    let years = vec![
        (2019, vec![parse_path("/store/archive/2019/a")]),
        (2021, vec![parse_path("/store/archive/2021/b"), parse_path("/store/archive/2021/.x")]),
    ];
    let w = s.list_project_folders(StorageDir::Working, working.clone(), years.clone()).unwrap();
    assert_eq!(w.len(), 1);
    assert_eq!(parts(&w[0]), vec!["store", "working", "p1"]);
    let a = s
        .list_project_folders(StorageDir::Archive(2021), working.clone(), years.clone())
        .unwrap();
    assert_eq!(a.len(), 1);
    assert_eq!(parts(&a[0]), vec!["store", "archive", "2021", "b"]);
    let missing = s
        .list_project_folders(StorageDir::Archive(1999), working.clone(), years.clone())
        .unwrap();
    assert_eq!(missing.len(), 0);
    let all = s.list_project_folders(StorageDir::All, working.clone(), years.clone()).unwrap();
    assert_eq!(all.len(), 3);
    assert_eq!(parts(&all[2]), vec!["store", "working", "p1"]);
    assert!(matches!(
        s.list_project_folders(StorageDir::Templates, working, years),
        Err(StorageError::BadChoice)
    ));
}

#[test]
fn record_files_are_spotted_inside_folders() {
    let s = store();
    let good = vec![parse_path("notes.txt"), parse_path("p1.yml")];
    let bad = vec![parse_path("notes.txt")];
    let f = s.get_project_file(good.clone()).unwrap();
    assert_eq!(parts(&f), vec!["p1.yml"]);
    assert!(matches!(s.get_project_file(bad.clone()), Err(StorageError::ProjectDoesNotExist)));

    let folders = vec![parse_path("/store/working/p1"), parse_path("/store/working/p2")];
    let empties = s.list_empty_project_dirs(folders.clone(), vec![good.clone(), bad.clone()]);
    assert_eq!(empties.len(), 1);
    assert_eq!(parts(&empties[0]), vec!["store", "working", "p2"]);

    let files = s.list_project_files(vec![good.clone(), good.clone()]).unwrap();
    assert_eq!(files.len(), 2);
    assert!(matches!(
        s.list_project_files(vec![good, bad]),
        Err(StorageError::ProjectDoesNotExist)
    ));
}

#[test]
fn project_dirs_resolve_by_slug() {
    let s = store();
    let ok = s.get_project_dir("Birthday Party", StorageDir::Working, true, Vec::new()).unwrap();
    assert_eq!(parts(&ok), vec!["store", "working", "birthday-party"]);
    assert!(matches!(
        s.get_project_dir("Birthday Party", StorageDir::Working, false, Vec::new()),
        Err(StorageError::ProjectDoesNotExist)
    ));
    let year_files = vec![
        parse_path("/store/archive/2024/R007_birthday-party/birthday-party.yml"),
        parse_path("/store/archive/2024/other/other.yml"),
    ];
    let found = s
        .get_project_dir("Birthday Party", StorageDir::Archive(2024), true, year_files.clone())
        .unwrap();
    assert_eq!(parts(&found), vec!["store", "archive", "2024", "R007_birthday-party"]);
    assert!(matches!(
        s.get_project_dir("unknown", StorageDir::Archive(2024), true, year_files),
        Err(StorageError::ProjectDoesNotExist)
    ));
    assert!(matches!(
        s.get_project_dir("x", StorageDir::All, true, Vec::new()),
        Err(StorageError::BadChoice)
    ));
}

#[test]
fn archive_by_name_slugs_and_prefixes() {
    let s = store();
    let target = s
        .archive_project_by_name("Birthday Party", 2024, Some("R007".to_string()), true)
        .unwrap();
    assert_eq!(parts(&target), vec!["store", "archive", "2024", "R007_birthday-party"]);
    assert!(matches!(
        s.archive_project_by_name("Birthday Party", 2024, None, false),
        Err(StorageError::ProjectDoesNotExist)
    ));
}

#[test]
fn selection_defaults_and_conversions() {
    match StorageSelection::default() {
        StorageSelection::DirAndSearch(StorageDir::Working, terms) => assert!(terms.is_empty()),
        other => panic!("unexpected default selection: {:?}", other),
    }
    match StorageSelection::from(StorageDir::Extras) {
        StorageSelection::Dir(StorageDir::Extras) => (),
        other => panic!("unexpected conversion: {:?}", other),
    }
}

#[test]
fn resolving_joins_relative_paths_onto_cwd() {
    let config = Config {
        path: Some("projects".into()),
        storage_dir: Some("store".into()),
        working_dir: Some("working".into()),
        archive_dir: Some("archive".into()),
        templates_dir: Some("templates".into()),
        template_extension: Some("tyml".into()),
    };
    let cwd = parse_path("/home/someone");
    let resolved = resolve_storage_path(&config, None, &cwd).unwrap();
    assert_eq!(parts(&resolved), vec!["home", "someone", "projects", "store"]);
    assert!(resolved.is_absolute());

    let mut absolute = config.clone();
    absolute.path = Some("/data/projects".into());
    let resolved = resolve_storage_path(&absolute, None, &cwd).unwrap();
    assert_eq!(parts(&resolved), vec!["data", "projects", "store"]);

    let mut homey = config.clone();
    homey.path = Some("~/projects".into());
    let home = parse_path("/home/other");
    let resolved = resolve_storage_path(&homey, Some(&home), &cwd).unwrap();
    assert_eq!(parts(&resolved), vec!["home", "other", "projects", "store"]);
    match resolve_storage_path(&homey, None, &cwd) {
        Err(StorageError::FaultyConfig(k)) => assert_eq!(k, "home"),
        other => panic!("expected a missing home error, got {:?}", other),
    }

    let mut broken = config;
    broken.path = None;
    match resolve_storage_path(&broken, None, &cwd) {
        Err(StorageError::FaultyConfig(k)) => assert_eq!(k, "path"),
        other => panic!("expected a missing path error, got {:?}", other),
    }
}

#[test]
fn setup_reports_each_missing_key() {
    let full = Config {
        path: Some("p".into()),
        storage_dir: Some("s".into()),
        working_dir: Some("working".into()),
        archive_dir: Some("archive".into()),
        templates_dir: Some("templates".into()),
        template_extension: Some("tyml".into()),
    };
    let root = parse_path("/store");
    let s: Storage<Record> = setup(&full, &root, &all_present()).unwrap();
    assert_eq!(parts(s.working_dir()), vec!["store", "working"]);

    let mut c = full.clone();
    c.working_dir = None;
    match setup::<Record>(&c, &root, &all_present()) {
        Err(StorageError::FaultyConfig(k)) => assert_eq!(k, "dirs/working"),
        other => panic!("expected a config error, got {:?}", other),
    }
    let mut c = full.clone();
    c.archive_dir = None;
    match setup::<Record>(&c, &root, &all_present()) {
        Err(StorageError::FaultyConfig(k)) => assert_eq!(k, "dirs/archive"),
        other => panic!("expected a config error, got {:?}", other),
    }
    let mut c = full.clone();
    c.templates_dir = None;
    match setup::<Record>(&c, &root, &all_present()) {
        Err(StorageError::FaultyConfig(k)) => assert_eq!(k, "dirs/templates"),
        other => panic!("expected a config error, got {:?}", other),
    }
    let missing = DirsPresent { root: true, working: false, archive: true, templates: true };
    assert!(matches!(
        setup::<Record>(&full, &root, &missing),
        Err(StorageError::InvalidDirStructure)
    ));
    assert!(matches!(
        setup::<Record>(&full, &parse_path("rel"), &all_present()),
        Err(StorageError::StoragePathNotAbsolute)
    ));
}

#[test]
fn storage_path_uses_the_platform_home() {
    let config = Config {
        path: Some("~/projects".into()),
        storage_dir: Some("store".into()),
        working_dir: None,
        archive_dir: None,
        templates_dir: None,
        template_extension: None,
    };
    let cwd = parse_path("/cwd");
    match asciii::config::get_storage_path(&config, &cwd) {
        Ok(resolved) => {
            let home = dirs::home_dir().expect("a home directory was used for resolution");
            let mut expected: Vec<String> = home
                .to_str()
                .unwrap()
                .split('/')
                .filter(|s| !s.is_empty())
                .map(|s| s.to_string())
                .collect();
            expected.push("projects".into());
            expected.push("store".into());
            assert_eq!(parts(&resolved), expected);
        },
        Err(StorageError::FaultyConfig(k)) => assert_eq!(k, "home"),
        Err(other) => panic!("unexpected resolution error: {:?}", other),
    }
}
