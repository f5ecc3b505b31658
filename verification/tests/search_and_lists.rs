use asciii::error::StorageError;
use asciii::paths::parse_path;
use asciii::project_list::ProjectList;
use asciii::record::{str_contains, Record};
use asciii::storable::{GitStatus, Storable};
use asciii::storage::{Storage, StorageDir, StorageSelection};

fn store() -> Storage<Record> {
    Storage::try_new(&parse_path("/store"), "working", "archive", "templates", "tyml").unwrap()
}

fn indexed(ident: &str, index: Option<&str>, text: &str) -> Record {
    let dir = parse_path("/store/working").join(ident);
    let file = dir.join(&format!("{}.yml", ident));
    Record::new(
        ident.to_string(),
        None,
        Some(2024),
        index.map(|i| i.to_string()),
        dir,
        file,
        text.to_string(),
        true,
    )
}

fn idents(list: &ProjectList<Record>) -> Vec<String> {
    let mut out = Vec::new();
    let mut i = 0;
    while i < list.len() {
        out.push(list.get(i).ident());
        i += 1;
    }
    out
}

#[test]
fn substring_search_is_case_insensitive_on_the_term() {
    let s = store();
    let batch = ProjectList::from_vec(vec![
        indexed("alpha", Some("R1"), "alice in wonderland"),
        indexed("beta", Some("R2"), "bob the builder"),
    ]);
    // the term is lowercased before matching
    let found = s.search_projects(batch, "ALICE");
    assert_eq!(idents(&found), vec!["alpha"]);
}

#[test]
fn positional_search_picks_from_the_sorted_batch() {
    let s = store();
    // stored out of order; indices place them as first, middle, last
    let batch = ProjectList::from_vec(vec![
        indexed("charlie", Some("R030"), "third"),
        indexed("alpha", Some("R010"), "first"),
        indexed("beta", Some("R020"), "second"),
    ]);
    let found = s.search_projects(batch, "N2");
    assert_eq!(idents(&found), vec!["beta"]);
}

#[test]
fn records_without_an_index_sort_last() {
    let s = store();
    let batch = ProjectList::from_vec(vec![
        indexed("unnumbered", None, "no index at all"),
        indexed("numbered", Some("R001"), "has one"),
    ]);
    let found = s.search_projects(batch, "N2");
    assert_eq!(idents(&found), vec!["unnumbered"]);
}

#[test]
fn equal_indices_keep_their_original_order() {
    let s = store();
    let batch = ProjectList::from_vec(vec![
        indexed("first-in", Some("R010"), "a"),
        indexed("second-in", Some("R010"), "b"),
        indexed("third-in", Some("R005"), "c"),
    ]);
    // the sort is stable: the shared index keeps insertion order
    let found = s.search_projects(batch, "N2");
    assert_eq!(idents(&found), vec!["first-in"]);
}

#[test]
fn positional_terms_also_match_as_text() {
    let s = store();
    let batch = ProjectList::from_vec(vec![
        indexed("alpha", Some("R010"), "plain"),
        indexed("beta", Some("R020"), "plain"),
        indexed("gamma", Some("R030"), "about n2 and more"),
    ]);
    // `N2` picks position two and also any record whose text holds `n2`
    let found = s.search_projects(batch, "N2");
    assert_eq!(idents(&found), vec!["beta", "gamma"]);
}

#[test]
fn term_union_keeps_per_term_order_without_deduplication() {
    let s = store();
    let batch = || {
        ProjectList::from_vec(vec![
            indexed("a", Some("R1"), "alice"),
            indexed("b", Some("R2"), "bob"),
            indexed("c", Some("R3"), "charlie"),
        ])
    };
    let terms = vec!["alice".to_string(), "bob".to_string()];
    let found = s.search_projects_any(vec![batch(), batch()], &terms);
    assert_eq!(idents(&found), vec!["a", "b"]);
    // a record matching both terms is reported once per term
    let both = vec!["ali".to_string(), "ice".to_string()];
    let found = s.search_projects_any(vec![batch(), batch()], &both);
    assert_eq!(idents(&found), vec!["a", "a"]);
}

#[test]
fn selection_search_reports_nothing_found() {
    let s = store();
    let terms = vec!["nobody".to_string()];
    let selection = StorageSelection::DirAndSearch(StorageDir::Working, terms);
    let batch = ProjectList::from_vec(vec![indexed("a", Some("R1"), "alice")]);
    match s.open_projects(&selection, vec![batch]) {
        Err(StorageError::NothingFound(ts)) => assert_eq!(ts, vec!["nobody".to_string()]),
        other => panic!("expected nothing to be found, got {:?}", other.map(|l| idents(&l))),
    }
    let bare = StorageSelection::Dir(StorageDir::Working);
    let batch = ProjectList::from_vec(vec![indexed("a", Some("R1"), "alice")]);
    let passed = s.open_projects(&bare, vec![batch]).unwrap();
    assert_eq!(idents(&passed), vec!["a"]);
}

#[test]
fn year_selection_filters_both_sources() {
    let s = store();
    let archived = ProjectList::from_vec(vec![indexed("old", Some("R1"), "archived record")]);
    let fresh = indexed("fresh", Some("R2"), "working record");
    let other = Record::new(
        "elsewhere".to_string(),
        None,
        Some(1999),
        None,
        parse_path("/store/working/elsewhere"),
        parse_path("/store/working/elsewhere/elsewhere.yml"),
        "elsewhere".to_string(),
        false,
    );
    let working = ProjectList::from_vec(vec![fresh, other]);
    let of_year = s.open_projects_dir(2024, archived, working);
    assert_eq!(idents(&of_year), vec!["old", "fresh"]);
}

#[test]
fn grouping_by_year_keeps_insertion_order() {
    let s = store();
    let years = vec![2019, 2021];
    let lists = vec![
        ProjectList::from_vec(vec![indexed("old", Some("R1"), "t")]),
        ProjectList::from_vec(vec![indexed("new", Some("R2"), "t")]),
    ];
    let grouped = s.open_all_archived_projects(&years, lists);
    assert_eq!(grouped.years(), vec![2019, 2021]);
    assert_eq!(grouped.len(), 2);
    let found = grouped.get(2021).expect("the grouped year is present");
    assert_eq!(idents(found), vec!["new"]);
    assert!(grouped.get(2018).is_none());
    let working = ProjectList::from_vec(vec![indexed("w", Some("R3"), "t")]);
    let all = s.open_all_projects(working, grouped);
    assert_eq!(idents(&all.working), vec!["w"]);
    assert_eq!(all.archive.years(), vec![2019, 2021]);
}

#[test]
fn status_annotation_keeps_order_and_length() {
    let list = ProjectList::from_vec(vec![
        indexed("a", Some("R1"), "t"),
        indexed("b", Some("R2"), "t"),
    ]);
    let statuses = vec![GitStatus::Clean, GitStatus::Modified];
    let annotated = list.annotate_git_statuses(&statuses);
    assert_eq!(idents(&annotated), vec!["a", "b"]);
    assert_eq!(annotated.get(0).git_status(), Some(GitStatus::Clean));
    assert_eq!(annotated.get(1).git_status(), Some(GitStatus::Modified));
}

#[test]
fn filtering_project_files_runs_the_callers_test() {
    let s = store();
    let files = vec![parse_path("/w/a/a.yml"), parse_path("/w/b/b.yml")];
    let kept = s.filter_project_files(files, |p| p.components()[1] == "b");
    assert_eq!(kept.len(), 1);
    assert_eq!(kept[0].components()[1], "b");
}

#[test]
fn substring_matching_finds_inner_runs() {
    assert!(str_contains("alice in wonderland", "ice"));
    assert!(str_contains("alice", ""));
    assert!(!str_contains("alice", "alicey"));
    assert!(!str_contains("", "a"));
    let r = indexed("a", None, "some lowered text");
    assert!(r.matches_search("lowered"));
    assert!(!r.matches_search("LOWERED"));
}
