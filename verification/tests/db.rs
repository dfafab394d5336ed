use poki_launcher::score::{
    effective_score, update_frecency, DEFAULT_HALF_LIFE_MS, SCALE,
};
use poki_launcher::{App, AppsDB, DBItem, File, FrecencyDB, FrecencyDBError, ListItem};

fn test_apps() -> Vec<App> {
    vec![
        App::new(
            "Test1".to_owned(),
            "icon".to_owned(),
            "/bin/test".to_owned(),
            false,
        ),
        App::new(
            "Test2".to_owned(),
            "icon".to_owned(),
            "/bin/test".to_owned(),
            false,
        ),
    ]
}

#[test]
fn merge_new_entries_identical() {
    let apps = test_apps();
    let mut apps_db = AppsDB::new(apps.clone(), 1_000_000);
    apps_db.merge_new_entries(apps.clone());
    assert_eq!(apps, apps_db.items());
}

#[test]
fn merge_new_entries_remove() {
    let mut apps = test_apps();
    let mut apps_db = AppsDB::new(apps.clone(), 1_000_000);
    apps.remove(0);
    apps_db.merge_new_entries(apps.clone());
    assert_eq!(apps, apps_db.items());
}

#[test]
fn merge_new_entries_add() {
    let mut apps = vec![App::new(
        "Test1".to_owned(),
        "icon".to_owned(),
        "/bin/test".to_owned(),
        false,
    )];
    let mut apps_db = AppsDB::new(apps.clone(), 1_000_000);
    apps.push(App::new(
        "Test2".to_owned(),
        "icon".to_owned(),
        "/bin/test".to_owned(),
        false,
    ));
    apps_db.merge_new_entries(apps.clone());
    assert_eq!(apps, apps_db.items());
}

#[test]
fn merge_preserves_scores_of_survivors() {
    let apps = test_apps();
    let now = 1_000_000;
    let mut db = AppsDB::new(apps.clone(), now);
    let id = apps[0].identity();
    db.update_score(id, 2, now).unwrap();
    // a rescan finds the first app again, plus a new one, but not the second
    let rescan = vec![
        apps[0].clone(),
        App::new(
            "Test3".to_owned(),
            "icon".to_owned(),
            "/bin/test3".to_owned(),
            false,
        ),
    ];
    db.merge_new_entries(rescan.clone());
    assert_eq!(rescan, db.items());
    let kept = db.get_by_id(id).expect("surviving app lost its record");
    assert_eq!(kept.item, apps[0]);
    assert_eq!(db.records[0].id, id);
    assert_eq!(db.records[0].score, 2 * SCALE);
    assert_eq!(db.records[1].score, 0);
}

#[test]
fn new_db_defaults() {
    let db = AppsDB::new(test_apps(), 42);
    assert_eq!(db.reference_time(), 42);
    assert_eq!(db.half_life(), DEFAULT_HALF_LIFE_MS);
    assert_eq!(db.items().len(), 2);
}

#[test]
fn new_db_collapses_duplicates() {
    let mut apps = test_apps();
    apps.push(apps[0].clone());
    let db = AppsDB::new(apps, 42);
    assert_eq!(db.items().len(), 2);
}

#[test]
fn identity_is_stable_and_content_based() {
    let a = App::new("A".to_owned(), "i".to_owned(), "/bin/a".to_owned(), false);
    let b = App::new("A".to_owned(), "i".to_owned(), "/bin/a".to_owned(), true);
    let c = App::new("B".to_owned(), "i".to_owned(), "/bin/a".to_owned(), false);
    // the terminal flag is not part of the identity, the name is
    assert_eq!(a.identity(), b.identity());
    assert_ne!(a.identity(), c.identity());
}

#[test]
fn update_score_at_reference_time_adds_weight() {
    let now = 1_000_000;
    let mut db = AppsDB::new(test_apps(), now);
    let id = db.items()[0].identity();
    db.update_score(id, 1, now).unwrap();
    assert_eq!(db.records[0].score, SCALE);
    db.update_score(id, 1, now).unwrap();
    assert_eq!(db.records[0].score, 2 * SCALE);
}

#[test]
fn update_score_unknown_id_is_not_found() {
    let now = 1_000_000;
    let mut db = AppsDB::new(test_apps(), now);
    let r = db.update_score(12345, 1, now);
    assert!(matches!(r, Err(FrecencyDBError::NotFound)));
    assert_eq!(db.items(), test_apps());
}

#[test]
fn effective_score_halves_after_half_life() {
    let hl = DEFAULT_HALF_LIFE_MS;
    assert_eq!(effective_score(5000, hl, hl), 2500);
    assert_eq!(effective_score(5000, 2 * hl, hl), 1250);
    assert_eq!(effective_score(5000, 0, hl), 5000);
}

#[test]
fn update_frecency_reexpresses_at_reference_time() {
    let hl = DEFAULT_HALF_LIFE_MS;
    // one half-life out: 1000 decays to 500, plus a weight of one launch,
    // re-expressed at the reference time: (500 + 1000) * 2
    assert_eq!(update_frecency(1000, 1, hl, hl), 3000);
    assert_eq!(update_frecency(1000, 1, 0, hl), 2000);
}

#[test]
fn get_by_id_finds_and_misses() {
    let apps = test_apps();
    let db = AppsDB::new(apps.clone(), 7);
    let id = apps[1].identity();
    let cont = db.get_by_id(id).expect("stored app not found by id");
    assert_eq!(cont.id, id);
    assert_eq!(cont.item, apps[1]);
    assert!(db.get_by_id(999).is_none());
}

#[test]
fn ranking_order() {
    let now = 1_000_000;
    let apps = vec![
        App::new("Firefox".to_owned(), "i".to_owned(), "firefox".to_owned(), false),
        App::new("Files".to_owned(), "i".to_owned(), "files".to_owned(), false),
        App::new("Filet".to_owned(), "i".to_owned(), "filet".to_owned(), false),
    ];
    let mut db = AppsDB::new(apps.clone(), now);
    db.update_score(apps[0].identity(), 5, now).unwrap();
    let ranked = db.get_ranked_list("fi", None, now);
    assert_eq!(ranked.len(), 3);
    assert_eq!(ranked[0].item.name, "Firefox");
    // the two score-zero apps follow in relevance order, insertion order on a tie
    let rel_files = fuzzy_matcher::skim::fuzzy_match("Files", "fi").unwrap();
    let rel_filet = fuzzy_matcher::skim::fuzzy_match("Filet", "fi").unwrap();
    assert!(rel_files > 0 && rel_filet > 0);
    if rel_filet > rel_files {
        assert_eq!(ranked[1].item.name, "Filet");
        assert_eq!(ranked[2].item.name, "Files");
    } else {
        assert_eq!(ranked[1].item.name, "Files");
        assert_eq!(ranked[2].item.name, "Filet");
    }
}

#[test]
fn ranking_respects_limit() {
    let now = 1_000_000;
    let apps = vec![
        App::new("Firefox".to_owned(), "i".to_owned(), "firefox".to_owned(), false),
        App::new("Files".to_owned(), "i".to_owned(), "files".to_owned(), false),
    ];
    let mut db = AppsDB::new(apps.clone(), now);
    db.update_score(apps[0].identity(), 5, now).unwrap();
    let ranked = db.get_ranked_list("fi", Some(1), now);
    assert_eq!(ranked.len(), 1);
    assert_eq!(ranked[0].item.name, "Firefox");
}

#[test]
fn ranking_drops_non_matches() {
    let now = 1_000_000;
    let db = AppsDB::new(test_apps(), now);
    let ranked = db.get_ranked_list("zzz", None, now);
    assert!(ranked.is_empty());
}

#[test]
fn empty_search_matches_nothing() {
    let now = 1_000_000;
    let db = AppsDB::new(test_apps(), now);
    let ranked = db.get_ranked_list("", None, now);
    assert!(ranked.is_empty());
}

#[test]
fn save_load_round_trip() {
    let now = 1_000_000;
    let mut db = AppsDB::new(test_apps(), now);
    let id = db.items()[0].identity();
    db.update_score(id, 3, now).unwrap();
    let bytes = db.save();
    let loaded = AppsDB::load(bytes.as_slice()).expect("saved database failed to load");
    assert_eq!(loaded.reference_time(), db.reference_time());
    assert_eq!(loaded.half_life(), db.half_life());
    assert_eq!(loaded.items(), db.items());
    assert_eq!(loaded.records.len(), db.records.len());
    for k in 0..db.records.len() {
        assert_eq!(loaded.records[k].id, db.records[k].id);
        assert_eq!(loaded.records[k].score, db.records[k].score);
    }
}

#[test]
fn load_rejects_corrupt_input() {
    let r = AppsDB::load(&[1, 2, 3]);
    assert!(matches!(r, Err(poki_launcher::AppDBError::ParseDB(_))));
    // a truncated but well-started image fails too
    let db = AppsDB::new(test_apps(), 9);
    let bytes = db.save();
    let r2 = AppsDB::load(&bytes[..bytes.len() - 1]);
    assert!(r2.is_err());
    // trailing garbage is rejected
    let mut longer = bytes.clone();
    longer.push(0);
    assert!(AppsDB::load(longer.as_slice()).is_err());
}

#[test]
fn list_item_from_container() {
    let db = AppsDB::new(test_apps(), 9);
    let id = db.items()[0].identity();
    let cont = db.get_by_id(id).unwrap();
    let li = ListItem::from(cont);
    assert_eq!(li.name, "Test1");
    assert_eq!(li.icon, "icon");
    assert_eq!(li.id, id);
}

#[test]
fn error_messages_name_the_file() {
    let e = FrecencyDBError::FileOpen("/tmp/x.db".to_owned());
    assert!(e.message().contains("/tmp/x.db"));
    let e2 = poki_launcher::AppDBError::ParseDB("/tmp/x.db".to_owned());
    assert!(e2.message().contains("parsing"));
}

#[test]
fn files_db_ranks_and_merges() {
    let now = 1_000_000;
    let files = vec![
        File { name: "notes.txt".to_owned(), path: "/home/u/notes.txt".to_owned() },
        File { name: "music.ogg".to_owned(), path: "/home/u/music.ogg".to_owned() },
    ];
    let mut db: FrecencyDB<File> = FrecencyDB::new(files.clone(), now);
    db.update_score(files[0].identity(), 1, now).unwrap();
    let ranked = db.get_ranked_list("notes", None, now);
    assert_eq!(ranked.len(), 1);
    assert_eq!(ranked[0].item.name, "notes.txt");
    // a renamed file at the same path is the same item
    let renamed = File { name: "notes-old.txt".to_owned(), path: "/home/u/notes.txt".to_owned() };
    assert_eq!(renamed, files[0]);
    db.merge_new_entries(vec![renamed]);
    assert_eq!(db.items().len(), 1);
    assert_eq!(db.records[0].score, 1000);
}

#[test]
fn launches_push_an_app_up_the_ranking() {
    let now = 1_000_000;
    let apps = vec![
        App::new("Filet".to_owned(), "i".to_owned(), "filet".to_owned(), false),
        App::new("Files".to_owned(), "i".to_owned(), "files".to_owned(), false),
    ];
    let mut db = AppsDB::new(apps.clone(), now);
    let before = db.get_ranked_list("fil", None, now);
    assert_eq!(before.len(), 2);
    // boost whichever app ranked last; it must come first afterwards
    let last = before[1].item.clone();
    db.update_score(last.identity(), 100, now).unwrap();
    let after = db.get_ranked_list("fil", None, now);
    assert_eq!(after.len(), 2);
    assert_eq!(after[0].item, last);
}
