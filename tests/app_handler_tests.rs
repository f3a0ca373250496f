use app_handler::global_config::find_config;
use app_handler::resource::decimal_string;
use app_handler::handler::{AppDetail, AppHandler, AppHandlerEvent, ConfigFile};
use app_handler::{
    remove_from_launcher_global_config, upsert_to_launcher_global_config, AppId, DirKey, DirectoryListing, FileEntry, LauncherConfiguration,
    LauncherError, LocalCache, LocalEntry, SubDirectory,
};

fn id(b: u8) -> AppId {
    AppId::new(vec![b; 64])
}

fn key(b: u8) -> DirKey {
    DirKey::new(vec![b; 8])
}

fn row(app: u8, name: &str, count: u64, k: u8) -> LauncherConfiguration {
    LauncherConfiguration {
        app_id: id(app),
        app_name: name.to_string(),
        reference_count: count,
        app_root_dir_key: key(k),
        safe_drive_access: false,
    }
}

fn sub_dir(name: &str, k: u8) -> SubDirectory {
    SubDirectory { name: name.to_string(), key: key(k) }
}

fn listing(dirs: Vec<SubDirectory>) -> DirectoryListing {
    DirectoryListing { files: Vec::new(), sub_directories: dirs }
}

fn handler() -> AppHandler {
    AppHandler::new("127.0.0.1:5000".to_string(), LocalCache::new())
}

fn detail(path: &str) -> AppDetail {
    AppDetail { absolute_path: path.to_string(), safe_drive_access: true }
}

fn cache_pairs(c: &LocalCache) -> Vec<(Vec<u8>, String)> {
    c.to_entries().into_iter().map(|e| (e.app_id.bytes, e.path)).collect()
}

#[test]
fn tokenise_keeps_non_empty_segments() {
    assert_eq!(AppHandler::tokenise_string("/apps/editor"), vec!["apps".to_string(), "editor".to_string()]);
    assert_eq!(AppHandler::tokenise_string("//a//b/"), vec!["a".to_string(), "b".to_string()]);
    assert_eq!(AppHandler::tokenise_string("plain"), vec!["plain".to_string()]);
    assert!(AppHandler::tokenise_string("").is_empty());
    assert!(AppHandler::tokenise_string("///").is_empty());
}

#[test]
fn dir_name_on_empty_root_uses_index_zero() {
    let l = listing(Vec::new());
    assert_eq!(AppHandler::get_app_dir_name(&"editor".to_string(), &l), "editor-0-Root-Dir");
}

#[test]
fn dir_name_skips_taken_names() {
    let l = listing(vec![sub_dir("editor-0-Root-Dir", 1), sub_dir("editor-1-Root-Dir", 2), sub_dir("other", 3)]);
    assert_eq!(AppHandler::get_app_dir_name(&"editor".to_string(), &l), "editor-2-Root-Dir");
}

#[test]
fn dir_name_takes_first_gap() {
    let l = listing(vec![sub_dir("editor-1-Root-Dir", 2)]);
    assert_eq!(AppHandler::get_app_dir_name(&"editor".to_string(), &l), "editor-0-Root-Dir");
}

#[test]
fn dir_name_reaches_two_digits() {
    let dirs: Vec<SubDirectory> = (0..10).map(|i| sub_dir(&format!("viewer-{}-Root-Dir", i), i as u8)).collect();
    let l = listing(dirs);
    let name = AppHandler::get_app_dir_name(&"viewer".to_string(), &l);
    assert_eq!(name, "viewer-10-Root-Dir");
    assert!(l.find_sub_directory(&name).is_none());
}

#[test]
fn find_sub_directory_by_exact_name() {
    let l = listing(vec![sub_dir("a-0-Root-Dir", 1), sub_dir("b-0-Root-Dir", 2)]);
    assert_eq!(l.find_sub_directory(&"b-0-Root-Dir".to_string()), Some(1));
    assert_eq!(l.find_sub_directory(&"b-0-Root-Di".to_string()), None);
}

#[test]
fn upsert_appends_new_row() {
    let mut rows = vec![row(1, "a", 1, 1)];
    upsert_to_launcher_global_config(&mut rows, row(2, "b", 1, 2));
    assert_eq!(rows.len(), 2);
    assert_eq!(rows[1].app_name, "b");
}

#[test]
fn upsert_replaces_row_with_same_id() {
    let mut rows = vec![row(1, "a", 1, 1), row(2, "b", 1, 2)];
    upsert_to_launcher_global_config(&mut rows, row(1, "renamed", 4, 9));
    assert_eq!(rows.len(), 2);
    assert_eq!(rows[0].app_name, "renamed");
    assert_eq!(rows[0].reference_count, 4);
    assert_eq!(rows[0].app_root_dir_key.bytes, vec![9u8; 8]);
    assert_eq!(rows[1].app_name, "b");
}

#[test]
fn release_last_reference_removes_row_and_returns_key() {
    let mut rows = vec![row(1, "a", 1, 7), row(2, "b", 1, 8)];
    let r = remove_from_launcher_global_config(&mut rows, &id(1));
    assert_eq!(r.unwrap().unwrap().bytes, vec![7u8; 8]);
    assert_eq!(rows.len(), 1);
    assert_eq!(rows[0].app_name, "b");
}

#[test]
fn release_shared_reference_decrements() {
    let mut rows = vec![row(1, "a", 3, 7)];
    let r = remove_from_launcher_global_config(&mut rows, &id(1));
    assert!(r.unwrap().is_none());
    assert_eq!(rows[0].reference_count, 2);
}

#[test]
fn release_k_references_deletes_on_the_last() {
    let k = 4u64;
    let mut rows = vec![row(5, "shared", k, 6)];
    for n in 1..k {
        let r = remove_from_launcher_global_config(&mut rows, &id(5));
        assert!(r.unwrap().is_none());
        assert_eq!(rows[0].reference_count, k - n);
    }
    assert_eq!(rows[0].reference_count, 1);
    let r = remove_from_launcher_global_config(&mut rows, &id(5));
    assert_eq!(r.unwrap().unwrap().bytes, vec![6u8; 8]);
    assert!(rows.is_empty());
}

#[test]
fn release_missing_row_is_logic_error() {
    let mut rows = vec![row(1, "a", 1, 1)];
    let r = remove_from_launcher_global_config(&mut rows, &id(2));
    assert_eq!(r.err(), Some(LauncherError::LogicError));
    assert_eq!(rows.len(), 1);
}

#[test]
fn release_zero_count_is_logic_error() {
    let mut rows = vec![row(1, "a", 0, 1)];
    let r = remove_from_launcher_global_config(&mut rows, &id(1));
    assert_eq!(r.err(), Some(LauncherError::LogicError));
    assert_eq!(rows[0].reference_count, 0);
}

#[test]
fn find_config_gives_first_match() {
    let rows = vec![row(1, "a", 1, 1), row(2, "b", 1, 2), row(2, "c", 1, 3)];
    assert_eq!(find_config(&rows, &id(2)), Some(1));
    assert_eq!(find_config(&rows, &id(3)), None);
}

#[test]
fn local_cache_insert_get_remove() {
    let mut c = LocalCache::new();
    c.insert(id(1), "/x/a".to_string());
    c.insert(id(2), "/x/b".to_string());
    c.insert(id(1), "/x/c".to_string());
    assert_eq!(c.get(&id(1)).map(|s| s.as_str()), Some("/x/c"));
    assert!(c.has_path(&"/x/b".to_string()));
    assert!(!c.has_path(&"/x/a".to_string()));
    c.remove(&id(2));
    assert_eq!(c.get(&id(2)), None);
    assert_eq!(cache_pairs(&c).len(), 1);
}

#[test]
fn local_cache_entries_round_trip() {
    let mut c = LocalCache::new();
    c.insert(id(1), "/apps/editor".to_string());
    c.insert(id(2), "/apps/viewer".to_string());
    let reloaded = LocalCache::from_entries(&c.to_entries());
    let mut a = cache_pairs(&c);
    let mut b = cache_pairs(&reloaded);
    a.sort();
    b.sort();
    assert_eq!(a, b);
    assert_eq!(a.len(), 2);
}

#[test]
fn local_cache_from_entries_later_wins() {
    let entries = vec![
        LocalEntry { app_id: id(1), path: "/old".to_string() },
        LocalEntry { app_id: id(1), path: "/new".to_string() },
    ];
    let c = LocalCache::from_entries(&entries);
    assert_eq!(c.get(&id(1)).map(|s| s.as_str()), Some("/new"));
    assert_eq!(cache_pairs(&c).len(), 1);
}

#[test]
fn adding_same_path_twice_registers_once() {
    let mut h = handler();
    let mut rows: Vec<LauncherConfiguration> = Vec::new();
    let name = h.on_add_app(&detail("/apps/editor"), id(1));
    assert_eq!(name.as_deref(), Some("editor"));
    upsert_to_launcher_global_config(&mut rows, AppHandler::new_launcher_config(id(1), name.unwrap(), key(1), true));
    let again = h.on_add_app(&detail("/apps/editor"), id(2));
    assert!(again.is_none());
    let pairs = cache_pairs(h.local_config_data());
    assert_eq!(pairs, vec![(vec![1u8; 64], "/apps/editor".to_string())]);
    assert_eq!(rows.len(), 1);
}

#[test]
fn removing_unknown_app_is_logic_error_and_clears_local() {
    let mut h = handler();
    let _ = h.on_add_app(&detail("/apps/editor"), id(1));
    let mut rows = vec![row(9, "other", 1, 9)];
    let r = h.on_remove_app(&id(1), &mut rows);
    assert_eq!(r.err(), Some(LauncherError::LogicError));
    assert!(h.local_config_data().get(&id(1)).is_none());
    assert_eq!(rows.len(), 1);
}

#[test]
fn activation_needs_row_and_local_path() {
    let mut h = handler();
    let _ = h.on_add_app(&detail("/apps/editor"), id(1));
    let rows = vec![row(2, "other", 1, 2)];
    assert!(h.on_activate_app(&id(1), &rows, "n".to_string()).is_none());
    assert!(h.on_activate_app(&id(2), &rows, "n".to_string()).is_none());
}

#[test]
fn add_activate_remove_end_to_end() {
    let mut h = handler();
    let mut rows: Vec<LauncherConfiguration> = Vec::new();
    let root = listing(Vec::new());
    let x = id(42);

    let name = h.on_add_app(&detail("/apps/editor"), x.clone()).unwrap();
    assert_eq!(name, "editor");
    assert_eq!(cache_pairs(h.local_config_data()), vec![(vec![42u8; 64], "/apps/editor".to_string())]);
    let dir_name = AppHandler::get_app_dir_name(&name, &root);
    assert_eq!(dir_name, "editor-0-Root-Dir");
    upsert_to_launcher_global_config(&mut rows, AppHandler::new_launcher_config(x.clone(), name, key(3), true));
    assert_eq!(rows.len(), 1);
    assert_eq!(rows[0].app_id.bytes, vec![42u8; 64]);
    assert_eq!(rows[0].app_name, "editor");
    assert_eq!(rows[0].reference_count, 1);

    let nonce = "abcdefghijklmnopqrstuvwxyz012345".to_string();
    let a = h.on_activate_app(&x, &rows, nonce.clone()).unwrap();
    assert_eq!(a.detail.nonce, nonce);
    assert_eq!(a.detail.nonce.len(), 32);
    assert_eq!(a.detail.app_id.bytes, vec![42u8; 64]);
    assert_eq!(a.detail.app_root_dir_key.bytes, vec![3u8; 8]);
    assert!(a.detail.safe_drive_access);
    assert_eq!(a.program, "/apps/editor");
    assert_eq!(a.args, vec!["--launcher".to_string(), format!("tcp:127.0.0.1:5000:{}", nonce)]);

    let r = h.on_remove_app(&x, &mut rows).unwrap();
    assert_eq!(r.unwrap().bytes, vec![3u8; 8]);
    assert!(rows.is_empty());
    assert!(cache_pairs(h.local_config_data()).is_empty());
}

#[test]
fn global_config_file_lookup() {
    let mut l = listing(Vec::new());
    assert_eq!(AppHandler::get_launcher_global_config_and_dir(&l, "launcher.cfg"), Err(LauncherError::NotFound));
    l.files.push(FileEntry { name: "launcher.cfg".to_string(), size: 0 });
    assert_eq!(AppHandler::get_launcher_global_config_and_dir(&l, "launcher.cfg"), Ok(ConfigFile::Empty));
    l.files.insert(0, FileEntry { name: "other".to_string(), size: 5 });
    l.files[1].size = 12;
    assert_eq!(AppHandler::get_launcher_global_config_and_dir(&l, "launcher.cfg"), Ok(ConfigFile::Stored(1)));
}

#[test]
fn run_stops_on_terminate_only() {
    assert!(!AppHandler::run(&AppHandlerEvent::Terminate));
    assert!(AppHandler::run(&AppHandlerEvent::RemoveApp(id(1))));
    assert!(AppHandler::run(&AppHandlerEvent::AddApp(detail("/a"))));
}

#[test]
fn path_without_segment_is_not_registered() {
    let mut h = handler();
    assert!(h.on_add_app(&detail("///"), id(1)).is_none());
    assert!(h.on_add_app(&detail(""), id(2)).is_none());
    assert!(cache_pairs(h.local_config_data()).is_empty());
}

#[test]
fn decimal_string_of_numbers() {
    assert_eq!(decimal_string(0), "0");
    assert_eq!(decimal_string(7), "7");
    assert_eq!(decimal_string(10), "10");
    assert_eq!(decimal_string(1203), "1203");
    assert_eq!(decimal_string(usize::MAX), usize::MAX.to_string());
}
