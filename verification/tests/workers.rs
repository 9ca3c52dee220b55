use vac_downloader_gui::cache::StalenessCache;
use vac_downloader_gui::models::{OperationStatus, VacEntry, VacEntryWithSelection};
use vac_downloader_gui::status::StatusRegister;
use vac_downloader_gui::table::EntryTable;
use vac_downloader_gui::workers::{
    check_needs_update_finish, delete_selected_begin, delete_selected_item, delete_vac_begin,
    delete_vac_finish, download_all_begin, download_selected_begin, download_synced,
    fetch_vac_list_begin, fetch_vac_list_finish, relisted, save_config_reinitialized,
    save_config_saved, take_listing, update_vac_begin, update_vac_synced, Failure,
};

fn entry(oaci: &str, city: &str, local: bool) -> VacEntry {
    VacEntry { oaci: oaci.to_string(), city: city.to_string(), available_locally: local }
}

fn row(oaci: &str, city: &str, local: bool, selected: bool) -> VacEntryWithSelection {
    VacEntryWithSelection { entry: entry(oaci, city, local), selected }
}

fn table_of(rows: Vec<VacEntryWithSelection>) -> EntryTable {
    let mut table = EntryTable::new();
    table.replace_all(rows);
    table
}

fn strings(items: &[&str]) -> Vec<String> {
    items.iter().map(|s| s.to_string()).collect()
}

fn busy_with(status: OperationStatus) -> StatusRegister {
    let mut register = StatusRegister::new();
    register.set(status);
    register
}

#[test]
fn each_failure_has_its_message() {
    assert_eq!(Failure::Listing.message("no route"), "Failed to fetch list: no route");
    assert_eq!(Failure::Download.message("timeout"), "Download failed: timeout");
    assert_eq!(Failure::Update.message("timeout"), "Update failed: timeout");
    assert_eq!(Failure::Delete.message("locked"), "Delete failed: locked");
    assert_eq!(Failure::Reinitialize.message("bad path"), "Failed to reinitialize: bad path");
    assert_eq!(Failure::SaveConfig.message("read-only"), "Failed to save config: read-only");
    assert_eq!(Failure::Listing.message(""), "Failed to fetch list: ");
}

#[test]
fn a_refresh_announces_itself_and_takes_the_listing() {
    let mut table = table_of(vec![row("A", "a", true, true), row("B", "b", true, false)]);
    let mut cache = StalenessCache::new();
    cache.record("A", true);
    cache.record("B", true);
    let mut status = StatusRegister::new();
    fetch_vac_list_begin(&mut status);
    assert_eq!(status.get(), OperationStatus::FetchingList);
    let left = fetch_vac_list_finish(
        &mut table,
        Ok(vec![entry("C", "c", false), entry("A", "a", false)]),
    );
    assert_eq!(
        table.read_snapshot(),
        vec![row("C", "c", false, false), row("A", "a", false, true)]
    );
    assert_eq!(status.get(), OperationStatus::FetchingList);
    left.forget_in(&mut cache);
    assert_eq!(cache.lookup("A"), Some(true));
    assert_eq!(cache.lookup("B"), None);
    left.settle(&mut status);
    assert_eq!(status.get(), OperationStatus::Idle);
}

#[test]
fn a_failed_refresh_leaves_the_table_and_reports() {
    let rows = vec![row("A", "a", true, true), row("B", "b", true, false)];
    let mut table = table_of(rows.clone());
    let mut cache = StalenessCache::new();
    cache.record("A", true);
    let mut status = StatusRegister::new();
    fetch_vac_list_begin(&mut status);
    let left = fetch_vac_list_finish(&mut table, Err("no route".to_string()));
    left.forget_in(&mut cache);
    left.settle(&mut status);
    assert_eq!(table.read_snapshot(), rows);
    assert_eq!(cache.lookup("A"), Some(true));
    assert_eq!(status.get(), OperationStatus::Error("Failed to fetch list: no route".to_string()));
    assert!(!status.is_busy());
}

#[test]
fn a_listing_names_the_codes_that_are_gone() {
    let mut table = table_of(vec![
        row("A", "a", true, false),
        row("B", "b", true, false),
        row("D", "d", false, false),
    ]);
    let gone = take_listing(&mut table, vec![entry("B", "b", true), entry("C", "c", false)]);
    assert_eq!(gone, strings(&["A", "D"]));
    let gone = take_listing(&mut table, vec![entry("B", "b", true), entry("C", "c", false)]);
    assert!(gone.is_empty());
}

#[test]
fn a_listing_forgets_the_verdicts_of_codes_that_are_gone() {
    let mut table = table_of(vec![row("A", "a", true, false), row("B", "b", true, false)]);
    let mut cache = StalenessCache::new();
    cache.record("A", true);
    cache.record("B", false);
    cache.record("Z", true);
    let left = relisted(&mut table, Ok(vec![entry("B", "b", true), entry("C", "c", false)]));
    left.forget_in(&mut cache);
    assert_eq!(cache.lookup("A"), None);
    assert_eq!(cache.lookup("B"), Some(false));
    assert_eq!(cache.lookup("Z"), Some(true));
    assert_eq!(cache.lookup("C"), None);
}

#[test]
fn download_all_counts_the_rows() {
    let table = table_of(vec![row("A", "a", false, false), row("B", "b", false, true), row("C", "c", true, false)]);
    let status = download_all_begin(&table);
    assert_eq!(status, OperationStatus::Downloading { current: 0, total: 3 });
    assert_eq!(status.to_text(), "Downloading 0 of 3...");
    assert_eq!(
        download_all_begin(&EntryTable::new()),
        OperationStatus::Downloading { current: 0, total: 0 }
    );
}

#[test]
fn download_selected_hands_out_the_selected_codes() {
    let table = table_of(vec![row("A", "a", false, true), row("B", "b", false, false), row("C", "c", true, true)]);
    let begun = download_selected_begin(&table);
    assert_eq!(
        begun,
        Some((strings(&["A", "C"]), OperationStatus::Downloading { current: 0, total: 2 }))
    );
}

#[test]
fn download_selected_with_nothing_selected_does_nothing() {
    let table = table_of(vec![row("A", "a", false, false)]);
    assert_eq!(download_selected_begin(&table), None);
    assert_eq!(download_selected_begin(&EntryTable::new()), None);
}

#[test]
fn a_download_that_synchronised_goes_on_to_list() {
    let mut status = busy_with(OperationStatus::Downloading { current: 0, total: 2 });
    assert!(download_synced(&mut status, Ok(())));
    assert_eq!(status.get(), OperationStatus::Downloading { current: 0, total: 2 });
}

#[test]
fn a_download_that_failed_reports_and_stops() {
    let mut status = busy_with(OperationStatus::Downloading { current: 0, total: 2 });
    assert!(!download_synced(&mut status, Err("timeout".to_string())));
    assert_eq!(status.get(), OperationStatus::Error("Download failed: timeout".to_string()));
}

#[test]
fn after_a_synchronisation_the_listing_is_taken_and_the_status_is_idle() {
    let mut table = table_of(vec![row("A", "a", false, true)]);
    let mut cache = StalenessCache::new();
    let mut status = busy_with(OperationStatus::Downloading { current: 0, total: 1 });
    let left = relisted(&mut table, Ok(vec![entry("A", "a", true)]));
    left.forget_in(&mut cache);
    left.settle(&mut status);
    assert_eq!(table.read_snapshot(), vec![row("A", "a", true, true)]);
    assert_eq!(status.get(), OperationStatus::Idle);
}

#[test]
fn a_failure_to_list_after_a_synchronisation_is_reported() {
    let rows = vec![row("A", "a", false, true)];
    let mut table = table_of(rows.clone());
    let mut cache = StalenessCache::new();
    cache.record("A", false);
    let mut status = busy_with(OperationStatus::Downloading { current: 0, total: 1 });
    let left = relisted(&mut table, Err("no route".to_string()));
    left.forget_in(&mut cache);
    left.settle(&mut status);
    assert_eq!(table.read_snapshot(), rows);
    assert_eq!(cache.lookup("A"), Some(false));
    assert_eq!(status.get(), OperationStatus::Error("Failed to fetch list: no route".to_string()));
}

#[test]
fn after_a_successful_update_the_verdict_is_gone() {
    let mut table = table_of(vec![row("A", "a", true, false), row("B", "b", true, false)]);
    let mut cache = StalenessCache::new();
    cache.record("A", true);
    cache.record("B", true);
    let mut status = StatusRegister::new();
    update_vac_begin(&mut status);
    assert_eq!(status.get(), OperationStatus::Downloading { current: 1, total: 1 });
    let (relist, left) = update_vac_synced("A", Ok(()));
    assert!(relist);
    left.forget_in(&mut cache);
    left.settle(&mut status);
    assert_eq!(cache.lookup("A"), None);
    assert_eq!(status.get(), OperationStatus::Downloading { current: 1, total: 1 });
    let left = relisted(&mut table, Ok(vec![entry("A", "a", true), entry("B", "b", true)]));
    left.forget_in(&mut cache);
    left.settle(&mut status);
    assert_eq!(cache.lookup("A"), None);
    assert_eq!(cache.lookup("B"), Some(true));
    assert_eq!(status.get(), OperationStatus::Idle);
}

#[test]
fn after_a_successful_update_a_failed_listing_is_reported() {
    let rows = vec![row("A", "a", true, false)];
    let mut table = table_of(rows.clone());
    let mut cache = StalenessCache::new();
    cache.record("A", true);
    let mut status = StatusRegister::new();
    update_vac_begin(&mut status);
    let (relist, left) = update_vac_synced("A", Ok(()));
    assert!(relist);
    left.forget_in(&mut cache);
    left.settle(&mut status);
    let left = relisted(&mut table, Err("no route".to_string()));
    left.forget_in(&mut cache);
    left.settle(&mut status);
    assert_eq!(table.read_snapshot(), rows);
    assert_eq!(cache.lookup("A"), None);
    assert_eq!(status.get(), OperationStatus::Error("Failed to fetch list: no route".to_string()));
}

#[test]
fn after_a_successful_update_a_fresh_verdict_is_not_kept_either() {
    let mut cache = StalenessCache::new();
    cache.record("A", false);
    let (relist, left) = update_vac_synced("A", Ok(()));
    assert!(relist);
    left.forget_in(&mut cache);
    assert_eq!(cache.lookup("A"), None);
    assert!(cache.request_probe("A"));
}

#[test]
fn a_failed_update_keeps_the_verdict_and_reports() {
    let mut cache = StalenessCache::new();
    cache.record("A", true);
    let mut status = StatusRegister::new();
    update_vac_begin(&mut status);
    let (relist, left) = update_vac_synced("A", Err("timeout".to_string()));
    assert!(!relist);
    left.forget_in(&mut cache);
    left.settle(&mut status);
    assert_eq!(cache.lookup("A"), Some(true));
    assert_eq!(status.get(), OperationStatus::Error("Update failed: timeout".to_string()));
}

#[test]
fn deleting_one_marks_it_unavailable() {
    let mut table = table_of(vec![row("A", "a", true, true), row("B", "b", true, false)]);
    let mut status = StatusRegister::new();
    delete_vac_begin(&mut status, "A");
    assert_eq!(status.get(), OperationStatus::Deleting("A".to_string()));
    assert_eq!(status.to_text(), "Deleting A...");
    let left = delete_vac_finish(&mut table, "A", Ok(()));
    left.settle(&mut status);
    assert_eq!(
        table.read_snapshot(),
        vec![row("A", "a", false, true), row("B", "b", true, false)]
    );
    assert_eq!(status.get(), OperationStatus::Idle);
}

#[test]
fn a_failed_deletion_leaves_the_table_and_reports() {
    let rows = vec![row("A", "a", true, true)];
    let mut table = table_of(rows.clone());
    let mut cache = StalenessCache::new();
    cache.record("A", true);
    let mut status = StatusRegister::new();
    delete_vac_begin(&mut status, "A");
    let left = delete_vac_finish(&mut table, "A", Err("locked".to_string()));
    left.forget_in(&mut cache);
    left.settle(&mut status);
    assert_eq!(table.read_snapshot(), rows);
    assert_eq!(cache.lookup("A"), Some(true));
    assert_eq!(status.get(), OperationStatus::Error("Delete failed: locked".to_string()));
}

#[test]
fn a_batch_in_which_one_deletion_fails_goes_on_and_ends_idle() {
    let mut table = table_of(vec![
        row("A", "a", true, true),
        row("B", "b", true, true),
        row("C", "c", true, true),
        row("D", "d", true, false),
        row("E", "e", false, true),
    ]);
    let mut status = StatusRegister::new();
    let mut batch = delete_selected_begin(&table).unwrap();
    assert_eq!(batch.total(), 3);
    let mut seen = Vec::new();
    let mut texts = Vec::new();
    while let Some(code) = batch.next(&mut status) {
        texts.push(status.to_text());
        let outcome = if code == "B" { Err("locked".to_string()) } else { Ok(()) };
        delete_selected_item(&mut table, &code, outcome);
        seen.push(code);
    }
    assert_eq!(seen, strings(&["A", "B", "C"]));
    assert_eq!(
        texts,
        strings(&["Deleting A (1/3)...", "Deleting B (2/3)...", "Deleting C (3/3)..."])
    );
    assert_eq!(
        table.read_snapshot(),
        vec![
            row("A", "a", false, false),
            row("B", "b", true, true),
            row("C", "c", false, false),
            row("D", "d", true, false),
            row("E", "e", false, true),
        ]
    );
    assert_eq!(status.get(), OperationStatus::Idle);
    assert_eq!(batch.next(&mut status), None);
    assert_eq!(status.get(), OperationStatus::Idle);
}

#[test]
fn a_batch_in_which_every_deletion_fails_still_ends_idle() {
    let rows = vec![row("A", "a", true, true), row("B", "b", true, true)];
    let mut table = table_of(rows.clone());
    let mut status = StatusRegister::new();
    let mut batch = delete_selected_begin(&table).unwrap();
    while let Some(code) = batch.next(&mut status) {
        delete_selected_item(&mut table, &code, Err("locked".to_string()));
    }
    assert_eq!(table.read_snapshot(), rows);
    assert_eq!(status.get(), OperationStatus::Idle);
}

#[test]
fn there_is_no_batch_without_a_selected_local_row() {
    let table = table_of(vec![row("A", "a", true, false), row("B", "b", false, true)]);
    assert!(delete_selected_begin(&table).is_none());
    assert!(delete_selected_begin(&EntryTable::new()).is_none());
}

#[test]
fn a_probe_records_what_the_backend_said() {
    let mut cache = StalenessCache::new();
    assert!(cache.request_probe("A"));
    check_needs_update_finish(&mut cache, "A", Ok(true));
    assert_eq!(cache.lookup("A"), Some(true));
    assert!(!cache.is_pending("A"));
    check_needs_update_finish(&mut cache, "B", Ok(false));
    assert_eq!(cache.lookup("B"), Some(false));
}

#[test]
fn a_failed_probe_counts_as_fresh() {
    let mut cache = StalenessCache::new();
    assert!(cache.request_probe("A"));
    check_needs_update_finish(&mut cache, "A", Err("no route".to_string()));
    assert_eq!(cache.lookup("A"), Some(false));
    assert!(!cache.is_pending("A"));
    assert!(!cache.request_probe("A"));
}

#[test]
fn a_failure_to_save_the_configuration_is_reported() {
    let mut status = StatusRegister::new();
    assert!(!save_config_saved(&mut status, Err("read-only".to_string())));
    assert_eq!(status.get(), OperationStatus::Error("Failed to save config: read-only".to_string()));
    let mut status = busy_with(OperationStatus::Error("earlier".to_string()));
    assert!(save_config_saved(&mut status, Ok(())));
    assert_eq!(status.get(), OperationStatus::Error("earlier".to_string()));
}

#[test]
fn a_reinitialisation_begins_a_refresh_or_reports() {
    let mut status = busy_with(OperationStatus::Error("earlier".to_string()));
    assert!(save_config_reinitialized(&mut status, Ok(())));
    assert_eq!(status.get(), OperationStatus::FetchingList);
    assert!(status.is_busy());
    assert!(!save_config_reinitialized(&mut status, Err("bad path".to_string())));
    assert_eq!(status.get(), OperationStatus::Error("Failed to reinitialize: bad path".to_string()));
}
