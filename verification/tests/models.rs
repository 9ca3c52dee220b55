use vac_downloader_gui::models::{OperationStatus, VacEntry, VacEntryWithSelection};
use vac_downloader_gui::status::StatusRegister;

#[test]
fn a_new_row_is_not_selected() {
    let entry = VacEntry {
        oaci: "LFPG".to_string(),
        city: "Paris".to_string(),
        available_locally: true,
    };
    let row = VacEntryWithSelection::new(entry.clone());
    assert!(!row.selected);
    assert_eq!(row.entry, entry);
}

#[test]
fn idle_and_error_are_not_busy() {
    assert!(!OperationStatus::Idle.is_busy());
    assert!(!OperationStatus::Error("boom".to_string()).is_busy());
}

#[test]
fn every_other_status_is_busy() {
    assert!(OperationStatus::FetchingList.is_busy());
    assert!(OperationStatus::Downloading { current: 0, total: 0 }.is_busy());
    assert!(OperationStatus::Downloading { current: 3, total: 12 }.is_busy());
    assert!(OperationStatus::Deleting("LFPG".to_string()).is_busy());
}

#[test]
fn each_status_has_its_phrase() {
    assert_eq!(OperationStatus::Idle.to_text(), "Ready");
    assert_eq!(OperationStatus::FetchingList.to_text(), "Fetching VAC list...");
    assert_eq!(
        OperationStatus::Downloading { current: 3, total: 12 }.to_text(),
        "Downloading 3 of 12..."
    );
    assert_eq!(
        OperationStatus::Downloading { current: 0, total: 0 }.to_text(),
        "Downloading 0 of 0..."
    );
    assert_eq!(OperationStatus::Deleting("LFPG".to_string()).to_text(), "Deleting LFPG...");
    assert_eq!(
        OperationStatus::Error("Download failed: timeout".to_string()).to_text(),
        "Error: Download failed: timeout"
    );
    assert_eq!(OperationStatus::Error(String::new()).to_text(), "Error: ");
}

#[test]
fn a_clone_of_a_status_is_the_same_status() {
    let all = vec![
        OperationStatus::Idle,
        OperationStatus::FetchingList,
        OperationStatus::Downloading { current: 1, total: 2 },
        OperationStatus::Deleting("LFLY".to_string()),
        OperationStatus::Error("x".to_string()),
    ];
    for status in all {
        assert_eq!(status.clone(), status);
    }
}

#[test]
fn the_register_starts_idle() {
    let register = StatusRegister::new();
    assert_eq!(register.get(), OperationStatus::Idle);
    assert!(!register.is_busy());
    assert_eq!(register.to_text(), "Ready");
}

#[test]
fn the_last_write_to_the_register_wins() {
    let mut register = StatusRegister::new();
    register.set(OperationStatus::FetchingList);
    assert!(register.is_busy());
    register.set(OperationStatus::Error("Failed to fetch list: no route".to_string()));
    assert!(!register.is_busy());
    assert_eq!(register.to_text(), "Error: Failed to fetch list: no route");
    register.set(OperationStatus::Downloading { current: 0, total: 5 });
    assert_eq!(register.get(), OperationStatus::Downloading { current: 0, total: 5 });
    register.set(OperationStatus::Idle);
    assert_eq!(register.get(), OperationStatus::Idle);
}
