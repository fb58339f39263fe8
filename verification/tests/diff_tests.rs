use mod_updater::catalog::RemoteModVersion;
use mod_updater::diff::{
    check_mod_updates, notification_for_updates, success_message, summarize_update_batch,
    updates_needed,
};
use mod_updater::registry::{LocalModRegistry, LocalModVersion};
use mod_updater::versions_differ;

fn remote(name: &str, version: &str) -> RemoteModVersion {
    RemoteModVersion {
        name: String::from(name),
        version: String::from(version),
        download_url: format!("https://mod.innovativedevsolutions.org/{}.zip", name),
        checksum: None,
        size: None,
    }
}

fn installed(name: &str, version: &str) -> LocalModVersion {
    LocalModVersion {
        name: String::from(name),
        version: String::from(version),
        checksum: None,
        installed_path: format!("/arma3/@{}", name),
        last_updated: String::from("t"),
    }
}

#[test]
fn version_comparison_is_exact_string_inequality() {
    assert!(!versions_differ(&String::from("1.0"), &String::from("1.0")));
    assert!(versions_differ(&String::from("1.0"), &String::from("1.0.0")));
    assert!(versions_differ(&String::from("2.0"), &String::from("10.0")));
}

#[test]
fn new_package_against_empty_registry() {
    // a catalog entry with no local record yields exactly one decision,
    // new and needing an update, with no current version
    let reg = LocalModRegistry { mods: vec![], last_check: String::from("c") };
    let catalog = vec![remote("alpha", "2.0")];
    let decisions = check_mod_updates(&reg, &catalog);
    assert_eq!(decisions.len(), 1);
    assert_eq!(decisions[0].mod_name, "alpha");
    assert!(decisions[0].is_new_mod);
    assert!(decisions[0].needs_update);
    assert_eq!(decisions[0].current_version, None);
    assert_eq!(decisions[0].remote_version, "2.0");
    assert_eq!(decisions[0].download_url, "https://mod.innovativedevsolutions.org/alpha.zip");
}

#[test]
fn diff_flags_follow_registry_contents() {
    let reg = LocalModRegistry {
        mods: vec![installed("same", "1.0"), installed("stale", "1.0")],
        last_check: String::from("c"),
    };
    let catalog = vec![remote("same", "1.0"), remote("stale", "2.0"), remote("fresh", "1.0")];
    let decisions = check_mod_updates(&reg, &catalog);
    assert_eq!(decisions.len(), 3);

    assert!(!decisions[0].is_new_mod);
    assert!(!decisions[0].needs_update);
    assert_eq!(decisions[0].current_version, Some(String::from("1.0")));

    assert!(!decisions[1].is_new_mod);
    assert!(decisions[1].needs_update);
    assert_eq!(decisions[1].current_version, Some(String::from("1.0")));

    assert!(decisions[2].is_new_mod);
    assert!(decisions[2].needs_update);
    assert_eq!(decisions[2].current_version, None);
}

#[test]
fn packages_missing_from_catalog_are_not_reported() {
    let reg = LocalModRegistry {
        mods: vec![installed("only_local", "1.0")],
        last_check: String::from("c"),
    };
    let decisions = check_mod_updates(&reg, &vec![]);
    assert_eq!(decisions.len(), 0);
}

#[test]
fn up_to_date_notification() {
    let reg = LocalModRegistry { mods: vec![installed("a", "1")], last_check: String::from("c") };
    let decisions = check_mod_updates(&reg, &vec![remote("a", "1")]);
    let n = notification_for_updates(&decisions);
    assert_eq!(n.notification_type, "up-to-date");
    assert_eq!(n.title, "All mods are up to date!");
    assert_eq!(n.message, "Your mods are current with the latest versions.");
    assert_eq!(n.count, None);
}

#[test]
fn updates_available_notification_singular() {
    let reg = LocalModRegistry { mods: vec![], last_check: String::from("c") };
    let decisions = check_mod_updates(&reg, &vec![remote("a", "1")]);
    let n = notification_for_updates(&decisions);
    assert_eq!(n.notification_type, "updates-available");
    assert_eq!(n.title, "1 mod update available!");
    assert_eq!(n.message, "Visit the Mods section to review and apply updates.");
    assert_eq!(n.count, Some(1));
}

#[test]
fn updates_available_notification_plural() {
    let reg = LocalModRegistry { mods: vec![], last_check: String::from("c") };
    let decisions = check_mod_updates(&reg, &vec![remote("a", "1"), remote("b", "2")]);
    let n = notification_for_updates(&decisions);
    assert_eq!(n.title, "2 mod updates available!");
    assert_eq!(n.count, Some(2));
}

#[test]
fn updates_needed_keeps_only_pending_work() {
    let reg = LocalModRegistry { mods: vec![installed("a", "1")], last_check: String::from("c") };
    let decisions = check_mod_updates(&reg, &vec![remote("a", "1"), remote("b", "2")]);
    let pending = updates_needed(&decisions);
    assert_eq!(pending.len(), 1);
    assert_eq!(pending[0].mod_name, "b");
}

#[test]
fn success_messages_name_the_action() {
    let reg = LocalModRegistry { mods: vec![installed("old", "1")], last_check: String::from("c") };
    let decisions = check_mod_updates(&reg, &vec![remote("old", "2"), remote("new", "3")]);
    assert_eq!(success_message(&decisions[0]), "updated old to version 2");
    assert_eq!(success_message(&decisions[1]), "installed new to version 3");
}

#[test]
fn batch_reports_successes_and_swallows_failures() {
    // three decisions where the second attempt fails: the summary holds
    // the first and third packages only, and no error is raised
    let reg = LocalModRegistry { mods: vec![], last_check: String::from("c") };
    let decisions = check_mod_updates(
        &reg,
        &vec![remote("one", "1"), remote("two", "2"), remote("three", "3")],
    );
    let attempts = updates_needed(&decisions);
    assert_eq!(attempts.len(), 3);
    let outcome = vec![true, false, true];
    let summary = summarize_update_batch(&attempts, &outcome);
    assert_eq!(summary.len(), 2);
    assert_eq!(summary[0], "installed one to version 1");
    assert_eq!(summary[1], "installed three to version 3");
}
