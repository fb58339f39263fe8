use mod_updater::launch::{
    connect_arg, extensions_to_copy, format_server_summary, has_contact, launcher_exe_name,
    mod_arg, password_arg, string_ends_with,
};
use mod_updater::mods::ModInfo;
use mod_updater::presets::{
    apply_mod_preset, delete_mod_preset, update_mod_preset, AppSettings, ModPreset,
};
use mod_updater::progress::ModUpdateProgress;
use mod_updater::strings::u64_to_string;
use mod_updater::updater::UpdateMetadata;

#[test]
fn mod_argument_joins_paths_with_semicolons() {
    assert_eq!(mod_arg(&vec![]), "-mod=");
    assert_eq!(mod_arg(&vec![String::from("@a")]), "-mod=@a");
    assert_eq!(mod_arg(&vec![String::from("@a"), String::from("@b")]), "-mod=@a;@b");
}

#[test]
fn connection_arguments() {
    assert_eq!(connect_arg(&String::from("127.0.0.1:2302")), "-connect=127.0.0.1:2302");
    assert_eq!(password_arg(&String::from("pw123")), "-password=pw123");
}

#[test]
fn executable_names_follow_battleye_and_width() {
    assert_eq!(launcher_exe_name(true, true), "arma3battleye_x64.exe");
    assert_eq!(launcher_exe_name(true, false), "arma3battleye.exe");
    assert_eq!(launcher_exe_name(false, true), "arma3_x64.exe");
    assert_eq!(launcher_exe_name(false, false), "arma3.exe");
}

#[test]
fn contact_detection_goes_by_path_suffix() {
    assert!(has_contact(&vec![String::from("C:\\Arma 3\\Contact")]));
    assert!(has_contact(&vec![String::from("C:\\Arma 3\\Contact\\")]));
    assert!(!has_contact(&vec![String::from("C:\\Arma 3\\ContactX")]));
    assert!(!has_contact(&vec![]));
    assert!(string_ends_with(&String::from("abc"), &String::from("bc")));
    assert!(!string_ends_with(&String::from("c"), &String::from("bc")));
}

fn mod_info(name: &str, enabled: bool, extensions: Vec<String>) -> ModInfo {
    ModInfo {
        name: String::from(name),
        path: format!("/mods/{}", name),
        enabled,
        mod_type: String::from("local"),
        workshop_id: None,
        size: None,
        last_modified: None,
        extensions,
    }
}

#[test]
fn only_enabled_mods_contribute_extensions() {
    let mods = vec![
        mod_info("a", true, vec![String::from("/mods/a/x.dll"), String::from("/mods/a/y.so")]),
        mod_info("b", false, vec![String::from("/mods/b/z.dll")]),
        mod_info("c", true, vec![String::from("/mods/c/w.so")]),
    ];
    assert_eq!(extensions_to_copy(&mods), vec![
        String::from("/mods/a/x.dll"),
        String::from("/mods/a/y.so"),
        String::from("/mods/c/w.so"),
    ]);
}

#[test]
fn server_summary_format() {
    assert_eq!(
        format_server_summary(&String::from("MyServer"), &String::from("Arma3"), 3, 12),
        "MyServer Arma3 (Players: 3/12)"
    );
}

#[test]
fn decimal_formatting() {
    assert_eq!(u64_to_string(0), "0");
    assert_eq!(u64_to_string(7), "7");
    assert_eq!(u64_to_string(1234567), "1234567");
    assert_eq!(u64_to_string(u64::MAX), "18446744073709551615");
}

#[test]
fn progress_event_texts() {
    let start = ModUpdateProgress::downloading_started(&String::from("pkg"));
    assert_eq!(start.step, "downloading");
    assert_eq!(start.message, "Starting download of pkg...");

    let extract = ModUpdateProgress::extracting_started(&String::from("pkg"));
    assert_eq!(extract.step, "extracting");
    assert_eq!(extract.message, "Extracting pkg...");

    let step = ModUpdateProgress::extracting_entry(&String::from("pkg"), 0, 10);
    assert_eq!(step.current, 0);
    assert_eq!(step.total, 10);
    assert_eq!(step.percentage, 0);
    assert_eq!(step.message, "Extracting file 1 of 10...");

    let fin = ModUpdateProgress::finalizing(&String::from("pkg"));
    assert_eq!(fin.step, "installing");
    assert_eq!(fin.percentage, 90);
    assert_eq!(fin.message, "Finalizing installation of pkg...");

    let done = ModUpdateProgress::completed(&String::from("pkg"), &String::from("2.0"), true);
    assert_eq!(done.step, "complete");
    assert_eq!(done.percentage, 100);
    assert_eq!(done.message, "Successfully installed pkg to version 2.0");

    let done2 = ModUpdateProgress::completed(&String::from("pkg"), &String::from("2.0"), false);
    assert_eq!(done2.message, "Successfully updated pkg to version 2.0");
}

#[test]
fn new_presets_carry_their_inputs() {
    let p = ModPreset::new(
        String::from("infantry"),
        Some(String::from("light loadout")),
        vec![String::from("@a"), String::from("@b")],
    );
    assert_eq!(p.name, "infantry");
    assert_eq!(p.description, Some(String::from("light loadout")));
    assert_eq!(p.mods, vec![String::from("@a"), String::from("@b")]);
    assert_eq!(p.created_at, p.updated_at);
    assert!(!p.id.is_empty());
}

#[test]
fn updating_a_preset_replaces_chosen_fields() {
    let p = ModPreset::new(String::from("old"), None, vec![String::from("@a")]);
    let id = p.id.clone();
    let created = p.created_at.clone();
    let mut presets = vec![p];
    let updated = update_mod_preset(
        &mut presets,
        &id,
        Some(String::from("new")),
        None,
        Some(vec![String::from("@b")]),
        String::from("later"),
    )
    .expect("the preset exists");
    assert_eq!(updated.name, "new");
    assert_eq!(updated.description, None);
    assert_eq!(updated.mods, vec![String::from("@b")]);
    assert_eq!(updated.created_at, created);
    assert_eq!(updated.updated_at, "later");
    assert_eq!(presets.len(), 1);
    assert_eq!(presets[0].name, "new");
}

#[test]
fn updating_a_missing_preset_fails() {
    let mut presets = vec![ModPreset::new(String::from("x"), None, vec![])];
    let r = update_mod_preset(
        &mut presets,
        &String::from("no-such-id"),
        Some(String::from("new")),
        None,
        None,
        String::from("later"),
    );
    assert!(r.is_err());
    assert_eq!(presets[0].name, "x");
}

#[test]
fn deleting_removes_exactly_the_named_preset() {
    let a = ModPreset::new(String::from("a"), None, vec![]);
    let b = ModPreset::new(String::from("b"), None, vec![]);
    let id_a = a.id.clone();
    let mut presets = vec![a, b];
    delete_mod_preset(&mut presets, &id_a).expect("the preset exists");
    assert_eq!(presets.len(), 1);
    assert_eq!(presets[0].name, "b");
    assert!(delete_mod_preset(&mut presets, &id_a).is_err());
    assert_eq!(presets.len(), 1);
}

#[test]
fn applying_a_preset_returns_its_mod_paths() {
    let p = ModPreset::new(String::from("x"), None, vec![String::from("@a")]);
    assert_eq!(apply_mod_preset(p), vec![String::from("@a")]);
}

#[test]
fn default_settings() {
    let s = AppSettings::default();
    assert_eq!(s.arma3_directory, "");
    assert_eq!(s.server_address, "127.0.0.1:2302");
    assert!(s.battle_eye_enabled);
    assert!(!s.auto_update_enabled);
    assert_eq!(s.startup_parameters, "");
}

#[test]
fn update_metadata_is_plain_data() {
    let m = UpdateMetadata {
        version: String::from("1.2.0"),
        current_version: String::from("1.1.0"),
        notes: Some(String::from("fixes")),
        date: None,
    };
    assert_eq!(m.version, "1.2.0");
    assert_eq!(m.current_version, "1.1.0");
    assert_eq!(m.notes, Some(String::from("fixes")));
    assert_eq!(m.date, None);
}
