use mod_updater::codec::{parse_registry_json, registry_to_json};
use mod_updater::registry::{find_record, apply_install, LocalModRegistry, LocalModVersion};

fn record(name: &str, version: &str, checksum: Option<&str>, path: &str, updated: &str)
    -> LocalModVersion {
    LocalModVersion {
        name: String::from(name),
        version: String::from(version),
        checksum: checksum.map(String::from),
        installed_path: String::from(path),
        last_updated: String::from(updated),
    }
}

#[test]
fn default_registry_is_empty() {
    let reg = LocalModRegistry::default();
    assert_eq!(reg.mods.len(), 0);
    assert!(!reg.last_check.is_empty());
}

#[test]
fn registry_renders_exact_json() {
    let reg = LocalModRegistry {
        mods: vec![record("a", "1", None, "p", "t")],
        last_check: String::from("c"),
    };
    let text = registry_to_json(&reg);
    assert_eq!(
        text,
        "{\"mods\":{\"a\":{\"name\":\"a\",\"version\":\"1\",\"checksum\":null,\"installedPath\":\"p\",\"lastUpdated\":\"t\"}},\"lastCheck\":\"c\"}"
    );
}

#[test]
fn registry_round_trip_plain() {
    let reg = LocalModRegistry {
        mods: vec![
            record("forge_client", "1.0.0", Some("abc123"), "C:\\Arma 3\\@forge_client", "2024-01-01 00:00:00 UTC"),
            record("forge_mod", "2.1", None, "/games/arma3/@forge_mod", "2024-02-02 12:30:00 UTC"),
        ],
        last_check: String::from("2024-03-03 08:00:00 UTC"),
    };
    let text = registry_to_json(&reg);
    let back = parse_registry_json(&text).expect("canonical text must parse");
    assert_eq!(back.last_check, reg.last_check);
    assert_eq!(back.mods.len(), reg.mods.len());
    for (a, b) in back.mods.iter().zip(reg.mods.iter()) {
        assert_eq!(a.name, b.name);
        assert_eq!(a.version, b.version);
        assert_eq!(a.checksum, b.checksum);
        assert_eq!(a.installed_path, b.installed_path);
        assert_eq!(a.last_updated, b.last_updated);
    }
}

#[test]
fn registry_round_trip_escaped_characters() {
    let reg = LocalModRegistry {
        mods: vec![record("we\"ird\\name", "v\"1\\", Some("\\\""), "p\"q", "t\\t")],
        last_check: String::from("check \"quoted\" \\ done"),
    };
    let text = registry_to_json(&reg);
    let back = parse_registry_json(&text).expect("escaped text must parse");
    assert_eq!(back.mods.len(), 1);
    assert_eq!(back.mods[0].name, reg.mods[0].name);
    assert_eq!(back.mods[0].version, reg.mods[0].version);
    assert_eq!(back.mods[0].checksum, reg.mods[0].checksum);
    assert_eq!(back.mods[0].installed_path, reg.mods[0].installed_path);
    assert_eq!(back.mods[0].last_updated, reg.mods[0].last_updated);
    assert_eq!(back.last_check, reg.last_check);
}

#[test]
fn registry_round_trip_empty() {
    let reg = LocalModRegistry { mods: vec![], last_check: String::from("now") };
    let text = registry_to_json(&reg);
    assert_eq!(text, "{\"mods\":{},\"lastCheck\":\"now\"}");
    let back = parse_registry_json(&text).expect("empty registry must parse");
    assert_eq!(back.mods.len(), 0);
    assert_eq!(back.last_check, "now");
}

#[test]
fn malformed_registry_is_rejected() {
    assert!(parse_registry_json("").is_none());
    assert!(parse_registry_json("not json at all").is_none());
    assert!(parse_registry_json("{\"mods\":{}").is_none());
    assert!(parse_registry_json("{\"mods\":{},\"lastCheck\":\"now\"} trailing").is_none());
    assert!(parse_registry_json("{\"Mods\":{},\"lastCheck\":\"now\"}").is_none());
}

#[test]
fn duplicate_names_are_rejected() {
    let reg = LocalModRegistry {
        mods: vec![record("dup", "1", None, "p1", "t1"), record("dup", "2", None, "p2", "t2")],
        last_check: String::from("c"),
    };
    let text = registry_to_json(&reg);
    assert!(parse_registry_json(&text).is_none());
}

#[test]
fn apply_install_inserts_and_replaces() {
    let mut reg = LocalModRegistry { mods: vec![], last_check: String::from("old") };
    let name = String::from("forge_client");
    let v1 = String::from("1.0");
    apply_install(
        &mut reg,
        &name,
        &v1,
        String::from("digest1"),
        String::from("/a/@forge_client"),
        String::from("t1"),
    );
    assert_eq!(reg.mods.len(), 1);
    assert_eq!(reg.last_check, "t1");
    let rec = find_record(&reg, &name).expect("record just installed");
    assert_eq!(rec.version, "1.0");
    assert_eq!(rec.checksum, Some(String::from("digest1")));
    assert_eq!(rec.installed_path, "/a/@forge_client");
    assert_eq!(rec.last_updated, "t1");

    let v2 = String::from("2.0");
    apply_install(
        &mut reg,
        &name,
        &v2,
        String::from("digest2"),
        String::from("/a/@forge_client"),
        String::from("t2"),
    );
    assert_eq!(reg.mods.len(), 1);
    let rec = find_record(&reg, &name).expect("record still present");
    assert_eq!(rec.version, "2.0");
    assert_eq!(rec.checksum, Some(String::from("digest2")));
    assert_eq!(rec.last_updated, "t2");
    assert_eq!(reg.last_check, "t2");
}

#[test]
fn find_record_misses_absent_names() {
    let reg = LocalModRegistry {
        mods: vec![record("present", "1", None, "p", "t")],
        last_check: String::from("c"),
    };
    assert!(find_record(&reg, &String::from("absent")).is_none());
    assert!(find_record(&reg, &String::from("present")).is_some());
}

#[test]
fn registry_survives_save_after_install() {
    let mut reg = LocalModRegistry { mods: vec![], last_check: String::from("old") };
    let name = String::from("m");
    let version = String::from("3");
    apply_install(&mut reg, &name, &version, String::from("d"), String::from("p"), String::from("t"));
    let text = registry_to_json(&reg);
    let back = parse_registry_json(&text).expect("saved registry must load");
    assert_eq!(back.mods.len(), 1);
    assert_eq!(back.mods[0].name, "m");
    assert_eq!(back.mods[0].version, "3");
}
