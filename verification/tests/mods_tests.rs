use mod_updater::mods::{
    all_digits, classify_extension, extract_name_from_config, is_64bit_dll, parse_dlc_mod,
    parse_local_mod, parse_workshop_mod, ExtensionKind,
};

#[test]
fn workshop_mod_with_numeric_name_gets_an_id() {
    let info = parse_workshop_mod(
        &String::from("123456789"),
        String::from("/steam/workshop/123456789"),
        None,
        Some(String::from("2024-01-01 00:00:00")),
        vec![],
    );
    assert_eq!(info.name, "123456789");
    assert_eq!(info.mod_type, "workshop");
    assert_eq!(info.workshop_id, Some(String::from("123456789")));
    assert_eq!(info.path, "/steam/workshop/123456789");
    assert!(!info.enabled);
    assert_eq!(info.size, None);
    assert_eq!(info.last_modified, Some(String::from("2024-01-01 00:00:00")));
}

#[test]
fn workshop_mod_with_word_name_has_no_id() {
    let info = parse_workshop_mod(&String::from("@ace"), String::from("/p"), None, None, vec![]);
    assert_eq!(info.workshop_id, None);
}

#[test]
fn meta_name_overrides_the_directory_name() {
    let info = parse_workshop_mod(
        &String::from("450814997"),
        String::from("/p"),
        Some(String::from("CBA_A3")),
        None,
        vec![],
    );
    assert_eq!(info.name, "CBA_A3");
    assert_eq!(info.workshop_id, Some(String::from("450814997")));
}

#[test]
fn local_mods_are_typed_local() {
    let info = parse_local_mod(&String::from("@mymod"), String::from("/p"), None, None, vec![
        String::from("/p/addons/x.so"),
    ]);
    assert_eq!(info.mod_type, "local");
    assert_eq!(info.workshop_id, None);
    assert_eq!(info.extensions, vec![String::from("/p/addons/x.so")]);
}

#[test]
fn dlc_mods_keep_their_directory_name() {
    let info = parse_dlc_mod(&String::from("GM"), String::from("/arma3/GM"), None, vec![]);
    assert_eq!(info.name, "GM");
    assert_eq!(info.mod_type, "dlc");
    assert_eq!(info.workshop_id, None);
}

#[test]
fn digit_scan_accepts_digits_only() {
    assert!(all_digits(&String::from("0123456789")));
    assert!(all_digits(&String::from("")));
    assert!(!all_digits(&String::from("12a4")));
    assert!(!all_digits(&String::from("@123")));
}

#[test]
fn config_name_is_read_from_the_first_quoted_name_line() {
    let content = String::from("// a comment\nname = \"Cool Mod\";\nauthor = \"me\";\n");
    assert_eq!(extract_name_from_config(&content), Some(String::from("Cool Mod")));
}

#[test]
fn unquoted_name_lines_are_passed_over() {
    let content = String::from("name = 1;\nname = \"Second\";\n");
    assert_eq!(extract_name_from_config(&content), Some(String::from("Second")));
}

#[test]
fn config_without_a_name_yields_nothing() {
    let content = String::from("author = \"me\";\nversion = \"1.0\";\n");
    assert_eq!(extract_name_from_config(&content), None);
}

#[test]
fn indented_name_line_with_carriage_return() {
    let content = String::from("  name=\"A B\"\r\nrest\n");
    assert_eq!(extract_name_from_config(&content), Some(String::from("A B")));
}

#[test]
fn extension_kinds() {
    assert!(matches!(classify_extension(&String::from("dll")), ExtensionKind::WindowsLibrary));
    assert!(matches!(classify_extension(&String::from("so")), ExtensionKind::SharedObject));
    assert!(matches!(classify_extension(&String::from("txt")), ExtensionKind::Other));
    assert!(matches!(classify_extension(&String::from("DLL")), ExtensionKind::Other));
}

fn pe_image(machine_lo: u8, machine_hi: u8) -> Vec<u8> {
    let mut data = vec![0u8; 128];
    data[0] = 0x4d; // 'M'
    data[1] = 0x5a; // 'Z'
    data[60] = 70; // the PE header offset
    data[70] = 0x50; // 'P'
    data[71] = 0x45; // 'E'
    data[72] = 0x00;
    data[73] = 0x00;
    data[74] = machine_lo;
    data[75] = machine_hi;
    data
}

#[test]
fn x86_64_images_are_recognized() {
    assert!(is_64bit_dll(&pe_image(0x64, 0x86)));
}

#[test]
fn i386_images_are_not_64_bit() {
    assert!(!is_64bit_dll(&pe_image(0x4c, 0x01)));
}

#[test]
fn short_or_unmarked_data_is_not_64_bit() {
    assert!(!is_64bit_dll(&vec![]));
    assert!(!is_64bit_dll(&vec![0u8; 65]));
    let mut no_magic = pe_image(0x64, 0x86);
    no_magic[0] = 0;
    assert!(!is_64bit_dll(&no_magic));
    let mut bad_pe = pe_image(0x64, 0x86);
    bad_pe[70] = 0;
    assert!(!is_64bit_dll(&bad_pe));
}
