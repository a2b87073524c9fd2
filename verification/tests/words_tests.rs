use ledgerbot::callback_data::{unpack_callback_data, CallbackData};
use ledgerbot::filename::{decode_filename_to_key, encode_key_to_filename, key_of_file_name, yaml_file_name};
use ledgerbot::words::merge_words;

fn strings(v: &[&str]) -> Vec<String> {
    v.iter().map(|s| s.to_string()).collect()
}

#[test]
fn merge_words_keeps_first_occurrences() {
    let merged = merge_words(&strings(&["b", "a", "b"]), &strings(&["c", "a", "d", "c"]));
    assert_eq!(merged, strings(&["b", "a", "c", "d"]));
    assert_eq!(merge_words(&[], &[]), Vec::<String>::new());
}

#[test]
fn encode_key_examples() {
    assert_eq!(encode_key_to_filename("simple"), "simple");
    assert_eq!(encode_key_to_filename("path/to/key"), "path%2Fto%2Fkey");
    assert_eq!(encode_key_to_filename(".hidden"), "%2Ehidden");
    assert_eq!(encode_key_to_filename("key:value"), "key%3Avalue");
    assert_eq!(encode_key_to_filename("file*.txt"), "file%2A.txt");
    assert_eq!(encode_key_to_filename("space key"), "space%20key");
    assert_eq!(encode_key_to_filename("a\\b\"c<d>e|f?g%h"), "a%5Cb%22c%3Cd%3Ee%7Cf%3Fg%25h");
}

#[test]
fn decode_filename_examples() {
    assert_eq!(decode_filename_to_key("simple"), "simple");
    assert_eq!(decode_filename_to_key("path%2Fto%2Fkey"), "path/to/key");
    assert_eq!(decode_filename_to_key("%2Ehidden"), ".hidden");
    assert_eq!(decode_filename_to_key("key%3Avalue"), "key:value");
    // lower-case digits, a plus sign, and broken escapes
    assert_eq!(decode_filename_to_key("%2f"), "/");
    assert_eq!(decode_filename_to_key("%+41"), "\u{4}1");
    assert_eq!(decode_filename_to_key("%zz!"), "%zz!");
    assert_eq!(decode_filename_to_key("50%"), "50%");
    assert_eq!(decode_filename_to_key("%4"), "%4");
}

#[test]
fn filename_roundtrip() {
    for key in ["path/to:key*.txt", "path/to:key*.txt with spaces", ".x.y", "%41", "", "ünï/cødé"] {
        assert_eq!(decode_filename_to_key(&encode_key_to_filename(key)), key);
    }
}

#[test]
fn callback_data_accessors() {
    let d = CallbackData::new("cmd_list".to_string());
    assert_eq!(d.as_str(), "cmd_list");
    assert_eq!(d.encode_callback(), "cmd_list");
    let d2: CallbackData = "x".to_string().into();
    assert_eq!(d2.clone().into_inner(), "x");
    assert_eq!(unpack_callback_data(Some(d), "key1"), "cmd_list");
    assert_eq!(unpack_callback_data(None, "raw"), "raw");
}

#[test]
fn merging_again_changes_nothing() {
    let e = strings(&["b", "a", "b"]);
    let a = strings(&["c", "a", "d", "c"]);
    let r = merge_words(&e, &a);
    assert_eq!(merge_words(&r, &a), r);
    assert_eq!(merge_words(&r, &[]), r);
    assert_eq!(merge_words(&e, &r), r);
}

#[test]
fn store_files_name_their_keys() {
    assert_eq!(yaml_file_name("path/to/key"), "path%2Fto%2Fkey.yaml");
    assert_eq!(yaml_file_name("file*.txt"), "file%2A.txt.yaml");
    assert_eq!(key_of_file_name("path%2Fto%2Fkey.yaml"), Some("path/to/key".to_string()));
    assert_eq!(key_of_file_name("%2Ehidden.yaml"), Some(".hidden".to_string()));
    assert_eq!(key_of_file_name("notes.txt"), None);
    assert_eq!(key_of_file_name("yaml"), None);
    for key in ["a.yaml", "key:value", "", "100%"] {
        assert_eq!(key_of_file_name(&yaml_file_name(key)), Some(key.to_string()));
    }
}
