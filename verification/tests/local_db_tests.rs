use openkakao_cli::local_db::{hashed_device_uuid, longest_common_suffix, pbkdf2_sha256};

#[test]
fn pbkdf2_sha256_produces_expected_length() {
    let result = pbkdf2_sha256(b"password", b"salt", 1, 32);
    assert_eq!(result.len(), 32);
}

#[test]
fn pbkdf2_sha256_128_bytes() {
    let result = pbkdf2_sha256(b"test", b"salt", 1, 128);
    assert_eq!(result.len(), 128);
}

#[test]
fn hashed_device_uuid_produces_base64() {
    let result = hashed_device_uuid("TEST-UUID");
    assert!(!result.is_empty());
    // SHA1 (20) + SHA256 (32) = 52 bytes -> base64 of 72 chars
    assert!(result.len() > 50);
}

#[test]
fn longest_common_suffix_works() {
    let strings = vec!["abc123".to_string(), "def123".to_string()];
    assert_eq!(longest_common_suffix(&strings), Some("123".to_string()));
}

#[test]
fn longest_common_suffix_none_when_empty() {
    let strings: Vec<String> = vec![];
    assert_eq!(longest_common_suffix(&strings), None);
}

#[test]
fn longest_common_suffix_no_match() {
    let strings = vec!["abc".to_string(), "def".to_string()];
    assert_eq!(longest_common_suffix(&strings), None);
}

use openkakao_cli::local_db::{
    db_lookup_name, derive_database_name, derive_secure_key, find_database_entry,
    find_hex_database_entry, is_container_prefs_plist, like_pattern, message_query_params,
    platform_uuid_from_ioreg, revision_hash_from_plist_bytes, search_user_id,
    user_id_from_plist_bytes, user_id_from_plist_entries, search_step, DirEntryInfo, SearchStep,
    USER_ID_SEARCH_CHUNK, USER_ID_SEARCH_DEADLINE_MS, LocalChat, LocalDbStatus,
    LocalMessage, PlistEntry, PlistValue,
};

fn hex(bytes: &[u8]) -> String {
    bytes.iter().map(|b| format!("{b:02x}")).collect()
}

#[test]
fn pbkdf2_sha256_matches_known_vectors() {
    assert_eq!(
        hex(&pbkdf2_sha256(b"password", b"salt", 1, 32)),
        "120fb6cffcf8b32c43e7225256c4f837a86548c92ccc35480805987cb70be17b"
    );
    assert_eq!(
        hex(&pbkdf2_sha256(b"password", b"salt", 2, 40)),
        "ae4d0c95af6b46d32d0adff928f06dd02a303f8ef3c251dfd6e2d85a95474c43830651afcb5c862f"
    );
    assert!(pbkdf2_sha256(b"password", b"salt", 1, 0).is_empty());
}

#[test]
fn hashed_device_uuid_known_value() {
    assert_eq!(
        hashed_device_uuid("TEST-UUID"),
        "+VV8CdpsMh2ZL/KF2y/sKnYGEanmMlp6HDeCcP22kz0VVfL0wlDufs6xYVnygj25AcMF2Q=="
    );
}

#[test]
fn derive_database_name_known_value() {
    let uuid = "12345678-90AB-CDEF-1234-567890ABCDEF";
    assert_eq!(
        derive_database_name(123456789, uuid),
        "ee797f963ab64508a01c144dca369768c7dcaac5fabed581340f0f658fe080aba15106b0e442f2"
    );
}

#[test]
fn derive_secure_key_known_value() {
    let uuid = "12345678-90AB-CDEF-1234-567890ABCDEF";
    assert_eq!(
        derive_secure_key(123456789, uuid),
        "e4a71d17ff6e4849e2f4cded97863ddae2b07461c3c797cb06a3368de5be574cd351dfd78d6573e1e79e0d83a2ebed462b7b2a8ca40ff47a662ed717d3ec7717f892148e28f7042b1d0556d0b49334cc184a83c7fe7e709ed55a8f3219f6d89e9d285dd34a8ff091dc0b6c57504c4949421da2255233ad0fdd3cceb4780cd7a9"
    );
}

#[test]
fn longest_common_suffix_whole_strings_and_single() {
    let same = vec!["9876".to_string(), "9876".to_string()];
    assert_eq!(longest_common_suffix(&same), Some("9876".to_string()));
    let one = vec!["abc".to_string()];
    assert_eq!(longest_common_suffix(&one), Some("abc".to_string()));
    let with_empty = vec!["abc".to_string(), String::new()];
    assert_eq!(longest_common_suffix(&with_empty), None);
    let three = vec!["x1234".to_string(), "yy234".to_string(), "34".to_string()];
    assert_eq!(longest_common_suffix(&three), Some("34".to_string()));
}

#[test]
fn platform_uuid_is_read_from_the_matching_ioreg_line() {
    let out = "+-o J314sAP  <class IOPlatformExpertDevice>\n    {\n      \"IOPlatformSerialNumber\" = \"C02XX\"\n      \"IOPlatformUUID\" = \"A1B2C3D4-E5F6-7890-ABCD-EF1234567890\"\n    }\n";
    assert_eq!(
        platform_uuid_from_ioreg(out),
        Some("A1B2C3D4-E5F6-7890-ABCD-EF1234567890".to_string())
    );
}

#[test]
fn platform_uuid_absent_or_too_short() {
    assert_eq!(platform_uuid_from_ioreg(""), None);
    assert_eq!(platform_uuid_from_ioreg("\"IOPlatformUUID\" = \"short\"\n"), None);
    assert_eq!(platform_uuid_from_ioreg("\"IOPlatformSerialNumber\" = \"C02\"\n"), None);
}

fn entry(key: &str, value: PlistValue) -> PlistEntry {
    PlistEntry { key: key.to_string(), value }
}

#[test]
fn user_id_from_transparency_keys() {
    let entries = vec![
        entry("FSChatWindowTransparency1111987654321", PlistValue::Other),
        entry("Unrelated", PlistValue::SignedInteger(5)),
        entry("FSChatWindowTransparency22987654321", PlistValue::Other),
        entry("userId", PlistValue::SignedInteger(1)),
    ];
    assert_eq!(user_id_from_plist_entries(&entries), Some(987654321));
}

#[test]
fn user_id_falls_back_to_direct_keys() {
    let one_key = vec![
        entry("FSChatWindowTransparency11987", PlistValue::Other),
        entry("user_id", PlistValue::Text("424242".to_string())),
    ];
    assert_eq!(user_id_from_plist_entries(&one_key), Some(424242));
    let bad_text = vec![
        entry("userId", PlistValue::Text("abc".to_string())),
        entry("userID", PlistValue::SignedInteger(77)),
    ];
    assert_eq!(user_id_from_plist_entries(&bad_text), Some(77));
    let none: Vec<PlistEntry> = vec![entry("FSChatWindowTransparency", PlistValue::Other)];
    assert_eq!(user_id_from_plist_entries(&none), None);
}

#[test]
fn container_prefs_names() {
    assert!(is_container_prefs_plist("com.kakao.KakaoTalkMac.4ab3.plist"));
    assert!(!is_container_prefs_plist("com.kakao.KakaoTalkMac.plist.bak"));
    assert!(!is_container_prefs_plist("other.plist"));
}

fn file(name: &str) -> DirEntryInfo {
    DirEntryInfo { name: name.to_string(), is_file: true }
}

fn dir(name: &str) -> DirEntryInfo {
    DirEntryInfo { name: name.to_string(), is_file: false }
}

#[test]
fn database_entry_lookup() {
    let entries = vec![
        file("fedcba9876543210fedcba98-wal"),
        file("notes.txt"),
        file("0123456789abcdef0123456789"),
    ];
    assert_eq!(find_database_entry(&entries, "0123456789abcdef"), Some(2));
    assert_eq!(find_database_entry(&entries, "zzz"), None);
    // A sidecar alone is never the database.
    assert_eq!(find_database_entry(&entries, "fedcba98"), None);
    assert_eq!(find_hex_database_entry(&entries), Some(2));
    assert_eq!(find_hex_database_entry(&[file("abc")]), None);
}

#[test]
fn database_entry_skips_sidecars_and_prefers_the_exact_name() {
    let entries = vec![file("d0d0-wal"), file("d0d0"), file("d0d0-shm")];
    assert_eq!(find_database_entry(&entries, "d0d0"), Some(1));
    let entries = vec![file("xd0d0y"), file("d0d0")];
    assert_eq!(find_database_entry(&entries, "d0d0"), Some(1));
    let entries = vec![dir("d0d0"), file("d0d0.db")];
    assert_eq!(find_database_entry(&entries, "d0d0"), Some(1));
}

#[test]
fn hex_named_directory_is_not_the_database() {
    let entries = vec![dir("0123456789abcdef0123456789abcdef01234567")];
    assert_eq!(find_hex_database_entry(&entries), None);
    let entries = vec![
        dir("0123456789abcdef0123456789abcdef01234567"),
        file("0123456789abcdef0123456789abcdef01234567-wal"),
        file("0123456789abcdef0123456789abcdef01234567"),
    ];
    assert_eq!(find_hex_database_entry(&entries), Some(2));
}

#[test]
fn user_id_from_an_exact_frame_suffix() {
    let only_frame = vec![entry("FSChatWindowFrame_12345", PlistValue::Other)];
    assert_eq!(user_id_from_plist_entries(&only_frame), Some(12345));
    let same = vec![
        entry("FSChatWindowFrame_12345", PlistValue::Other),
        entry("Other", PlistValue::Other),
        entry("FSChatWindowFrame_12345", PlistValue::Other),
    ];
    assert_eq!(user_id_from_plist_entries(&same), Some(12345));
    let differing = vec![
        entry("FSChatWindowFrame_112345", PlistValue::Other),
        entry("FSChatWindowFrame_212345", PlistValue::Other),
    ];
    assert_eq!(user_id_from_plist_entries(&differing), None);
    let direct_first = vec![
        entry("FSChatWindowFrame_12345", PlistValue::Other),
        entry("userId", PlistValue::SignedInteger(9)),
    ];
    assert_eq!(user_id_from_plist_entries(&direct_first), Some(9));
}

const SHA512_OF_12345: &str = "3627909a29c31381a071ec27f7c9ca97726182aed29a7ddd2e54353322cfb30abb9e3a6df2ac2c20fe23436311d678564d0c8d305930575f60e2d3d048184d79";

#[test]
fn user_id_search_finds_the_hashed_id() {
    assert_eq!(search_user_id(SHA512_OF_12345, 12000, 13000), Some(12345));
    assert_eq!(search_user_id(&SHA512_OF_12345.to_uppercase(), 12300, 12400), Some(12345));
    assert_eq!(search_user_id(SHA512_OF_12345, 1, 12345), None);
    assert_eq!(search_user_id(SHA512_OF_12345, 12346, 12400), None);
    assert_eq!(search_user_id("not a hash", 0, 50), None);
}

fn plist_xml(body: &str) -> Vec<u8> {
    format!(
        "<?xml version=\"1.0\" encoding=\"UTF-8\"?>\n<!DOCTYPE plist PUBLIC \"-//Apple//DTD PLIST 1.0//EN\" \"http://www.apple.com/DTDs/PropertyList-1.0.dtd\">\n<plist version=\"1.0\">\n<dict>\n{}</dict>\n</plist>\n",
        body
    )
    .into_bytes()
}

#[test]
fn user_id_from_plist_bytes_reads_the_dictionary() {
    let bytes = plist_xml("<key>userId</key>\n<integer>777</integer>\n");
    assert_eq!(user_id_from_plist_bytes(&bytes), Some(777));
    let bytes = plist_xml("<key>KAKAO_USER_ID</key>\n<string>31337</string>\n");
    assert_eq!(user_id_from_plist_bytes(&bytes), Some(31337));
    let bytes = plist_xml("<key>FSChatWindowFrame_4242</key>\n<string>{{0, 0}, {1, 1}}</string>\n");
    assert_eq!(user_id_from_plist_bytes(&bytes), Some(4242));
    assert_eq!(user_id_from_plist_bytes(b"not a plist"), None);
    assert_eq!(user_id_from_plist_bytes(&plist_xml("")), None);
}

#[test]
fn revision_hash_picks_the_highest_integer_revision() {
    let bytes = plist_xml(
        "<key>DESIGNATEDFRIENDSREVISION:aaaa</key>\n<integer>3</integer>\n\
         <key>DESIGNATEDFRIENDSREVISION:bbbb</key>\n<integer>7</integer>\n\
         <key>DESIGNATEDFRIENDSREVISION:cccc</key>\n<string>99</string>\n\
         <key>DESIGNATEDFRIENDSREVISION:dddd</key>\n<integer>7</integer>\n",
    );
    assert_eq!(revision_hash_from_plist_bytes(&bytes), Some("bbbb".to_string()));
    let none = plist_xml("<key>DESIGNATEDFRIENDSREVISION:</key>\n<integer>1</integer>\n");
    assert_eq!(revision_hash_from_plist_bytes(&none), None);
    assert_eq!(revision_hash_from_plist_bytes(b"garbage"), None);
}

#[test]
fn revision_hash_leads_back_to_the_user_id() {
    let bytes = plist_xml(&format!(
        "<key>DESIGNATEDFRIENDSREVISION:{}</key>\n<integer>2</integer>\n",
        SHA512_OF_12345
    ));
    assert_eq!(user_id_from_plist_bytes(&bytes), None);
    let hash = revision_hash_from_plist_bytes(&bytes).unwrap();
    assert_eq!(search_user_id(&hash, 1, 20000), Some(12345));
}

#[test]
fn longest_common_suffix_ignores_the_order_of_its_inputs() {
    let a = vec!["x77123".to_string(), "yy123".to_string(), "9123".to_string()];
    let b = vec!["9123".to_string(), "x77123".to_string(), "yy123".to_string()];
    assert_eq!(longest_common_suffix(&a), longest_common_suffix(&b));
    assert_eq!(longest_common_suffix(&a), Some("123".to_string()));
}

#[test]
fn db_lookup_name_needs_both_facts() {
    assert_eq!(db_lookup_name(None, Some(1)), None);
    assert_eq!(db_lookup_name(Some("UUID"), None), None);
    assert_eq!(
        db_lookup_name(Some("A1B2C3D4-E5F6-7890-ABCD-EF1234567890"), Some(12345)),
        Some(derive_database_name(12345, "A1B2C3D4-E5F6-7890-ABCD-EF1234567890"))
    );
}

#[test]
fn chat_title_falls_back_to_display_name() {
    let c = LocalChat::from_columns(1, 0, Some(String::new()), None, Some(9), None, None, Some("Alice".to_string()));
    assert_eq!(c.chat_name, "Alice");
    assert_eq!(c.display_name, "Alice");
    assert_eq!(c.active_members_count, 0);
    assert_eq!(c.last_log_id, 9);
    let g = LocalChat::from_columns(2, 1, Some("Team".to_string()), Some(3), None, None, Some(4), None);
    assert_eq!(g.chat_name, "Team");
    assert_eq!(g.display_name, "");
    assert_eq!(g.unread_count, 4);
}

#[test]
fn message_columns_default_to_empty() {
    let m = LocalMessage::from_columns(5, 6, None, None, Some("hi".to_string()), None, Some(100));
    assert_eq!((m.log_id, m.chat_id, m.author_id), (5, 6, 0));
    assert_eq!(m.sender_name, "");
    assert_eq!(m.message, "hi");
    assert_eq!((m.message_type, m.sent_at), (0, 100));
}

#[test]
fn local_db_status_from_probes() {
    let st = LocalDbStatus::from_probes(true, true, true, None, true);
    assert!(!st.db_file_found && !st.decryptable);
    let st = LocalDbStatus::from_probes(true, true, true, Some("/x".to_string()), true);
    assert!(st.db_file_found && st.decryptable);
}

#[test]
fn query_helpers() {
    assert_eq!(like_pattern("hello"), "%hello%");
    assert_eq!(message_query_params(7, 20, Some(1000)), vec![7, 1000, 20]);
    assert_eq!(message_query_params(7, 20, None), vec![7, 20]);
}

#[test]
fn local_db_status_keeps_a_path_only_after_both_probes() {
    let st = LocalDbStatus::from_probes(false, true, true, Some("/x".to_string()), true);
    assert!(!st.db_file_found && !st.decryptable && st.db_path.is_none());
    let st = LocalDbStatus::from_probes(true, false, true, Some("/x".to_string()), true);
    assert!(!st.db_file_found && !st.decryptable);
    let st = LocalDbStatus::from_probes(true, true, false, Some("/x".to_string()), false);
    assert!(st.db_file_found && !st.decryptable);
}

#[test]
fn shorter_pbkdf2_key_is_a_prefix_of_a_longer_one() {
    let long = pbkdf2_sha256(b"pw", b"salt", 3, 100);
    for k in [0usize, 1, 20, 32, 33, 64, 99] {
        assert_eq!(pbkdf2_sha256(b"pw", b"salt", 3, k), long[..k].to_vec());
    }
}

#[test]
fn search_steps_until_the_deadline() {
    assert_eq!(search_step(0, 1), SearchStep::Search { from: 1, to: 1 + USER_ID_SEARCH_CHUNK });
    assert_eq!(search_step(USER_ID_SEARCH_DEADLINE_MS - 1, 500), SearchStep::Search { from: 500, to: 500 + USER_ID_SEARCH_CHUNK });
    assert_eq!(search_step(USER_ID_SEARCH_DEADLINE_MS, 1), SearchStep::GiveUp);
    assert_eq!(search_step(0, i64::MAX as u64), SearchStep::GiveUp);
    assert_eq!(search_step(0, i64::MAX as u64 - 5), SearchStep::Search { from: i64::MAX as u64 - 5, to: i64::MAX as u64 });
}
